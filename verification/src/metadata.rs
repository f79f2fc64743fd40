use vstd::prelude::*;
use base64::Engine;
use crate::errors::GrpcurlError;
use crate::strutil::find_char;
use crate::strutil::find_char_pos;
use crate::strutil::insert_line_sorted;
use crate::strutil::join_newlines;
use crate::strutil::lemma_find_char_pos;
use crate::strutil::lemma_join_newlines_push;
use crate::strutil::sort_lines_spec;
use crate::strutil::sort_strings;
use crate::strutil::str_eq;
use crate::strutil::trim_spec;
use crate::strutil::trim_str;
use crate::strutil::views_of;

verus! {

/// What `str::to_lowercase` returns: a function of the characters alone.
pub uninterp spec fn lower_of(s: Seq<char>) -> Seq<char>;

/// Relies on str::to_lowercase: the result depends on the characters alone.
#[verifier::external_body]
fn lowercase(s: &str) -> (r: String)
    ensures
        r@ == lower_of(s@),
{
    s.to_lowercase()
}

/// What base64's STANDARD engine decodes a string to, when it accepts it.
pub uninterp spec fn b64_std_decode(s: Seq<char>) -> Option<Seq<u8>>;

/// What base64's URL_SAFE engine decodes a string to, when it accepts it.
pub uninterp spec fn b64_url_decode(s: Seq<char>) -> Option<Seq<u8>>;

/// What base64's STANDARD_NO_PAD engine decodes a string to, when it
/// accepts it.
pub uninterp spec fn b64_std_raw_decode(s: Seq<char>) -> Option<Seq<u8>>;

/// What base64's URL_SAFE_NO_PAD engine decodes a string to, when it
/// accepts it.
pub uninterp spec fn b64_url_raw_decode(s: Seq<char>) -> Option<Seq<u8>>;

/// What base64's STANDARD engine encodes bytes to.
pub uninterp spec fn b64_std_encode(b: Seq<u8>) -> Seq<char>;

/// The byte sequence of an optional byte vector.
pub open spec fn opt_bytes_view(o: Option<Vec<u8>>) -> Option<Seq<u8>> {
    match o {
        Some(b) => Some(b@),
        None => None,
    }
}

/// Relies on base64's Engine::decode with the STANDARD engine: the result
/// depends on the input characters alone.
#[verifier::external_body]
fn decode_b64_standard(v: &str) -> (r: Option<Vec<u8>>)
    ensures
        opt_bytes_view(r) == b64_std_decode(v@),
{
    base64::engine::general_purpose::STANDARD.decode(v).ok()
}

/// Relies on base64's Engine::decode with the URL_SAFE engine: the result
/// depends on the input characters alone.
#[verifier::external_body]
fn decode_b64_url_safe(v: &str) -> (r: Option<Vec<u8>>)
    ensures
        opt_bytes_view(r) == b64_url_decode(v@),
{
    base64::engine::general_purpose::URL_SAFE.decode(v).ok()
}

/// Relies on base64's Engine::decode with the STANDARD_NO_PAD engine: the
/// result depends on the input characters alone.
#[verifier::external_body]
fn decode_b64_standard_no_pad(v: &str) -> (r: Option<Vec<u8>>)
    ensures
        opt_bytes_view(r) == b64_std_raw_decode(v@),
{
    base64::engine::general_purpose::STANDARD_NO_PAD.decode(v).ok()
}

/// Relies on base64's Engine::decode with the URL_SAFE_NO_PAD engine: the
/// result depends on the input characters alone.
#[verifier::external_body]
fn decode_b64_url_safe_no_pad(v: &str) -> (r: Option<Vec<u8>>)
    ensures
        opt_bytes_view(r) == b64_url_raw_decode(v@),
{
    base64::engine::general_purpose::URL_SAFE_NO_PAD.decode(v).ok()
}

/// Relies on base64's Engine::encode with the STANDARD engine: the result
/// depends on the input bytes alone.
#[verifier::external_body]
fn encode_b64_standard(b: &Vec<u8>) -> (r: String)
    ensures
        r@ == b64_std_encode(b@),
{
    base64::engine::general_purpose::STANDARD.encode(b.as_slice())
}

/// The first successful decoding of the trimmed input, trying the
/// standard, URL-safe, standard-no-padding and URL-safe-no-padding codecs
/// in that order; `None` when all four refuse it.
pub open spec fn try_b64_spec(v: Seq<char>) -> Option<Seq<u8>> {
    let t = trim_spec(v);
    if b64_std_decode(t) is Some {
        b64_std_decode(t)
    } else if b64_url_decode(t) is Some {
        b64_url_decode(t)
    } else if b64_std_raw_decode(t) is Some {
        b64_std_raw_decode(t)
    } else if b64_url_raw_decode(t) is Some {
        b64_url_raw_decode(t)
    } else {
        None
    }
}

/// Try to decode a base64 string with several codecs, returning the first
/// success, or `None` when all fail.
pub fn try_base64_decode(value: &str) -> (r: Option<Vec<u8>>)
    ensures
        opt_bytes_view(r) == try_b64_spec(value@),
{
    let t = trim_str(value);
    if let Some(b) = decode_b64_standard(t) {
        return Some(b);
    }
    if let Some(b) = decode_b64_url_safe(t) {
        return Some(b);
    }
    if let Some(b) = decode_b64_standard_no_pad(t) {
        return Some(b);
    }
    if let Some(b) = decode_b64_url_safe_no_pad(t) {
        return Some(b);
    }
    None
}

/// The value of one metadata entry: printable text, or the bytes of a
/// binary (`-bin`) header.
pub enum HeaderValue {
    Ascii(String),
    Binary(Vec<u8>),
}

/// One parsed header: a lowercased name and its value. Names may repeat;
/// entries keep their insertion order.
pub struct MetadataEntry {
    pub name: String,
    pub value: HeaderValue,
}

/// The raw name part of a header string: everything before the first `:`,
/// or the whole string when there is none.
pub open spec fn raw_name_spec(h: Seq<char>) -> Seq<char> {
    let p = find_char_pos(h, ':');
    if p < h.len() {
        h.subrange(0, p)
    } else {
        h
    }
}

/// The raw value part of a header string: everything after the first `:`,
/// or empty when there is none.
pub open spec fn raw_value_spec(h: Seq<char>) -> Seq<char> {
    let p = find_char_pos(h, ':');
    if p < h.len() {
        h.subrange(p + 1, h.len() as int)
    } else {
        Seq::empty()
    }
}

/// The parsed name of a header: trimmed and lowercased.
pub open spec fn header_name_spec(h: Seq<char>) -> Seq<char> {
    lower_of(trim_spec(raw_name_spec(h)))
}

/// The parsed value of a header: trimmed.
pub open spec fn header_value_spec(h: Seq<char>) -> Seq<char> {
    trim_spec(raw_value_spec(h))
}

/// Whether a name marks a binary header (it ends in `-bin`).
pub open spec fn is_bin_name(name: Seq<char>) -> bool {
    name.len() >= 4 && name.subrange(name.len() - 4, name.len() as int) == "-bin"@
}

/// A header is kept when its parsed name is nonempty.
pub open spec fn header_kept(h: Seq<char>) -> bool {
    header_name_spec(h).len() > 0
}

/// The headers that are kept, in order.
pub open spec fn kept_headers(hs: Seq<Seq<char>>) -> Seq<Seq<char>>
    decreases hs.len(),
{
    if hs.len() == 0 {
        Seq::empty()
    } else {
        (if header_kept(hs[0]) {
            seq![hs[0]]
        } else {
            Seq::empty()
        }) + kept_headers(hs.subrange(1, hs.len() as int))
    }
}

proof fn lemma_kept_headers_push(hs: Seq<Seq<char>>, x: Seq<char>)
    ensures
        kept_headers(hs.push(x)) == kept_headers(hs) + (if header_kept(x) {
            seq![x]
        } else {
            Seq::<Seq<char>>::empty()
        }),
    decreases hs.len(),
{
    if hs.len() == 0 {
        assert(hs.push(x) =~= seq![x]);
        assert(seq![x].subrange(1, 1) =~= Seq::<Seq<char>>::empty());
        assert(kept_headers(Seq::<Seq<char>>::empty()) == Seq::<Seq<char>>::empty());
        assert(kept_headers(hs.push(x)) =~= kept_headers(hs) + (if header_kept(x) {
            seq![x]
        } else {
            Seq::<Seq<char>>::empty()
        }));
    } else {
        let t = hs.subrange(1, hs.len() as int);
        lemma_kept_headers_push(t, x);
        assert(hs.push(x)[0] == hs[0]);
        assert(hs.push(x).subrange(1, hs.len() as int + 1) =~= t.push(x));
        assert(kept_headers(hs.push(x)) =~= kept_headers(hs) + (if header_kept(x) {
            seq![x]
        } else {
            Seq::<Seq<char>>::empty()
        }));
    }
}

/// Whether `e` is the entry that header string `h` parses to.
pub open spec fn entry_ok(e: MetadataEntry, h: Seq<char>) -> bool {
    let name = header_name_spec(h);
    let value = header_value_spec(h);
    &&& e.name@ == name
    &&& if is_bin_name(name) {
        e.value matches HeaderValue::Binary(b) && b@ == (match try_b64_spec(value) {
            Some(d) => d,
            None => vstd::utf8::encode_utf8(value),
        })
    } else {
        e.value matches HeaderValue::Ascii(s) && s@ == value
    }
}

/// Whether `entries` are exactly the parses of `headers`, in order.
pub open spec fn entries_match(entries: Seq<MetadataEntry>, headers: Seq<Seq<char>>) -> bool {
    entries.len() == headers.len() && forall|i: int|
        0 <= i < entries.len() ==> entry_ok(entries[i], headers[i])
}

/// Parse header strings in `name: value` form into metadata entries.
///
/// Splits each string on its first `:` (no colon means an empty value),
/// trims and lowercases the name, trims the value, and drops entries whose
/// name comes out empty. A name ending in `-bin` is a binary header: its
/// value is base64-decoded leniently, falling back to the raw bytes.
pub fn metadata_from_headers(headers: &Vec<String>) -> (r: Vec<MetadataEntry>)
    ensures
        entries_match(r@, kept_headers(views_of(headers@))),
{
    let mut out: Vec<MetadataEntry> = Vec::new();
    let mut i: usize = 0;
    while i < headers.len()
        invariant
            0 <= i <= headers@.len(),
            entries_match(out@, kept_headers(views_of(headers@).subrange(0, i as int))),
        decreases headers@.len() - i,
    {
        let h = headers[i].as_str();
        let n = h.unicode_len();
        proof {
            lemma_find_char_pos(h@, ':');
        }
        let p = find_char(h, ':');
        let name_raw = if p < n {
            h.substring_char(0, p)
        } else {
            h
        };
        let value_raw = if p < n {
            h.substring_char(p + 1, n)
        } else {
            h.substring_char(n, n)
        };
        proof {
            if p >= n {
                assert(h@.subrange(n as int, n as int) =~= Seq::<char>::empty());
            }
        }
        let name = lowercase(trim_str(name_raw));
        let value = trim_str(value_raw);
        let nn = name.as_str().unicode_len();
        let is_bin = nn >= 4 && str_eq(name.as_str().substring_char(nn - 4, nn), "-bin");
        let ghost hview = h@;
        let ghost prefix = views_of(headers@).subrange(0, i as int);
        if nn > 0 {
            let entry = if is_bin {
                let bytes = match try_base64_decode(value) {
                    Some(b) => b,
                    None => value.as_bytes_vec(),
                };
                MetadataEntry { name, value: HeaderValue::Binary(bytes) }
            } else {
                MetadataEntry { name, value: HeaderValue::Ascii(value.to_owned()) }
            };
            proof {
                assert(entry_ok(entry, hview));
            }
            out.push(entry);
        }
        proof {
            lemma_kept_headers_push(prefix, hview);
            assert(views_of(headers@).subrange(0, i + 1) =~= prefix.push(hview));
        }
        i = i + 1;
    }
    proof {
        assert(views_of(headers@).subrange(0, headers@.len() as int) =~= views_of(headers@));
    }
    out
}

/// A word character in a `${NAME}` reference: an ASCII letter, digit or
/// underscore.
pub open spec fn is_word_char(c: char) -> bool {
    (97 <= c as u32 && c as u32 <= 122) || (65 <= c as u32 && c as u32 <= 90) || (48 <= c as u32
        && c as u32 <= 57) || c == '_'
}

/// The number of leading word characters of `s`.
pub open spec fn word_run(s: Seq<char>) -> int
    decreases s.len(),
{
    if s.len() == 0 {
        0
    } else if !is_word_char(s[0]) {
        0
    } else {
        1 + word_run(s.subrange(1, s.len() as int))
    }
}

proof fn lemma_word_run_unique(s: Seq<char>, i: int)
    requires
        0 <= i <= s.len(),
        forall|j: int| 0 <= j < i ==> is_word_char(s[j]),
        i < s.len() ==> !is_word_char(s[i]),
    ensures
        word_run(s) == i,
    decreases s.len(),
{
    if s.len() == 0 {
    } else if !is_word_char(s[0]) {
        assert(i == 0);
    } else {
        let t = s.subrange(1, s.len() as int);
        assert(i >= 1);
        assert forall|j: int| 0 <= j < i - 1 implies is_word_char(t[j]) by {
            assert(t[j] == s[j + 1]);
        }
        assert(i - 1 < t.len() ==> t[i - 1] == s[i]);
        lemma_word_run_unique(t, i - 1);
    }
}

/// Whether `c` is a word character.
fn word_char(c: char) -> (r: bool)
    ensures
        r == is_word_char(c),
{
    (97 <= c as u32 && c as u32 <= 122) || (65 <= c as u32 && c as u32 <= 90) || (48 <= c as u32
        && c as u32 <= 57) || c == '_'
}

/// The number of leading word characters of `s`.
fn word_run_index(s: &str) -> (i: usize)
    ensures
        i == word_run(s@),
        i <= s@.len(),
{
    let n = s.unicode_len();
    let mut i: usize = 0;
    while i < n && word_char(s.get_char(i))
        invariant
            0 <= i <= n,
            n == s@.len(),
            forall|j: int| 0 <= j < i ==> is_word_char(s@[j]),
        decreases n - i,
    {
        i = i + 1;
    }
    proof {
        lemma_word_run_unique(s@, i as int);
    }
    i
}

/// The variable pairs of an environment list.
pub open spec fn env_views(env: Seq<(String, String)>) -> Seq<(Seq<char>, Seq<char>)> {
    env.map_values(|p: (String, String)| (p.0@, p.1@))
}

/// The value of the first environment pair named `name`.
pub open spec fn env_lookup(env: Seq<(Seq<char>, Seq<char>)>, name: Seq<char>) -> Option<
    Seq<char>,
>
    decreases env.len(),
{
    if env.len() == 0 {
        None
    } else if env[0].0 == name {
        Some(env[0].1)
    } else {
        env_lookup(env.subrange(1, env.len() as int), name)
    }
}

/// The value of the first environment pair named `name`.
fn lookup_env(env: &Vec<(String, String)>, name: &str) -> (r: Option<String>)
    ensures
        (match r {
            Some(v) => Some(v@),
            None => None,
        }) == env_lookup(env_views(env@), name@),
{
    let mut i: usize = 0;
    proof {
        assert(env_views(env@).subrange(0, env@.len() as int) =~= env_views(env@));
    }
    while i < env.len()
        invariant
            0 <= i <= env@.len(),
            env_lookup(env_views(env@), name@) == env_lookup(
                env_views(env@).subrange(i as int, env@.len() as int),
                name@,
            ),
            forall|j: int| 0 <= j < i ==> env_views(env@)[j].0 != name@,
        decreases env@.len() - i,
    {
        if str_eq(env[i].0.as_str(), name) {
            proof {
                assert(env_views(env@).subrange(i as int, env@.len() as int)[0] == env_views(
                    env@,
                )[i as int]);
            }
            return Some(env[i].1.clone());
        }
        proof {
            let tail = env_views(env@).subrange(i as int, env@.len() as int);
            assert(tail[0] == env_views(env@)[i as int]);
            assert(tail.subrange(1, tail.len() as int) =~= env_views(env@).subrange(
                i + 1,
                env@.len() as int,
            ));
        }
        i = i + 1;
    }
    proof {
        assert(env_views(env@).subrange(env@.len() as int, env@.len() as int) =~= Seq::<(
            Seq<char>,
            Seq<char>,
        )>::empty());
    }
    None
}

/// `s` with each `${NAME}` reference replaced by the environment value of
/// `NAME`; the first undefined name is the error.
pub open spec fn expand_value_spec(s: Seq<char>, env: Seq<(Seq<char>, Seq<char>)>) -> Result<
    Seq<char>,
    Seq<char>,
>
    decreases s.len(),
{
    if s.len() == 0 {
        Ok(Seq::empty())
    } else if s.len() >= 2 && s[0] == '$' && s[1] == '{' && word_run(
        s.subrange(2, s.len() as int),
    ) > 0 && 2 + word_run(s.subrange(2, s.len() as int)) < s.len() && s[2 + word_run(
        s.subrange(2, s.len() as int),
    )] == '}' {
        let w = word_run(s.subrange(2, s.len() as int));
        let name = s.subrange(2, 2 + w);
        match env_lookup(env, name) {
            Some(v) => match expand_value_spec(s.subrange(3 + w, s.len() as int), env) {
                Ok(rest) => Ok(v + rest),
                Err(e) => Err(e),
            },
            None => Err(name),
        }
    } else {
        match expand_value_spec(s.subrange(1, s.len() as int), env) {
            Ok(rest) => Ok(seq![s[0]] + rest),
            Err(e) => Err(e),
        }
    }
}

/// Replace each `${NAME}` reference in `s` with the environment value of
/// `NAME`; an undefined name is an error carrying that name.
fn expand_value(s: &str, env: &Vec<(String, String)>) -> (r: Result<String, String>)
    ensures
        (match r {
            Ok(v) => Ok(v@),
            Err(e) => Err(e@),
        }) == expand_value_spec(s@, env_views(env@)),
    decreases s@.len(),
{
    let n = s.unicode_len();
    if n == 0 {
        return Ok(String::new());
    }
    if n >= 2 && s.get_char(0) == '$' && s.get_char(1) == '{' {
        let rest2 = s.substring_char(2, n);
        let w = word_run_index(rest2);
        if w > 0 && 2 + w < n && s.get_char(2 + w) == '}' {
            let name = s.substring_char(2, 2 + w);
            proof {
                assert(name@ =~= s@.subrange(2, 2 + word_run(s@.subrange(2, s@.len() as int))));
            }
            match lookup_env(env, name) {
                Some(v) => {
                    match expand_value(s.substring_char(3 + w, n), env) {
                        Ok(rest) => Ok(v.concat(rest.as_str())),
                        Err(e) => Err(e),
                    }
                },
                None => Err(name.to_owned()),
            }
        } else {
            let head = s.substring_char(0, 1);
            match expand_value(s.substring_char(1, n), env) {
                Ok(rest) => {
                    let out = head.to_owned().concat(rest.as_str());
                    proof {
                        assert(out@ =~= seq![s@[0]] + rest@);
                    }
                    Ok(out)
                },
                Err(e) => Err(e),
            }
        }
    } else {
        let head = s.substring_char(0, 1);
        match expand_value(s.substring_char(1, n), env) {
            Ok(rest) => {
                let out = head.to_owned().concat(rest.as_str());
                proof {
                    assert(out@ =~= seq![s@[0]] + rest@);
                }
                Ok(out)
            },
            Err(e) => Err(e),
        }
    }
}

/// A header with its value part expanded: the name and colon are kept as
/// they stand, and only the text after the first colon is expanded. A
/// header without a colon becomes empty.
pub open spec fn expand_header_spec(h: Seq<char>, env: Seq<(Seq<char>, Seq<char>)>) -> Result<
    Seq<char>,
    Seq<char>,
> {
    let p = find_char_pos(h, ':');
    if p < h.len() {
        match expand_value_spec(h.subrange(p + 1, h.len() as int), env) {
            Ok(v) => Ok(h.subrange(0, p + 1) + v),
            Err(e) => Err(e),
        }
    } else {
        Ok(Seq::empty())
    }
}

/// All headers expanded in order, or the first undefined variable name.
pub open spec fn expand_headers_spec(hs: Seq<Seq<char>>, env: Seq<(Seq<char>, Seq<char>)>) -> Result<
    Seq<Seq<char>>,
    Seq<char>,
>
    decreases hs.len(),
{
    if hs.len() == 0 {
        Ok(Seq::empty())
    } else {
        match expand_header_spec(hs[0], env) {
            Ok(v) => match expand_headers_spec(hs.subrange(1, hs.len() as int), env) {
                Ok(rest) => Ok(seq![v] + rest),
                Err(e) => Err(e),
            },
            Err(e) => Err(e),
        }
    }
}

/// Expand `${NAME}` references in header values from the given
/// environment pairs; an undefined variable fails with `InvalidArgument`.
pub fn expand_headers(headers: &Vec<String>, env: &Vec<(String, String)>) -> (r: Result<
    Vec<String>,
    GrpcurlError,
>)
    ensures
        r matches Ok(out) ==> expand_headers_spec(views_of(headers@), env_views(env@))
            == Result::<Seq<Seq<char>>, Seq<char>>::Ok(views_of(out@)),
        r matches Err(e) ==> expand_headers_spec(views_of(headers@), env_views(env@)) matches Err(
            name,
        ) && e matches GrpcurlError::InvalidArgument(m) && m@
            == "no value for environment variable "@ + name,
{
    let ghost full = views_of(headers@);
    let ghost ev = env_views(env@);
    let mut out: Vec<String> = Vec::new();
    let mut i: usize = 0;
    proof {
        if expand_headers_spec(full, ev) is Ok {
            assert(views_of(out@) + expand_headers_spec(full, ev)->Ok_0 =~= expand_headers_spec(
                full,
                ev,
            )->Ok_0);
        }
        assert(full.subrange(0, full.len() as int) =~= full);
    }
    while i < headers.len()
        invariant
            0 <= i <= headers@.len(),
            full == views_of(headers@),
            ev == env_views(env@),
            expand_headers_spec(full, ev) == (match expand_headers_spec(
                full.subrange(i as int, full.len() as int),
                ev,
            ) {
                Ok(rest) => Result::<Seq<Seq<char>>, Seq<char>>::Ok(views_of(out@) + rest),
                Err(e) => Result::<Seq<Seq<char>>, Seq<char>>::Err(e),
            }),
        decreases headers@.len() - i,
    {
        let ghost suffix = full.subrange(i as int, full.len() as int);
        proof {
            assert(suffix[0] == full[i as int]);
            assert(suffix.subrange(1, suffix.len() as int) =~= full.subrange(
                i + 1,
                full.len() as int,
            ));
        }
        let h = headers[i].as_str();
        let n = h.unicode_len();
        proof {
            lemma_find_char_pos(h@, ':');
        }
        let p = find_char(h, ':');
        if p < n {
            match expand_value(h.substring_char(p + 1, n), env) {
                Ok(v) => {
                    let line = h.substring_char(0, p + 1).to_owned().concat(v.as_str());
                    let ghost prev = out@;
                    out.push(line);
                    proof {
                        assert(views_of(out@) =~= views_of(prev).push(line@));
                        if expand_headers_spec(full.subrange(i + 1, full.len() as int), ev)
                            is Ok {
                            assert(views_of(prev).push(line@) + expand_headers_spec(
                                full.subrange(i + 1, full.len() as int),
                                ev,
                            )->Ok_0 =~= views_of(prev) + (seq![line@] + expand_headers_spec(
                                full.subrange(i + 1, full.len() as int),
                                ev,
                            )->Ok_0));
                        }
                    }
                },
                Err(name) => {
                    return Err(
                        GrpcurlError::InvalidArgument(
                            String::from_str("no value for environment variable ").concat(
                                name.as_str(),
                            ),
                        ),
                    );
                },
            }
        } else {
            let ghost prev = out@;
            out.push(String::new());
            proof {
                assert(views_of(out@) =~= views_of(prev).push(Seq::<char>::empty()));
                if expand_headers_spec(full.subrange(i + 1, full.len() as int), ev) is Ok {
                    assert(views_of(prev).push(Seq::<char>::empty()) + expand_headers_spec(
                        full.subrange(i + 1, full.len() as int),
                        ev,
                    )->Ok_0 =~= views_of(prev) + (seq![Seq::<char>::empty()]
                        + expand_headers_spec(
                        full.subrange(i + 1, full.len() as int),
                        ev,
                    )->Ok_0));
                }
            }
        }
        i = i + 1;
    }
    proof {
        assert(full.subrange(full.len() as int, full.len() as int) =~= Seq::<Seq<char>>::empty());
        assert(views_of(out@) + Seq::<Seq<char>>::empty() =~= views_of(out@));
    }
    Ok(out)
}

/// The rendered line of one entry: `name: value`, binary values re-encoded
/// in standard base64.
pub open spec fn entry_line(e: MetadataEntry) -> Seq<char> {
    match e.value {
        HeaderValue::Ascii(s) => e.name@ + ": "@ + s@,
        HeaderValue::Binary(b) => e.name@ + ": "@ + b64_std_encode(b@),
    }
}

/// The rendered lines of a list of entries.
pub open spec fn entry_lines(md: Seq<MetadataEntry>) -> Seq<Seq<char>> {
    md.map_values(|e: MetadataEntry| entry_line(e))
}

/// Render metadata as one `name: value` line per entry, sorted
/// lexicographically; an empty map renders as `(empty)`.
pub fn metadata_to_string(md: &Vec<MetadataEntry>) -> (r: String)
    ensures
        md@.len() == 0 ==> r@ == "(empty)"@,
        md@.len() > 0 ==> r@ == join_newlines(sort_lines_spec(entry_lines(md@))),
{
    if md.len() == 0 {
        return "(empty)".to_owned();
    }
    let mut lines: Vec<String> = Vec::new();
    let mut i: usize = 0;
    while i < md.len()
        invariant
            0 <= i <= md@.len(),
            views_of(lines@) == entry_lines(md@.subrange(0, i as int)),
        decreases md@.len() - i,
    {
        let e = &md[i];
        let line: String;
        match &e.value {
            HeaderValue::Ascii(s) => {
                line = e.name.clone().concat(": ").concat(s.as_str());
                proof {
                    assert(line@ =~= entry_line(md@[i as int]));
                }
            },
            HeaderValue::Binary(b) => {
                line = e.name.clone().concat(": ").concat(encode_b64_standard(b).as_str());
                proof {
                    assert(line@ =~= entry_line(md@[i as int]));
                }
            },
        }
        let ghost prev = lines@;
        lines.push(line);
        proof {
            assert(views_of(lines@) =~= views_of(prev).push(line@));
            assert(md@.subrange(0, i + 1)[i as int] == md@[i as int]);
            assert(entry_lines(md@.subrange(0, i + 1)) =~= entry_lines(
                md@.subrange(0, i as int),
            ).push(entry_line(md@[i as int])));
            assert(views_of(lines@) =~= entry_lines(md@.subrange(0, i + 1)));
        }
        i = i + 1;
    }
    proof {
        assert(md@.subrange(0, md@.len() as int) =~= md@);
    }
    proof {
        crate::strutil::lemma_sort_lines_len(views_of(lines@));
    }
    let sorted = sort_strings(&lines);
    let mut out: String = sorted[0].clone();
    let mut k: usize = 1;
    proof {
        assert(views_of(sorted@).subrange(0, 1) =~= seq![sorted@[0]@]);
    }
    while k < sorted.len()
        invariant
            1 <= k <= sorted@.len(),
            views_of(sorted@) == sort_lines_spec(entry_lines(md@)),
            out@ == join_newlines(views_of(sorted@).subrange(0, k as int)),
        decreases sorted@.len() - k,
    {
        out = out.concat("\n").concat(sorted[k].as_str());
        proof {
            reveal_strlit("\n");
            let pre = views_of(sorted@).subrange(0, k as int);
            lemma_join_newlines_push(pre, sorted@[k as int]@);
            assert(pre.push(sorted@[k as int]@) =~= views_of(sorted@).subrange(0, k + 1));
            assert(out@ =~= join_newlines(views_of(sorted@).subrange(0, k + 1)));
        }
        k = k + 1;
    }
    proof {
        assert(views_of(sorted@).subrange(0, sorted@.len() as int) =~= views_of(sorted@));
    }
    out
}

/// Whether a name is one of the gRPC pseudo-headers that transports merge
/// into response metadata.
pub open spec fn is_internal_header(name: Seq<char>) -> bool {
    name == "grpc-status"@ || name == "grpc-message"@ || name == "grpc-encoding"@
}

/// The entries kept for display: everything but ASCII entries named like
/// an internal pseudo-header.
pub open spec fn display_entries(md: Seq<MetadataEntry>) -> Seq<MetadataEntry>
    decreases md.len(),
{
    if md.len() == 0 {
        Seq::empty()
    } else {
        (if md[0].value is Ascii && is_internal_header(md[0].name@) {
            Seq::empty()
        } else {
            seq![md[0]]
        }) + display_entries(md.subrange(1, md.len() as int))
    }
}

proof fn lemma_display_entries_push(md: Seq<MetadataEntry>, x: MetadataEntry)
    ensures
        display_entries(md.push(x)) == display_entries(md) + (if x.value is Ascii
            && is_internal_header(x.name@) {
            Seq::<MetadataEntry>::empty()
        } else {
            seq![x]
        }),
    decreases md.len(),
{
    if md.len() == 0 {
        assert(md.push(x) =~= seq![x]);
        assert(seq![x].subrange(1, 1) =~= Seq::<MetadataEntry>::empty());
        assert(display_entries(Seq::<MetadataEntry>::empty()) == Seq::<MetadataEntry>::empty());
        assert(display_entries(md.push(x)) =~= display_entries(md) + (if x.value is Ascii
            && is_internal_header(x.name@) {
            Seq::<MetadataEntry>::empty()
        } else {
            seq![x]
        }));
    } else {
        let t = md.subrange(1, md.len() as int);
        lemma_display_entries_push(t, x);
        assert(md.push(x)[0] == md[0]);
        assert(md.push(x).subrange(1, md.len() as int + 1) =~= t.push(x));
        assert(display_entries(md.push(x)) =~= display_entries(md) + (if x.value is Ascii
            && is_internal_header(x.name@) {
            Seq::<MetadataEntry>::empty()
        } else {
            seq![x]
        }));
    }
}

/// Filter out the gRPC pseudo-headers (`grpc-status`, `grpc-message`,
/// `grpc-encoding`) before rendering response metadata.
pub fn filter_grpc_internal_headers(md: Vec<MetadataEntry>) -> (r: Vec<MetadataEntry>)
    ensures
        r@ == display_entries(md@),
{
    let ghost orig = md@;
    let mut md = md;
    let mut out: Vec<MetadataEntry> = Vec::new();
    proof {
        assert(orig.subrange(0, orig.len() as int) =~= orig);
    }
    while md.len() > 0
        invariant
            md@.len() <= orig.len(),
            md@ == orig.subrange(orig.len() - md@.len(), orig.len() as int),
            out@ == display_entries(orig.subrange(0, orig.len() - md@.len())),
        decreases md@.len(),
    {
        let ghost gi: int = orig.len() - md@.len();
        let e = md.remove(0);
        proof {
            assert(orig.subrange(gi, orig.len() as int)[0] == orig[gi]);
            assert(orig.subrange(gi, orig.len() as int).remove(0) =~= orig.subrange(
                gi + 1,
                orig.len() as int,
            ));
        }
        let internal = match &e.value {
            HeaderValue::Ascii(_) => {
                str_eq(e.name.as_str(), "grpc-status") || str_eq(e.name.as_str(), "grpc-message")
                    || str_eq(e.name.as_str(), "grpc-encoding")
            },
            HeaderValue::Binary(_) => false,
        };
        let ghost prefix = orig.subrange(0, gi);
        if !internal {
            out.push(e);
        }
        proof {
            lemma_display_entries_push(prefix, orig[gi]);
            assert(orig.subrange(0, gi + 1) =~= prefix.push(orig[gi]));
        }
    }
    proof {
        assert(orig.subrange(0, orig.len() as int) =~= orig);
    }
    out
}

/// Header round-trip: the rendered line of the entry that an ASCII (non
/// `-bin`) header parses to is its lowercased, trimmed name, a colon and
/// space, and its trimmed value.
pub proof fn lemma_header_round_trip(e: MetadataEntry, h: Seq<char>)
    requires
        entry_ok(e, h),
        !is_bin_name(header_name_spec(h)),
    ensures
        entry_line(e) == header_name_spec(h) + ": "@ + header_value_spec(h),
{
}

/// Rendering a single entry yields exactly its line: sorting and joining
/// one line is the line itself.
pub proof fn lemma_render_single(e: MetadataEntry)
    ensures
        join_newlines(sort_lines_spec(entry_lines(seq![e]))) == entry_line(e),
{
    let lines = entry_lines(seq![e]);
    assert(lines =~= seq![entry_line(e)]);
    assert(lines.subrange(0, 0) =~= Seq::<Seq<char>>::empty());
    assert(sort_lines_spec(Seq::<Seq<char>>::empty()) == Seq::<Seq<char>>::empty());
    assert(insert_line_sorted(Seq::<Seq<char>>::empty(), entry_line(e)) == seq![entry_line(e)]);
    assert(sort_lines_spec(lines) =~= seq![entry_line(e)]);
}

} // verus!
