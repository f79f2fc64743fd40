use vstd::prelude::*;


verus! {

/// Format for request and response data.
#[derive(Debug, Clone, Copy, PartialEq, Eq, Structural)]
pub enum Format {
    Json,
    Text,
}

impl Format {
    /// Parse a format name; only `json` and `text` are accepted.
    pub fn from_str(s: &str) -> (r: Result<Format, String>)
        ensures
            s@ == "json"@ ==> r == Result::<Format, String>::Ok(Format::Json),
            s@ == "text"@ ==> r == Result::<Format, String>::Ok(Format::Text),
            s@ != "json"@ && s@ != "text"@ ==> r is Err && r->Err_0@
                == "The --format option must be 'json' or 'text', got '"@ + s@ + "'."@,
    {
        proof {
            reveal_strlit("json");
            reveal_strlit("text");
            assert("json"@[0] != "text"@[0]);
        }
        if crate::strutil::str_eq(s, "json") {
            Ok(Format::Json)
        } else if crate::strutil::str_eq(s, "text") {
            Ok(Format::Text)
        } else {
            Err(
                String::from_str("The --format option must be 'json' or 'text', got '").concat(
                    s,
                ).concat("'."),
            )
        }
    }

    /// The name of this format, as printed in messages.
    pub fn name(&self) -> (r: &'static str)
        ensures
            *self == Format::Json ==> r@ == "json"@,
            *self == Format::Text ==> r@ == "text"@,
    {
        match self {
            Format::Json => "json",
            Format::Text => "text",
        }
    }
}

/// Options controlling request parsing and response formatting.
#[derive(Debug, Clone, Copy)]
pub struct FormatOptions {
    /// Include fields with default values in JSON output.
    pub emit_defaults: bool,
    /// Accept unknown fields in JSON input without error.
    pub allow_unknown_fields: bool,
}

impl Default for FormatOptions {
    fn default() -> (r: Self)
        ensures
            !r.emit_defaults,
            !r.allow_unknown_fields,
    {
        FormatOptions { emit_defaults: false, allow_unknown_fields: false }
    }
}


/// A decimal digit.
pub open spec fn is_digit_char(c: char) -> bool {
    48 <= c as u32 && c as u32 <= 57
}

/// The number of leading digits of `s`.
pub open spec fn digit_run(s: Seq<char>) -> int
    decreases s.len(),
{
    if s.len() == 0 {
        0
    } else if !is_digit_char(s[0]) {
        0
    } else {
        1 + digit_run(s.subrange(1, s.len() as int))
    }
}

proof fn lemma_digit_run_unique(s: Seq<char>, i: int)
    requires
        0 <= i <= s.len(),
        forall|j: int| 0 <= j < i ==> is_digit_char(s[j]),
        i < s.len() ==> !is_digit_char(s[i]),
    ensures
        digit_run(s) == i,
    decreases s.len(),
{
    if s.len() == 0 {
    } else if !is_digit_char(s[0]) {
        assert(i == 0);
    } else {
        let t = s.subrange(1, s.len() as int);
        assert(i >= 1);
        assert forall|j: int| 0 <= j < i - 1 implies is_digit_char(t[j]) by {
            assert(t[j] == s[j + 1]);
        }
        assert(i - 1 < t.len() ==> t[i - 1] == s[i]);
        lemma_digit_run_unique(t, i - 1);
    }
}

/// A character that may follow a whole-valued number in pretty-printed
/// JSON: a separator, closing bracket or whitespace.
pub open spec fn is_number_end(c: char) -> bool {
    c == ',' || c == ' ' || c == '\t' || c == '\n' || c == '\r' || c == '\u{b}' || c == '\u{c}'
        || c == '}' || c == ']'
}

/// Whether a whole-valued float stands at the front of `s`: `: N.0`
/// followed by a number-ending character or the end of the text.
pub open spec fn whole_float_at(s: Seq<char>) -> bool {
    let d = digit_run(s.subrange(2, s.len() as int));
    &&& s.len() >= 2
    &&& s[0] == ':'
    &&& s[1] == ' '
    &&& d >= 1
    &&& s.len() >= 2 + d + 2
    &&& s[2 + d] == '.'
    &&& s[2 + d + 1] == '0'
    &&& (s.len() == 2 + d + 2 || is_number_end(s[2 + d + 2]))
}

/// `s` with every whole-valued float after a `: ` stripped of its
/// trailing `.0`, matching how canonical JSON encoders print whole
/// numbers.
pub open spec fn norm_floats(s: Seq<char>) -> Seq<char>
    decreases s.len(),
{
    if s.len() == 0 {
        Seq::empty()
    } else if whole_float_at(s) {
        let d = digit_run(s.subrange(2, s.len() as int));
        ": "@ + s.subrange(2, 2 + d) + norm_floats(s.subrange(2 + d + 2, s.len() as int))
    } else {
        seq![s[0]] + norm_floats(s.subrange(1, s.len() as int))
    }
}

/// Whether this character may end a number.
fn number_end(c: char) -> (r: bool)
    ensures
        r == is_number_end(c),
{
    c == ',' || c == ' ' || c == '\t' || c == '\n' || c == '\r' || c == '\u{b}' || c == '\u{c}'
        || c == '}' || c == ']'
}

/// Whether `c` is a decimal digit.
fn is_digit(c: char) -> (r: bool)
    ensures
        r == is_digit_char(c),
{
    '0' <= c && c <= '9'
}

/// The number of leading digits of `s`.
fn digit_run_index(s: &str) -> (i: usize)
    ensures
        i == digit_run(s@),
        i <= s@.len(),
{
    let n = s.unicode_len();
    let mut i: usize = 0;
    while i < n && is_digit(s.get_char(i))
        invariant
            0 <= i <= n,
            n == s@.len(),
            forall|j: int| 0 <= j < i ==> is_digit_char(s@[j]),
        decreases n - i,
    {
        i = i + 1;
    }
    proof {
        lemma_digit_run_unique(s@, i as int);
    }
    i
}

/// Strip the trailing `.0` from whole-valued JSON numbers, so that whole
/// doubles print as canonical JSON whole numbers.
pub fn normalize_json_floats(s: &str) -> (r: String)
    ensures
        r@ == norm_floats(s@),
    decreases s@.len(),
{
    let n = s.unicode_len();
    if n == 0 {
        return String::new();
    }
    if n >= 2 && s.get_char(0) == ':' && s.get_char(1) == ' ' {
        let rest2 = s.substring_char(2, n);
        let d = digit_run_index(rest2);
        if d >= 1 && n - 2 - d >= 2 && s.get_char(2 + d) == '.' && s.get_char(2 + d + 1) == '0'
            && (n == 2 + d + 2 || number_end(s.get_char(2 + d + 2))) {
            let digits = s.substring_char(2, 2 + d);
            let rest = normalize_json_floats(s.substring_char(2 + d + 2, n));
            let r = String::from_str(": ").concat(digits).concat(rest.as_str());
            proof {
                assert(whole_float_at(s@));
                assert(r@ =~= norm_floats(s@));
            }
            return r;
        }
    }
    let head = s.substring_char(0, 1);
    let rest = normalize_json_floats(s.substring_char(1, n));
    let r = head.to_owned().concat(rest.as_str());
    proof {
        assert(!whole_float_at(s@));
        assert(r@ =~= seq![s@[0]] + norm_floats(s@.subrange(1, s@.len() as int)));
    }
    r
}

} // verus!