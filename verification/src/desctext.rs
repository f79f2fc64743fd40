use vstd::prelude::*;
use crate::descmodel::FieldKind;
use crate::descmodel::FieldModel;
use crate::descmodel::EnumModel;
use crate::descmodel::EnumValueModel;
use crate::descmodel::MessageModel;
use crate::descmodel::MethodModel;
use crate::descmodel::OneofModel;
use crate::descmodel::ExtensionModel;
use crate::descmodel::ServiceModel;
use crate::descmodel::FileModel;
use crate::descmodel::FileOptionsModel;
use crate::descmodel::SymbolDescriptor;
use crate::descmodel::JsType;
use crate::strutil::dec_str;
use crate::strutil::dec_str_signed;
use crate::strutil::i64_to_string;
use crate::strutil::join_sep;
use crate::strutil::lemma_join_sep_push;
use crate::strutil::sort_lines_spec;
use crate::strutil::sort_strings;
use crate::strutil::str_eq;
use crate::strutil::u64_to_string;
use crate::strutil::views_of;

verus! {

/// The uppercase form of an ASCII lowercase letter; any other character
/// is left as it stands.
pub open spec fn ascii_upper_spec(c: char) -> char {
    if c == 'a' {
        'A'
    } else if c == 'b' {
        'B'
    } else if c == 'c' {
        'C'
    } else if c == 'd' {
        'D'
    } else if c == 'e' {
        'E'
    } else if c == 'f' {
        'F'
    } else if c == 'g' {
        'G'
    } else if c == 'h' {
        'H'
    } else if c == 'i' {
        'I'
    } else if c == 'j' {
        'J'
    } else if c == 'k' {
        'K'
    } else if c == 'l' {
        'L'
    } else if c == 'm' {
        'M'
    } else if c == 'n' {
        'N'
    } else if c == 'o' {
        'O'
    } else if c == 'p' {
        'P'
    } else if c == 'q' {
        'Q'
    } else if c == 'r' {
        'R'
    } else if c == 's' {
        'S'
    } else if c == 't' {
        'T'
    } else if c == 'u' {
        'U'
    } else if c == 'v' {
        'V'
    } else if c == 'w' {
        'W'
    } else if c == 'x' {
        'X'
    } else if c == 'y' {
        'Y'
    } else if c == 'z' {
        'Z'
    } else {
        c
    }
}

/// The uppercase form of an ASCII lowercase letter.
fn ascii_upper(c: char) -> (r: char)
    ensures
        r == ascii_upper_spec(c),
{
    if c == 'a' {
        'A'
    } else if c == 'b' {
        'B'
    } else if c == 'c' {
        'C'
    } else if c == 'd' {
        'D'
    } else if c == 'e' {
        'E'
    } else if c == 'f' {
        'F'
    } else if c == 'g' {
        'G'
    } else if c == 'h' {
        'H'
    } else if c == 'i' {
        'I'
    } else if c == 'j' {
        'J'
    } else if c == 'k' {
        'K'
    } else if c == 'l' {
        'L'
    } else if c == 'm' {
        'M'
    } else if c == 'n' {
        'N'
    } else if c == 'o' {
        'O'
    } else if c == 'p' {
        'P'
    } else if c == 'q' {
        'Q'
    } else if c == 'r' {
        'R'
    } else if c == 's' {
        'S'
    } else if c == 't' {
        'T'
    } else if c == 'u' {
        'U'
    } else if c == 'v' {
        'V'
    } else if c == 'w' {
        'W'
    } else if c == 'x' {
        'X'
    } else if c == 'y' {
        'Y'
    } else if c == 'z' {
        'Z'
    } else {
        c
    }
}

/// `snake_case` mapped to `lowerCamelCase`: underscores are dropped and
/// the following letter is uppercased (ASCII letters).
pub open spec fn lcc_spec(s: Seq<char>, cap: bool) -> Seq<char>
    decreases s.len(),
{
    if s.len() == 0 {
        Seq::empty()
    } else if s[0] == '_' {
        lcc_spec(s.subrange(1, s.len() as int), true)
    } else if cap {
        seq![ascii_upper_spec(s[0])] + lcc_spec(s.subrange(1, s.len() as int), false)
    } else {
        seq![s[0]] + lcc_spec(s.subrange(1, s.len() as int), false)
    }
}

/// The default JSON name of a field: its name in lowerCamelCase.
pub open spec fn to_lcc_spec(s: Seq<char>) -> Seq<char> {
    lcc_spec(s, false)
}

fn lcc_go(s: &str, cap: bool) -> (r: String)
    ensures
        r@ == lcc_spec(s@, cap),
    decreases s@.len(),
{
    let n = s.unicode_len();
    if n == 0 {
        return String::new();
    }
    let c = s.get_char(0);
    let rest = s.substring_char(1, n);
    if c == '_' {
        lcc_go(rest, true)
    } else {
        let head: char = if cap {
            ascii_upper(c)
        } else {
            c
        };
        let mut out = char_string(head);
        out.append(lcc_go(rest, false).as_str());
        proof {
            if cap {
                assert(out@ =~= seq![ascii_upper_spec(s@[0])] + lcc_spec(rest@, false));
            } else {
                assert(out@ =~= seq![s@[0]] + lcc_spec(rest@, false));
            }
        }
        out
    }
}

/// A one-character string.
#[verifier::external_body]
pub(crate) fn char_string(c: char) -> (r: String)
    ensures
        r@ == seq![c],
{
    let mut s = String::new();
    s.push(c);
    s
}

/// Convert `snake_case` to `lowerCamelCase` (the protobuf default
/// `json_name` mapping).
pub fn to_lower_camel_case(s: &str) -> (r: String)
    ensures
        r@ == to_lcc_spec(s@),
{
    lcc_go(s, false)
}

/// A name shortened against a package: `pkg.Rest` becomes `Rest`; names
/// outside the package keep their fully-qualified form with a leading
/// dot; with no package the name is unchanged.
pub open spec fn short_name_spec(full: Seq<char>, pkg: Seq<char>) -> Seq<char> {
    if pkg.len() == 0 {
        full
    } else if full.len() > pkg.len() && full.subrange(0, pkg.len() as int) == pkg && full[pkg.len() as int]
        == '.' {
        full.subrange(pkg.len() as int + 1, full.len() as int)
    } else {
        seq!['.'] + full
    }
}

/// Shorten a fully-qualified name by removing the package prefix; names
/// in other packages keep the fully-qualified form with a leading dot.
pub fn short_name(full_name: &str, pkg: &str) -> (r: String)
    ensures
        r@ == short_name_spec(full_name@, pkg@),
{
    let fl = full_name.unicode_len();
    let pl = pkg.unicode_len();
    if pl == 0 {
        return full_name.to_owned();
    }
    if fl > pl && str_eq(full_name.substring_char(0, pl), pkg) && full_name.get_char(pl) == '.' {
        full_name.substring_char(pl + 1, fl).to_owned()
    } else {
        let r = String::from_str(".").concat(full_name);
        proof {
            reveal_strlit(".");
            assert(r@ =~= seq!['.'] + full_name@);
        }
        r
    }
}

/// The proto-source name of a field kind; message and enum types are
/// fully qualified with a leading dot.
pub open spec fn kind_type_name_spec(k: FieldKind) -> Seq<char> {
    match k {
        FieldKind::Double => "double"@,
        FieldKind::Float => "float"@,
        FieldKind::Int64 => "int64"@,
        FieldKind::Uint64 => "uint64"@,
        FieldKind::Int32 => "int32"@,
        FieldKind::Fixed64 => "fixed64"@,
        FieldKind::Fixed32 => "fixed32"@,
        FieldKind::Bool => "bool"@,
        FieldKind::Str => "string"@,
        FieldKind::Bytes => "bytes"@,
        FieldKind::Uint32 => "uint32"@,
        FieldKind::Sfixed32 => "sfixed32"@,
        FieldKind::Sfixed64 => "sfixed64"@,
        FieldKind::Sint32 => "sint32"@,
        FieldKind::Sint64 => "sint64"@,
        FieldKind::MessageType(n) => seq!['.'] + n@,
        FieldKind::EnumType(n) => seq!['.'] + n@,
    }
}

/// The proto-source name of a field kind.
pub fn kind_to_type_name(k: &FieldKind) -> (r: String)
    ensures
        r@ == kind_type_name_spec(*k),
{
    match k {
        FieldKind::Double => String::from_str("double"),
        FieldKind::Float => String::from_str("float"),
        FieldKind::Int64 => String::from_str("int64"),
        FieldKind::Uint64 => String::from_str("uint64"),
        FieldKind::Int32 => String::from_str("int32"),
        FieldKind::Fixed64 => String::from_str("fixed64"),
        FieldKind::Fixed32 => String::from_str("fixed32"),
        FieldKind::Bool => String::from_str("bool"),
        FieldKind::Str => String::from_str("string"),
        FieldKind::Bytes => String::from_str("bytes"),
        FieldKind::Uint32 => String::from_str("uint32"),
        FieldKind::Sfixed32 => String::from_str("sfixed32"),
        FieldKind::Sfixed64 => String::from_str("sfixed64"),
        FieldKind::Sint32 => String::from_str("sint32"),
        FieldKind::Sint64 => String::from_str("sint64"),
        FieldKind::MessageType(n) => {
            let r = String::from_str(".").concat(n.as_str());
            proof {
                reveal_strlit(".");
                assert(r@ =~= seq!['.'] + n@);
            }
            r
        },
        FieldKind::EnumType(n) => {
            let r = String::from_str(".").concat(n.as_str());
            proof {
                reveal_strlit(".");
                assert(r@ =~= seq!['.'] + n@);
            }
            r
        },
    }
}

/// The bracketed options of a field, in emission order.
pub open spec fn field_opts_spec(f: FieldModel) -> Seq<Seq<char>> {
    (if f.deprecated {
        seq!["deprecated = true"@]
    } else {
        Seq::empty()
    }) + (match f.packed {
        Some(true) => seq!["packed = true"@],
        Some(false) => seq!["packed = false"@],
        None => Seq::empty(),
    }) + (match f.jstype {
        Some(JsType::JsString) => seq!["jstype = JS_STRING"@],
        Some(JsType::JsNumber) => seq!["jstype = JS_NUMBER"@],
        None => Seq::empty(),
    }) + (match f.json_name {
        Some(j) => if j@ != to_lcc_spec(f.name@) {
            seq!["json_name = \""@ + j@ + "\""@]
        } else {
            Seq::empty()
        },
        None => Seq::empty(),
    })
}

/// The rendered options suffix of a field: ` [a, b]`, or empty when no
/// option is set.
pub open spec fn format_field_options_spec(f: FieldModel) -> Seq<char> {
    if field_opts_spec(f).len() == 0 {
        Seq::empty()
    } else {
        " ["@ + join_sep(", "@, field_opts_spec(f)) + "]"@
    }
}

/// Join parts with `, ` between each pair.
fn join_comma(parts: &Vec<String>) -> (r: String)
    ensures
        r@ == join_sep(", "@, views_of(parts@)),
{
    if parts.len() == 0 {
        return String::new();
    }
    let mut out: String = parts[0].clone();
    let mut k: usize = 1;
    proof {
        assert(views_of(parts@).subrange(0, 1) =~= seq![parts@[0]@]);
    }
    while k < parts.len()
        invariant
            1 <= k <= parts@.len(),
            out@ == join_sep(", "@, views_of(parts@).subrange(0, k as int)),
        decreases parts@.len() - k,
    {
        out = out.concat(", ").concat(parts[k].as_str());
        proof {
            let pre = views_of(parts@).subrange(0, k as int);
            lemma_join_sep_push(", "@, pre, parts@[k as int]@);
            assert(pre.push(parts@[k as int]@) =~= views_of(parts@).subrange(0, k + 1));
            assert(out@ =~= join_sep(", "@, views_of(parts@).subrange(0, k + 1)));
        }
        k = k + 1;
    }
    proof {
        assert(views_of(parts@).subrange(0, parts@.len() as int) =~= views_of(parts@));
    }
    out
}

/// Render the bracketed options of a field, or nothing when none is set.
pub fn format_field_options(f: &FieldModel) -> (r: String)
    ensures
        r@ == format_field_options_spec(*f),
{
    let mut opts: Vec<String> = Vec::new();
    if f.deprecated {
        opts.push(String::from_str("deprecated = true"));
    }
    match f.packed {
        Some(true) => opts.push(String::from_str("packed = true")),
        Some(false) => opts.push(String::from_str("packed = false")),
        None => {},
    }
    match &f.jstype {
        Some(JsType::JsString) => opts.push(String::from_str("jstype = JS_STRING")),
        Some(JsType::JsNumber) => opts.push(String::from_str("jstype = JS_NUMBER")),
        None => {},
    }
    match &f.json_name {
        Some(j) => {
            let dflt = to_lower_camel_case(f.name.as_str());
            if !str_eq(j.as_str(), dflt.as_str()) {
                let line = String::from_str("json_name = \"").concat(j.as_str()).concat("\"");
                proof {
                    assert(line@ =~= "json_name = \""@ + j@ + "\""@);
                }
                opts.push(line);
            }
        },
        None => {},
    }
    proof {
        assert(views_of(opts@) =~= field_opts_spec(*f));
    }
    if opts.len() == 0 {
        String::new()
    } else {
        let r = String::from_str(" [").concat(join_comma(&opts).as_str()).concat("]");
        proof {
            assert(r@ =~= " ["@ + join_sep(", "@, field_opts_spec(*f)) + "]"@);
        }
        r
    }
}

/// One rendered field line: `type name = N [opts];`, with `repeated ` or
/// `map<K, V>` forms where they apply.
pub open spec fn format_field_spec(f: FieldModel) -> Seq<char> {
    match f.map_kinds {
        Some(kv) => "map<"@ + kind_type_name_spec(*kv.0) + ", "@ + kind_type_name_spec(*kv.1)
            + "> "@ + f.name@ + " = "@ + dec_str(f.number as int) + format_field_options_spec(f)
            + ";"@,
        None => (if f.repeated {
            "repeated "@
        } else {
            Seq::empty()
        }) + kind_type_name_spec(f.kind) + " "@ + f.name@ + " = "@ + dec_str(f.number as int)
            + format_field_options_spec(f) + ";"@,
    }
}

/// Render one field line.
pub fn format_field(f: &FieldModel) -> (r: String)
    ensures
        r@ == format_field_spec(*f),
{
    let num = u64_to_string(f.number as u64);
    let opts = format_field_options(f);
    match &f.map_kinds {
        Some(kv) => {
            let r = String::from_str("map<").concat(kind_to_type_name(&kv.0).as_str()).concat(
                ", ",
            ).concat(kind_to_type_name(&kv.1).as_str()).concat("> ").concat(f.name.as_str())
                .concat(" = ").concat(num.as_str()).concat(opts.as_str()).concat(";");
            proof {
                assert(r@ =~= format_field_spec(*f));
            }
            r
        },
        None => {
            let prefix = if f.repeated {
                String::from_str("repeated ")
            } else {
                String::new()
            };
            let r = prefix.concat(kind_to_type_name(&f.kind).as_str()).concat(" ").concat(
                f.name.as_str(),
            ).concat(" = ").concat(num.as_str()).concat(opts.as_str()).concat(";");
            proof {
                assert(r@ =~= format_field_spec(*f));
            }
            r
        },
    }
}

/// One rendered enum value line: `NAME = N;`.
pub open spec fn format_enum_value_spec(v: EnumValueModel) -> Seq<char> {
    v.name@ + " = "@ + dec_str_signed(v.number as int) + ";"@
}

/// Render one enum value line.
pub fn format_enum_value(v: &EnumValueModel) -> (r: String)
    ensures
        r@ == format_enum_value_spec(*v),
{
    let r = v.name.clone().concat(" = ").concat(i64_to_string(v.number as i64).as_str()).concat(
        ";",
    );
    proof {
        assert(r@ =~= format_enum_value_spec(*v));
    }
    r
}

/// One rendered method line:
/// `rpc Name ( [stream ]Input ) returns ( [stream ]Output );`, type names
/// fully qualified with a leading dot.
pub open spec fn format_method_spec(m: MethodModel) -> Seq<char> {
    "rpc "@ + m.name@ + " ( "@ + (if m.client_streaming {
        "stream "@
    } else {
        Seq::empty()
    }) + seq!['.'] + m.input_type@ + " ) returns ( "@ + (if m.server_streaming {
        "stream "@
    } else {
        Seq::empty()
    }) + seq!['.'] + m.output_type@ + " );"@
}

/// Render one method line.
pub fn format_method(m: &MethodModel) -> (r: String)
    ensures
        r@ == format_method_spec(*m),
{
    let cs = if m.client_streaming {
        "stream "
    } else {
        ""
    };
    let ss = if m.server_streaming {
        "stream "
    } else {
        ""
    };
    let r = String::from_str("rpc ").concat(m.name.as_str()).concat(" ( ").concat(cs).concat(".")
        .concat(m.input_type.as_str()).concat(" ) returns ( ").concat(ss).concat(".").concat(
        m.output_type.as_str(),
    ).concat(" );");
    proof {
        reveal_strlit("");
        reveal_strlit(".");
        assert(r@ =~= format_method_spec(*m));
    }
    r
}

/// One rendered extension line: `[repeated ]type name = N;`.
pub open spec fn format_extension_spec(x: ExtensionModel) -> Seq<char> {
    (if x.repeated {
        "repeated "@
    } else {
        Seq::empty()
    }) + kind_type_name_spec(x.kind) + " "@ + x.name@ + " = "@ + dec_str(x.number as int) + ";"@
}

/// Render one extension line.
pub fn format_extension(x: &ExtensionModel) -> (r: String)
    ensures
        r@ == format_extension_spec(*x),
{
    let prefix = if x.repeated {
        String::from_str("repeated ")
    } else {
        String::new()
    };
    let r = prefix.concat(kind_to_type_name(&x.kind).as_str()).concat(" ").concat(x.name.as_str())
        .concat(" = ").concat(u64_to_string(x.number as u64).as_str()).concat(";");
    proof {
        assert(r@ =~= format_extension_spec(*x));
    }
    r
}

/// The body lines of a block: each line of each part indented by two
/// spaces and newline-terminated.
pub open spec fn indent_rest(s: Seq<char>) -> Seq<char>
    decreases s.len(),
{
    if s.len() == 0 {
        Seq::empty()
    } else if s[0] == '\n' {
        seq!['\n', ' ', ' '] + indent_rest(s.subrange(1, s.len() as int))
    } else {
        seq![s[0]] + indent_rest(s.subrange(1, s.len() as int))
    }
}

/// A block member indented by two spaces on every line, newline
/// terminated. Empty text stays empty.
pub open spec fn indent_block(s: Seq<char>) -> Seq<char> {
    if s.len() == 0 {
        Seq::empty()
    } else {
        seq![' ', ' '] + indent_rest(s) + seq!['\n']
    }
}

fn indent_rest_exec(s: &str) -> (r: String)
    ensures
        r@ == indent_rest(s@),
    decreases s@.len(),
{
    let n = s.unicode_len();
    if n == 0 {
        return String::new();
    }
    let c = s.get_char(0);
    let rest = indent_rest_exec(s.substring_char(1, n));
    if c == '\n' {
        let r = String::from_str("\n  ").concat(rest.as_str());
        proof {
            reveal_strlit("\n  ");
            assert(r@ =~= seq!['\n', ' ', ' '] + indent_rest(s@.subrange(1, s@.len() as int)));
        }
        r
    } else {
        let mut r = char_string(c);
        r.append(rest.as_str());
        proof {
            assert(r@ =~= seq![s@[0]] + indent_rest(s@.subrange(1, s@.len() as int)));
        }
        r
    }
}

/// Indent a block member by two spaces on every line and terminate it
/// with a newline.
fn indent_block_exec(s: &str) -> (r: String)
    ensures
        r@ == indent_block(s@),
{
    let n = s.unicode_len();
    if n == 0 {
        return String::new();
    }
    let r = String::from_str("  ").concat(indent_rest_exec(s).as_str()).concat("\n");
    proof {
        reveal_strlit("  ");
        reveal_strlit("\n");
        assert(r@ =~= seq![' ', ' '] + indent_rest(s@) + seq!['\n']);
    }
    r
}

/// The key/text views of rendered entries.
pub open spec fn entry_views(s: Seq<(i64, String)>) -> Seq<(int, Seq<char>)> {
    s.map_values(|e: (i64, String)| (e.0 as int, e.1@))
}

/// `x` inserted before the first entry with a strictly greater key, so
/// the sort is stable.
pub open spec fn insert_pair_sorted(sorted: Seq<(int, Seq<char>)>, x: (int, Seq<char>)) -> Seq<
    (int, Seq<char>),
>
    decreases sorted.len(),
{
    if sorted.len() == 0 {
        seq![x]
    } else if x.0 < sorted[0].0 {
        seq![x] + sorted
    } else {
        seq![sorted[0]] + insert_pair_sorted(sorted.subrange(1, sorted.len() as int), x)
    }
}

/// Stable insertion sort of entries by key.
pub open spec fn sort_pairs_spec(s: Seq<(int, Seq<char>)>) -> Seq<(int, Seq<char>)>
    decreases s.len(),
{
    if s.len() == 0 {
        Seq::empty()
    } else {
        insert_pair_sorted(sort_pairs_spec(s.subrange(0, s.len() - 1)), s[s.len() - 1])
    }
}

proof fn lemma_insert_pair_sorted_at(sorted: Seq<(int, Seq<char>)>, x: (int, Seq<char>), p: int)
    requires
        0 <= p <= sorted.len(),
        forall|j: int| 0 <= j < p ==> !(x.0 < (#[trigger] sorted[j]).0),
        p < sorted.len() ==> x.0 < sorted[p].0,
    ensures
        insert_pair_sorted(sorted, x) == sorted.subrange(0, p) + seq![x] + sorted.subrange(
            p,
            sorted.len() as int,
        ),
    decreases sorted.len(),
{
    if sorted.len() == 0 {
        assert(insert_pair_sorted(sorted, x) =~= sorted.subrange(0, p) + seq![x]
            + sorted.subrange(p, sorted.len() as int));
    } else if x.0 < sorted[0].0 {
        assert(p == 0);
        assert(insert_pair_sorted(sorted, x) =~= sorted.subrange(0, p) + seq![x]
            + sorted.subrange(p, sorted.len() as int));
    } else {
        assert(p >= 1);
        let t = sorted.subrange(1, sorted.len() as int);
        assert forall|j: int| 0 <= j < p - 1 implies !(x.0 < (#[trigger] t[j]).0) by {
            assert(t[j] == sorted[j + 1]);
        }
        assert(p - 1 < t.len() ==> t[p - 1] == sorted[p]);
        lemma_insert_pair_sorted_at(t, x, p - 1);
        assert(insert_pair_sorted(sorted, x) =~= sorted.subrange(0, p) + seq![x]
            + sorted.subrange(p, sorted.len() as int));
    }
}

/// Sort entries by key (stable).
fn sort_entries(v: Vec<(i64, String)>) -> (r: Vec<(i64, String)>)
    ensures
        entry_views(r@) == sort_pairs_spec(entry_views(v@)),
{
    let mut out: Vec<(i64, String)> = Vec::new();
    let mut i: usize = 0;
    proof {
        assert(entry_views(v@).subrange(0, 0) =~= entry_views(v@.subrange(0, 0)));
        assert(entry_views(out@) =~= sort_pairs_spec(entry_views(v@).subrange(0, 0)));
    }
    while i < v.len()
        invariant
            0 <= i <= v@.len(),
            entry_views(out@) == sort_pairs_spec(entry_views(v@).subrange(0, i as int)),
        decreases v@.len() - i,
    {
        let x: (i64, String) = (v[i].0, v[i].1.clone());
        let mut p: usize = 0;
        while p < out.len() && !(x.0 < out[p].0)
            invariant
                0 <= p <= out@.len(),
                forall|j: int|
                    0 <= j < p ==> !((x.0 as int) < (#[trigger] entry_views(out@)[j]).0),
        decreases out@.len() - p,
        {
            p = p + 1;
        }
        proof {
            lemma_insert_pair_sorted_at(entry_views(out@), (x.0 as int, x.1@), p as int);
        }
        let ghost prev = out@;
        out.insert(p, x);
        proof {
            assert(entry_views(out@) =~= entry_views(prev).subrange(0, p as int) + seq![
                (x.0 as int, x.1@),
            ] + entry_views(prev).subrange(p as int, prev.len() as int));
            assert(entry_views(v@).subrange(0, i + 1).subrange(0, i as int) =~= entry_views(
                v@,
            ).subrange(0, i as int));
            assert(entry_views(v@).subrange(0, i + 1)[i as int] == (v@[i as int].0 as int, v@[i as int].1@));
            assert(entry_views(out@) =~= sort_pairs_spec(entry_views(v@).subrange(0, i + 1)));
        }
        i = i + 1;
    }
    proof {
        assert(entry_views(v@).subrange(0, v@.len() as int) =~= entry_views(v@));
    }
    out
}

/// The entry texts in order, each indented as a block member.
pub open spec fn pairs_body(entries: Seq<(int, Seq<char>)>) -> Seq<char>
    decreases entries.len(),
{
    if entries.len() == 0 {
        Seq::empty()
    } else {
        pairs_body(entries.subrange(0, entries.len() - 1)) + indent_block(
            entries[entries.len() - 1].1,
        )
    }
}

/// Render the entry texts in order, each indented as a block member.
fn pairs_body_exec(entries: &Vec<(i64, String)>) -> (r: String)
    ensures
        r@ == pairs_body(entry_views(entries@)),
{
    let mut out = String::new();
    let mut i: usize = 0;
    proof {
        assert(entry_views(entries@).subrange(0, 0) =~= Seq::<(int, Seq<char>)>::empty());
    }
    while i < entries.len()
        invariant
            0 <= i <= entries@.len(),
            out@ == pairs_body(entry_views(entries@).subrange(0, i as int)),
        decreases entries@.len() - i,
    {
        out = out.concat(indent_block_exec(entries[i].1.as_str()).as_str());
        proof {
            let pre = entry_views(entries@).subrange(0, i + 1);
            assert(pre.subrange(0, i as int) =~= entry_views(entries@).subrange(0, i as int));
            assert(pre[i as int] == entry_views(entries@)[i as int]);
            assert(out@ =~= pairs_body(pre));
        }
        i = i + 1;
    }
    proof {
        assert(entry_views(entries@).subrange(0, entries@.len() as int) =~= entry_views(
            entries@,
        ));
    }
    out
}

/// The line texts in order, each indented as a block member.
pub open spec fn lines_body(lines: Seq<Seq<char>>) -> Seq<char>
    decreases lines.len(),
{
    if lines.len() == 0 {
        Seq::empty()
    } else {
        lines_body(lines.subrange(0, lines.len() - 1)) + indent_block(lines[lines.len() - 1])
    }
}

/// Render the line texts in order, each indented as a block member.
fn lines_body_exec(lines: &Vec<String>) -> (r: String)
    ensures
        r@ == lines_body(views_of(lines@)),
{
    let mut out = String::new();
    let mut i: usize = 0;
    proof {
        assert(views_of(lines@).subrange(0, 0) =~= Seq::<Seq<char>>::empty());
    }
    while i < lines.len()
        invariant
            0 <= i <= lines@.len(),
            out@ == lines_body(views_of(lines@).subrange(0, i as int)),
        decreases lines@.len() - i,
    {
        out = out.concat(indent_block_exec(lines[i].as_str()).as_str());
        proof {
            let pre = views_of(lines@).subrange(0, i + 1);
            assert(pre.subrange(0, i as int) =~= views_of(lines@).subrange(0, i as int));
            assert(pre[i as int] == views_of(lines@)[i as int]);
            assert(out@ =~= lines_body(pre));
        }
        i = i + 1;
    }
    proof {
        assert(views_of(lines@).subrange(0, lines@.len() as int) =~= views_of(lines@));
    }
    out
}

/// The fields belonging to the one-of at `idx`, in declaration order,
/// among the first `n` fields.
pub open spec fn oneof_fields_upto(fields: Seq<FieldModel>, idx: int, n: int) -> Seq<FieldModel>
    decreases n,
{
    if n <= 0 {
        Seq::empty()
    } else {
        oneof_fields_upto(fields, idx, n - 1) + (if (match fields[n - 1].oneof_index {
            Some(v) => v as int == idx,
            None => false,
        }) {
            seq![fields[n - 1]]
        } else {
            Seq::empty()
        })
    }
}

/// The fields belonging to the one-of at `idx`, in declaration order.
pub open spec fn fields_of_oneof(fields: Seq<FieldModel>, idx: int) -> Seq<FieldModel> {
    oneof_fields_upto(fields, idx, fields.len() as int)
}

/// Whether the one-of at `idx` is synthetic: a single member field marked
/// proto3 optional.
pub open spec fn is_synthetic_oneof_spec(m: MessageModel, idx: int) -> bool {
    fields_of_oneof(m.fields@, idx).len() == 1 && fields_of_oneof(m.fields@, idx)[0].proto3_optional
}

/// The smallest field number among `fields`, or the largest u32 when
/// there is none.
pub open spec fn min_field_number(fields: Seq<FieldModel>) -> int
    decreases fields.len(),
{
    if fields.len() == 0 {
        4294967295
    } else {
        let rest = min_field_number(fields.subrange(1, fields.len() as int));
        if fields[0].number as int <= rest {
            fields[0].number as int
        } else {
            rest
        }
    }
}

/// The rendered key/text entries of the member fields of a one-of, in
/// declaration order.
pub open spec fn oneof_field_entries(fields: Seq<FieldModel>, n: int) -> Seq<(int, Seq<char>)>
    decreases n,
{
    if n <= 0 {
        Seq::empty()
    } else {
        oneof_field_entries(fields, n - 1) + seq![
            (fields[n - 1].number as int, format_field_spec(fields[n - 1])),
        ]
    }
}

/// One rendered one-of block: `oneof Name { ... }` with its member fields
/// sorted by number.
pub open spec fn format_oneof_spec(m: MessageModel, idx: int) -> Seq<char> {
    let members = fields_of_oneof(m.fields@, idx);
    "oneof "@ + m.oneofs@[idx].name@ + " {\n"@ + pairs_body(
        sort_pairs_spec(oneof_field_entries(members, members.len() as int)),
    ) + "}"@
}

/// Collect the member fields of the one-of at `idx`.
fn collect_oneof_fields<'a>(m: &'a MessageModel, idx: usize) -> (r: Vec<&'a FieldModel>)
    ensures
        r@.len() == fields_of_oneof(m.fields@, idx as int).len(),
        forall|k: int|
            0 <= k < r@.len() ==> *(#[trigger] r@[k]) == fields_of_oneof(m.fields@, idx as int)[k],
{
    let mut out: Vec<&FieldModel> = Vec::new();
    let mut i: usize = 0;
    while i < m.fields.len()
        invariant
            0 <= i <= m.fields@.len(),
            out@.len() == oneof_fields_upto(m.fields@, idx as int, i as int).len(),
            forall|k: int|
                0 <= k < out@.len() ==> *(#[trigger] out@[k]) == oneof_fields_upto(
                    m.fields@,
                    idx as int,
                    i as int,
                )[k],
        decreases m.fields@.len() - i,
    {
        let take = match &m.fields[i].oneof_index {
            Some(v) => *v as usize == idx,
            None => false,
        };
        if take {
            out.push(&m.fields[i]);
        }
        i = i + 1;
    }
    out
}

/// Render a one-of block: the one-of at `idx` in `m`, its member fields
/// sorted by number.
pub fn format_oneof(m: &MessageModel, idx: usize) -> (r: String)
    requires
        idx < m.oneofs@.len(),
    ensures
        r@ == format_oneof_spec(*m, idx as int),
{
    let members = collect_oneof_fields(m, idx);
    let ghost mem_spec = fields_of_oneof(m.fields@, idx as int);
    let mut entries: Vec<(i64, String)> = Vec::new();
    let mut k: usize = 0;
    proof {
        assert(entry_views(entries@) =~= oneof_field_entries(mem_spec, 0));
    }
    while k < members.len()
        invariant
            0 <= k <= members@.len(),
            members@.len() == mem_spec.len(),
            forall|j: int| 0 <= j < members@.len() ==> *(#[trigger] members@[j]) == mem_spec[j],
            entry_views(entries@) == oneof_field_entries(mem_spec, k as int),
        decreases members@.len() - k,
    {
        let f: &FieldModel = members[k];
        let text = format_field(f);
        let ghost prev = entries@;
        entries.push((f.number as i64, text));
        proof {
            assert(entry_views(entries@) =~= entry_views(prev).push(
                (mem_spec[k as int].number as int, format_field_spec(mem_spec[k as int])),
            ));
            assert(entry_views(entries@) =~= oneof_field_entries(mem_spec, k as int + 1));
        }
        k = k + 1;
    }
    let sorted = sort_entries(entries);
    let body = pairs_body_exec(&sorted);
    let r = String::from_str("oneof ").concat(m.oneofs[idx].name.as_str()).concat(" {\n").concat(
        body.as_str(),
    ).concat("}");
    proof {
        assert(r@ =~= format_oneof_spec(*m, idx as int));
    }
    r
}

/// The rendered key/text entries of an enum's values.
pub open spec fn enum_value_entries(values: Seq<EnumValueModel>, n: int) -> Seq<(int, Seq<char>)>
    decreases n,
{
    if n <= 0 {
        Seq::empty()
    } else {
        enum_value_entries(values, n - 1) + seq![
            (values[n - 1].number as int, format_enum_value_spec(values[n - 1])),
        ]
    }
}

/// One rendered enum block: `enum Name { ... }` with its values sorted by
/// number.
pub open spec fn format_enum_spec(e: EnumModel) -> Seq<char> {
    "enum "@ + e.name@ + " {\n"@ + pairs_body(
        sort_pairs_spec(enum_value_entries(e.values@, e.values@.len() as int)),
    ) + "}"@
}

/// Render an enum block, values sorted by number.
pub fn format_enum(e: &EnumModel) -> (r: String)
    ensures
        r@ == format_enum_spec(*e),
{
    let mut entries: Vec<(i64, String)> = Vec::new();
    let mut k: usize = 0;
    proof {
        assert(entry_views(entries@) =~= enum_value_entries(e.values@, 0));
    }
    while k < e.values.len()
        invariant
            0 <= k <= e.values@.len(),
            entry_views(entries@) == enum_value_entries(e.values@, k as int),
        decreases e.values@.len() - k,
    {
        let text = format_enum_value(&e.values[k]);
        let ghost prev = entries@;
        entries.push((e.values[k].number as i64, text));
        proof {
            assert(entry_views(entries@) =~= entry_views(prev).push(
                (e.values@[k as int].number as int, format_enum_value_spec(e.values@[k as int])),
            ));
            assert(entry_views(entries@) =~= enum_value_entries(e.values@, k as int + 1));
        }
        k = k + 1;
    }
    let sorted = sort_entries(entries);
    let body = pairs_body_exec(&sorted);
    let r = String::from_str("enum ").concat(e.name.as_str()).concat(" {\n").concat(body.as_str())
        .concat("}");
    proof {
        assert(r@ =~= format_enum_spec(*e));
    }
    r
}

/// The rendered method lines of a service, in declaration order.
pub open spec fn method_lines(methods: Seq<MethodModel>, n: int) -> Seq<Seq<char>>
    decreases n,
{
    if n <= 0 {
        Seq::empty()
    } else {
        method_lines(methods, n - 1) + seq![format_method_spec(methods[n - 1])]
    }
}

/// One rendered service block: `service Name { ... }` with its method
/// lines sorted; since each line is `rpc <name> ...`, sorting the lines
/// sorts the methods alphabetically by name.
pub open spec fn format_service_spec(s: ServiceModel) -> Seq<char> {
    "service "@ + s.name@ + " {\n"@ + lines_body(
        sort_lines_spec(method_lines(s.methods@, s.methods@.len() as int)),
    ) + "}"@
}

/// Render a service block, methods sorted alphabetically by name.
pub fn format_service(s: &ServiceModel) -> (r: String)
    ensures
        r@ == format_service_spec(*s),
{
    let mut lines: Vec<String> = Vec::new();
    let mut k: usize = 0;
    proof {
        assert(views_of(lines@) =~= method_lines(s.methods@, 0));
    }
    while k < s.methods.len()
        invariant
            0 <= k <= s.methods@.len(),
            views_of(lines@) == method_lines(s.methods@, k as int),
        decreases s.methods@.len() - k,
    {
        let ghost prev = lines@;
        lines.push(format_method(&s.methods[k]));
        proof {
            assert(views_of(lines@) =~= views_of(prev).push(
                format_method_spec(s.methods@[k as int]),
            ));
            assert(views_of(lines@) =~= method_lines(s.methods@, k as int + 1));
        }
        k = k + 1;
    }
    let sorted = sort_strings(&lines);
    let body = lines_body_exec(&sorted);
    let r = String::from_str("service ").concat(s.name.as_str()).concat(" {\n").concat(
        body.as_str(),
    ).concat("}");
    proof {
        assert(r@ =~= format_service_spec(*s));
    }
    r
}

/// One rendered reserved range: a single number, `N to M`, or `N to max`
/// when the range reaches the field-number ceiling.
pub open spec fn reserved_range_str(r: (i32, i32)) -> Seq<char> {
    let start = r.0 as int;
    let endi = r.1 as int - 1;
    if start == endi {
        dec_str_signed(start)
    } else if endi == 2147483646 || endi >= 536870911 {
        dec_str_signed(start) + " to max"@
    } else {
        dec_str_signed(start) + " to "@ + dec_str_signed(endi)
    }
}

/// The rendered reserved range strings, in order.
pub open spec fn reserved_range_strs(ranges: Seq<(i32, i32)>, n: int) -> Seq<Seq<char>>
    decreases n,
{
    if n <= 0 {
        Seq::empty()
    } else {
        reserved_range_strs(ranges, n - 1) + seq![reserved_range_str(ranges[n - 1])]
    }
}

/// The quoted reserved names, in order.
pub open spec fn quoted_names(names: Seq<String>, n: int) -> Seq<Seq<char>>
    decreases n,
{
    if n <= 0 {
        Seq::empty()
    } else {
        quoted_names(names, n - 1) + seq![seq!['"'] + names[n - 1]@ + seq!['"']]
    }
}

/// The `reserved ...;` lines of a message: ranges first, then names.
pub open spec fn reserved_lines_spec(m: MessageModel) -> Seq<Seq<char>> {
    (if m.reserved_ranges@.len() > 0 {
        seq![
            "reserved "@ + join_sep(
                ", "@,
                reserved_range_strs(m.reserved_ranges@, m.reserved_ranges@.len() as int),
            ) + ";"@,
        ]
    } else {
        Seq::empty()
    }) + (if m.reserved_names@.len() > 0 {
        seq![
            "reserved "@ + join_sep(
                ", "@,
                quoted_names(m.reserved_names@, m.reserved_names@.len() as int),
            ) + ";"@,
        ]
    } else {
        Seq::empty()
    })
}

/// Render the `reserved` lines of a message.
pub fn format_reserved_ranges(m: &MessageModel) -> (r: Vec<String>)
    ensures
        views_of(r@) == reserved_lines_spec(*m),
{
    let mut lines: Vec<String> = Vec::new();
    if m.reserved_ranges.len() > 0 {
        let mut parts: Vec<String> = Vec::new();
        let mut k: usize = 0;
        proof {
            assert(views_of(parts@) =~= reserved_range_strs(m.reserved_ranges@, 0));
        }
        while k < m.reserved_ranges.len()
            invariant
                0 <= k <= m.reserved_ranges@.len(),
                views_of(parts@) == reserved_range_strs(m.reserved_ranges@, k as int),
            decreases m.reserved_ranges@.len() - k,
        {
            let start: i64 = m.reserved_ranges[k].0 as i64;
            let endi: i64 = m.reserved_ranges[k].1 as i64 - 1;
            let text: String;
            if start == endi {
                text = i64_to_string(start);
            } else if endi == 2147483646 || endi >= 536870911 {
                text = i64_to_string(start).concat(" to max");
            } else {
                text = i64_to_string(start).concat(" to ").concat(i64_to_string(endi).as_str());
            }
            let ghost prev = parts@;
            parts.push(text);
            proof {
                assert(views_of(parts@) =~= views_of(prev).push(
                    reserved_range_str(m.reserved_ranges@[k as int]),
                ));
                assert(views_of(parts@) =~= reserved_range_strs(
                    m.reserved_ranges@,
                    k as int + 1,
                ));
            }
            k = k + 1;
        }
        let line = String::from_str("reserved ").concat(join_comma(&parts).as_str()).concat(";");
        lines.push(line);
    }
    if m.reserved_names.len() > 0 {
        let mut parts: Vec<String> = Vec::new();
        let mut k: usize = 0;
        proof {
            assert(views_of(parts@) =~= quoted_names(m.reserved_names@, 0));
        }
        while k < m.reserved_names.len()
            invariant
                0 <= k <= m.reserved_names@.len(),
                views_of(parts@) == quoted_names(m.reserved_names@, k as int),
            decreases m.reserved_names@.len() - k,
        {
            let q = String::from_str("\"").concat(m.reserved_names[k].as_str()).concat("\"");
            let ghost prev = parts@;
            proof {
                reveal_strlit("\"");
                assert(q@ =~= seq!['"'] + m.reserved_names@[k as int]@ + seq!['"']);
            }
            parts.push(q);
            proof {
                assert(views_of(parts@) =~= views_of(prev).push(
                    seq!['"'] + m.reserved_names@[k as int]@ + seq!['"'],
                ));
                assert(views_of(parts@) =~= quoted_names(m.reserved_names@, k as int + 1));
            }
            k = k + 1;
        }
        let line = String::from_str("reserved ").concat(join_comma(&parts).as_str()).concat(";");
        lines.push(line);
    }
    proof {
        assert(views_of(lines@) =~= reserved_lines_spec(*m));
    }
    lines
}

/// Whether a field is rendered as a plain entry: it belongs to no one-of,
/// or only to a synthetic one.
pub open spec fn plain_field(m: MessageModel, f: FieldModel) -> bool {
    match f.oneof_index {
        Some(v) => is_synthetic_oneof_spec(m, v as int),
        None => true,
    }
}

/// The plain field entries of a message, in declaration order.
pub open spec fn plain_field_entries(m: MessageModel, n: int) -> Seq<(int, Seq<char>)>
    decreases n,
{
    if n <= 0 {
        Seq::empty()
    } else {
        plain_field_entries(m, n - 1) + (if plain_field(m, m.fields@[n - 1]) {
            seq![(m.fields@[n - 1].number as int, format_field_spec(m.fields@[n - 1]))]
        } else {
            Seq::empty()
        })
    }
}

/// The one-of block entries of a message, in declaration order, keyed by
/// each one-of's smallest member field number.
pub open spec fn oneof_entries(m: MessageModel, n: int) -> Seq<(int, Seq<char>)>
    decreases n,
{
    if n <= 0 {
        Seq::empty()
    } else {
        oneof_entries(m, n - 1) + (if !is_synthetic_oneof_spec(m, n - 1) {
            seq![
                (min_field_number(fields_of_oneof(m.fields@, n - 1)), format_oneof_spec(m, n - 1)),
            ]
        } else {
            Seq::empty()
        })
    }
}

/// One rendered message block: `message Name { ... }` with reserved lines
/// first, then fields and one-of blocks sorted by field number.
pub open spec fn format_message_spec(m: MessageModel) -> Seq<char> {
    "message "@ + m.name@ + " {\n"@ + lines_body(reserved_lines_spec(m)) + pairs_body(
        sort_pairs_spec(
            plain_field_entries(m, m.fields@.len() as int) + oneof_entries(
                m,
                m.oneofs@.len() as int,
            ),
        ),
    ) + "}"@
}

/// Whether the one-of at `idx` is synthetic (a proto3 optional field).
fn is_synthetic_oneof(m: &MessageModel, idx: usize) -> (r: bool)
    ensures
        r == is_synthetic_oneof_spec(*m, idx as int),
{
    let members = collect_oneof_fields(m, idx);
    members.len() == 1 && members[0].proto3_optional
}

/// The smallest field number among the collected members.
fn min_number_of(members: &Vec<&FieldModel>, ghost_fields: Ghost<Seq<FieldModel>>) -> (r: i64)
    requires
        members@.len() == ghost_fields@.len(),
        forall|k: int| 0 <= k < members@.len() ==> *(#[trigger] members@[k]) == ghost_fields@[k],
    ensures
        r as int == min_field_number(ghost_fields@),
{
    let mut best: i64 = 4294967295i64;
    let mut k: usize = members.len();
    while k > 0
        invariant
            0 <= k <= members@.len(),
            members@.len() == ghost_fields@.len(),
            forall|j: int| 0 <= j < members@.len() ==> *(#[trigger] members@[j]) == ghost_fields@[j],
            best as int == min_field_number(
                ghost_fields@.subrange(k as int, ghost_fields@.len() as int),
            ),
        decreases k,
    {
        k = k - 1;
        let num: i64 = members[k].number as i64;
        if num <= best {
            best = num;
        }
        proof {
            let suffix = ghost_fields@.subrange(k as int, ghost_fields@.len() as int);
            assert(suffix[0] == ghost_fields@[k as int]);
            assert(suffix.subrange(1, suffix.len() as int) =~= ghost_fields@.subrange(
                k as int + 1,
                ghost_fields@.len() as int,
            ));
        }
    }
    proof {
        assert(ghost_fields@.subrange(0, ghost_fields@.len() as int) =~= ghost_fields@);
    }
    best
}

/// Render a message block: reserved lines at the top, then fields and
/// one-of blocks sorted by field number.
pub fn format_message(m: &MessageModel) -> (r: String)
    ensures
        r@ == format_message_spec(*m),
{
    let reserved = format_reserved_ranges(m);
    let mut entries: Vec<(i64, String)> = Vec::new();
    let mut k: usize = 0;
    proof {
        assert(entry_views(entries@) =~= plain_field_entries(*m, 0));
    }
    while k < m.fields.len()
        invariant
            0 <= k <= m.fields@.len(),
            entry_views(entries@) == plain_field_entries(*m, k as int),
        decreases m.fields@.len() - k,
    {
        let keep = match &m.fields[k].oneof_index {
            Some(v) => is_synthetic_oneof(m, *v as usize),
            None => true,
        };
        if keep {
            let text = format_field(&m.fields[k]);
            let ghost prev = entries@;
            entries.push((m.fields[k].number as i64, text));
            proof {
                assert(entry_views(entries@) =~= entry_views(prev).push(
                    (m.fields@[k as int].number as int, format_field_spec(m.fields@[k as int])),
                ));
            }
        }
        proof {
            assert(entry_views(entries@) =~= plain_field_entries(*m, k as int + 1));
        }
        k = k + 1;
    }
    let ghost plain_done = entry_views(entries@);
    let mut o: usize = 0;
    proof {
        assert(entry_views(entries@) =~= plain_done + oneof_entries(*m, 0));
    }
    while o < m.oneofs.len()
        invariant
            0 <= o <= m.oneofs@.len(),
            plain_done == plain_field_entries(*m, m.fields@.len() as int),
            entry_views(entries@) == plain_done + oneof_entries(*m, o as int),
        decreases m.oneofs@.len() - o,
    {
        if !is_synthetic_oneof(m, o) {
            let members = collect_oneof_fields(m, o);
            let key = min_number_of(&members, Ghost(fields_of_oneof(m.fields@, o as int)));
            let text = format_oneof(m, o);
            let ghost prev = entries@;
            entries.push((key, text));
            proof {
                assert(entry_views(entries@) =~= entry_views(prev).push(
                    (
                        min_field_number(fields_of_oneof(m.fields@, o as int)),
                        format_oneof_spec(*m, o as int),
                    ),
                ));
            }
        }
        proof {
            assert(entry_views(entries@) =~= plain_done + oneof_entries(*m, o as int + 1));
        }
        o = o + 1;
    }
    let sorted = sort_entries(entries);
    let body = pairs_body_exec(&sorted);
    let r = String::from_str("message ").concat(m.name.as_str()).concat(" {\n").concat(
        lines_body_exec(&reserved).as_str(),
    ).concat(body.as_str()).concat("}");
    proof {
        assert(r@ =~= format_message_spec(*m));
    }
    r
}

/// The index of the first one-of with this name, or the count when there
/// is none.
pub open spec fn first_oneof_idx(oneofs: Seq<OneofModel>, name: Seq<char>) -> int
    decreases oneofs.len(),
{
    if oneofs.len() == 0 {
        0
    } else if oneofs[0].name@ == name {
        0
    } else {
        1 + first_oneof_idx(oneofs.subrange(1, oneofs.len() as int), name)
    }
}

proof fn lemma_first_oneof_idx_unique(oneofs: Seq<OneofModel>, name: Seq<char>, i: int)
    requires
        0 <= i <= oneofs.len(),
        forall|j: int| 0 <= j < i ==> (#[trigger] oneofs[j]).name@ != name,
        i < oneofs.len() ==> oneofs[i].name@ == name,
    ensures
        first_oneof_idx(oneofs, name) == i,
    decreases oneofs.len(),
{
    if oneofs.len() == 0 {
    } else if oneofs[0].name@ == name {
        assert(i == 0);
    } else {
        let t = oneofs.subrange(1, oneofs.len() as int);
        assert(i >= 1);
        assert forall|j: int| 0 <= j < i - 1 implies (#[trigger] t[j]).name@ != name by {
            assert(t[j] == oneofs[j + 1]);
        }
        assert(i - 1 < t.len() ==> t[i - 1] == oneofs[i]);
        lemma_first_oneof_idx_unique(t, name, i - 1);
    }
}

/// The proto-source rendering of a resolved symbol, as shown by
/// `describe`. A file renders as empty text here.
pub fn get_descriptor_text(sym: &SymbolDescriptor) -> (r: String)
    ensures
        (match *sym {
            SymbolDescriptor::Service(_, d) => r@ == format_service_spec(*d),
            SymbolDescriptor::Method(_, d) => r@ == format_method_spec(*d),
            SymbolDescriptor::Message(_, d) => r@ == format_message_spec(*d),
            SymbolDescriptor::Enum(_, d) => r@ == format_enum_spec(*d),
            SymbolDescriptor::Field(_, d) => r@ == format_field_spec(*d),
            SymbolDescriptor::Extension(_, d) => r@ == format_extension_spec(*d),
            SymbolDescriptor::OneOf(_, m, o) => (if first_oneof_idx(m.oneofs@, o.name@)
                < m.oneofs@.len() {
                r@ == format_oneof_spec(*m, first_oneof_idx(m.oneofs@, o.name@))
            } else {
                r@ == Seq::<char>::empty()
            }),
            SymbolDescriptor::EnumValue(_, d) => r@ == format_enum_value_spec(*d),
            SymbolDescriptor::File(_) => r@ == Seq::<char>::empty(),
        }),
{
    match sym {
        SymbolDescriptor::Service(_, d) => format_service(d),
        SymbolDescriptor::Method(_, d) => format_method(d),
        SymbolDescriptor::Message(_, d) => format_message(d),
        SymbolDescriptor::Enum(_, d) => format_enum(d),
        SymbolDescriptor::Field(_, d) => format_field(d),
        SymbolDescriptor::Extension(_, d) => format_extension(d),
        SymbolDescriptor::OneOf(_, m, o) => {
            let mm: &MessageModel = *m;
            let oo: &OneofModel = *o;
            let mut idx: usize = 0;
            while idx < mm.oneofs.len()
                invariant
                    0 <= idx <= mm.oneofs@.len(),
                    *sym is OneOf,
                    (*sym)->OneOf_1 == mm,
                    (*sym)->OneOf_2 == oo,
                    forall|j: int| 0 <= j < idx ==> (#[trigger] mm.oneofs@[j]).name@ != oo.name@,
                decreases mm.oneofs@.len() - idx,
            {
                if str_eq(mm.oneofs[idx].name.as_str(), oo.name.as_str()) {
                    let r = format_oneof(mm, idx);
                    proof {
                        lemma_first_oneof_idx_unique(mm.oneofs@, oo.name@, idx as int);
                    }
                    return r;
                }
                idx = idx + 1;
            }
            proof {
                lemma_first_oneof_idx_unique(mm.oneofs@, oo.name@, mm.oneofs@.len() as int);
            }
            String::new()
        },
        SymbolDescriptor::EnumValue(_, d) => format_enum_value(d),
        SymbolDescriptor::File(_) => String::new(),
    }
}


/// The entry texts in order, each indented as a block member, with a
/// blank line between consecutive entries.
pub open spec fn pairs_body_sep(entries: Seq<(int, Seq<char>)>) -> Seq<char>
    decreases entries.len(),
{
    if entries.len() == 0 {
        Seq::empty()
    } else if entries.len() == 1 {
        indent_block(entries[0].1)
    } else {
        pairs_body_sep(entries.drop_last()) + seq!['\n'] + indent_block(
            entries[entries.len() - 1].1,
        )
    }
}

/// Render entry texts indented, blank-line separated.
fn pairs_body_sep_exec(entries: &Vec<(i64, String)>) -> (r: String)
    ensures
        r@ == pairs_body_sep(entry_views(entries@)),
{
    let mut out = String::new();
    let mut i: usize = 0;
    proof {
        assert(entry_views(entries@).subrange(0, 0) =~= Seq::<(int, Seq<char>)>::empty());
    }
    while i < entries.len()
        invariant
            0 <= i <= entries@.len(),
            out@ == pairs_body_sep(entry_views(entries@).subrange(0, i as int)),
        decreases entries@.len() - i,
    {
        if i > 0 {
            out = out.concat("\n");
        }
        out = out.concat(indent_block_exec(entries[i].1.as_str()).as_str());
        proof {
            reveal_strlit("\n");
            let pre = entry_views(entries@).subrange(0, i + 1);
            assert(pre.drop_last() =~= entry_views(entries@).subrange(0, i as int));
            assert(pre[i as int] == entry_views(entries@)[i as int]);
            assert(out@ =~= pairs_body_sep(pre));
        }
        i = i + 1;
    }
    proof {
        assert(entry_views(entries@).subrange(0, entries@.len() as int) =~= entry_views(
            entries@,
        ));
    }
    out
}

/// The line texts in order, each indented as a block member, with a blank
/// line between consecutive lines.
pub open spec fn lines_body_sep(lines: Seq<Seq<char>>) -> Seq<char>
    decreases lines.len(),
{
    if lines.len() == 0 {
        Seq::empty()
    } else if lines.len() == 1 {
        indent_block(lines[0])
    } else {
        lines_body_sep(lines.drop_last()) + seq!['\n'] + indent_block(lines[lines.len() - 1])
    }
}

/// Render line texts indented, blank-line separated.
fn lines_body_sep_exec(lines: &Vec<String>) -> (r: String)
    ensures
        r@ == lines_body_sep(views_of(lines@)),
{
    let mut out = String::new();
    let mut i: usize = 0;
    proof {
        assert(views_of(lines@).subrange(0, 0) =~= Seq::<Seq<char>>::empty());
    }
    while i < lines.len()
        invariant
            0 <= i <= lines@.len(),
            out@ == lines_body_sep(views_of(lines@).subrange(0, i as int)),
        decreases lines@.len() - i,
    {
        if i > 0 {
            out = out.concat("\n");
        }
        out = out.concat(indent_block_exec(lines[i].as_str()).as_str());
        proof {
            reveal_strlit("\n");
            let pre = views_of(lines@).subrange(0, i + 1);
            assert(pre.drop_last() =~= views_of(lines@).subrange(0, i as int));
            assert(pre[i as int] == views_of(lines@)[i as int]);
            assert(out@ =~= lines_body_sep(pre));
        }
        i = i + 1;
    }
    proof {
        assert(views_of(lines@).subrange(0, lines@.len() as int) =~= views_of(lines@));
    }
    out
}

/// The type name of a field kind for proto-file output: names in the
/// file's own package are shortened.
pub open spec fn file_kind_type_name_spec(k: FieldKind, pkg: Seq<char>) -> Seq<char> {
    match k {
        FieldKind::MessageType(n) => short_name_spec(n@, pkg),
        FieldKind::EnumType(n) => short_name_spec(n@, pkg),
        _ => kind_type_name_spec(k),
    }
}

/// The type name of a field kind for proto-file output.
pub fn file_field_type_name(k: &FieldKind, pkg: &str) -> (r: String)
    ensures
        r@ == file_kind_type_name_spec(*k, pkg@),
{
    match k {
        FieldKind::MessageType(n) => short_name(n.as_str(), pkg),
        FieldKind::EnumType(n) => short_name(n.as_str(), pkg),
        _ => kind_to_type_name(k),
    }
}

/// One field line for proto-file output: short type names.
pub open spec fn file_format_field_spec(f: FieldModel, pkg: Seq<char>) -> Seq<char> {
    match f.map_kinds {
        Some(kv) => "map<"@ + kind_type_name_spec(*kv.0) + ", "@ + file_kind_type_name_spec(
            *kv.1,
            pkg,
        ) + "> "@ + f.name@ + " = "@ + dec_str(f.number as int) + format_field_options_spec(f)
            + ";"@,
        None => (if f.repeated {
            "repeated "@
        } else {
            Seq::empty()
        }) + file_kind_type_name_spec(f.kind, pkg) + " "@ + f.name@ + " = "@ + dec_str(
            f.number as int,
        ) + format_field_options_spec(f) + ";"@,
    }
}

/// Render one field line for proto-file output.
pub fn file_format_field(f: &FieldModel, pkg: &str) -> (r: String)
    ensures
        r@ == file_format_field_spec(*f, pkg@),
{
    let num = u64_to_string(f.number as u64);
    let opts = format_field_options(f);
    match &f.map_kinds {
        Some(kv) => {
            let r = String::from_str("map<").concat(kind_to_type_name(&kv.0).as_str()).concat(
                ", ",
            ).concat(file_field_type_name(&kv.1, pkg).as_str()).concat("> ").concat(
                f.name.as_str(),
            ).concat(" = ").concat(num.as_str()).concat(opts.as_str()).concat(";");
            proof {
                assert(r@ =~= file_format_field_spec(*f, pkg@));
            }
            r
        },
        None => {
            let prefix = if f.repeated {
                String::from_str("repeated ")
            } else {
                String::new()
            };
            let r = prefix.concat(file_field_type_name(&f.kind, pkg).as_str()).concat(" ").concat(
                f.name.as_str(),
            ).concat(" = ").concat(num.as_str()).concat(opts.as_str()).concat(";");
            proof {
                assert(r@ =~= file_format_field_spec(*f, pkg@));
            }
            r
        },
    }
}

/// One method line for proto-file output: short type names.
pub open spec fn file_format_method_spec(m: MethodModel, pkg: Seq<char>) -> Seq<char> {
    "rpc "@ + m.name@ + " ( "@ + (if m.client_streaming {
        "stream "@
    } else {
        Seq::empty()
    }) + short_name_spec(m.input_type@, pkg) + " ) returns ( "@ + (if m.server_streaming {
        "stream "@
    } else {
        Seq::empty()
    }) + short_name_spec(m.output_type@, pkg) + " );"@
}

/// Render one method line for proto-file output.
pub fn file_format_method(m: &MethodModel, pkg: &str) -> (r: String)
    ensures
        r@ == file_format_method_spec(*m, pkg@),
{
    let cs = if m.client_streaming {
        "stream "
    } else {
        ""
    };
    let ss = if m.server_streaming {
        "stream "
    } else {
        ""
    };
    let r = String::from_str("rpc ").concat(m.name.as_str()).concat(" ( ").concat(cs).concat(
        short_name(m.input_type.as_str(), pkg).as_str(),
    ).concat(" ) returns ( ").concat(ss).concat(
        short_name(m.output_type.as_str(), pkg).as_str(),
    ).concat(" );");
    proof {
        reveal_strlit("");
        assert(r@ =~= file_format_method_spec(*m, pkg@));
    }
    r
}

/// The method lines of a service for proto-file output, declaration
/// order.
pub open spec fn file_method_lines(methods: Seq<MethodModel>, pkg: Seq<char>, n: int) -> Seq<
    Seq<char>,
>
    decreases n,
{
    if n <= 0 {
        Seq::empty()
    } else {
        file_method_lines(methods, pkg, n - 1) + seq![file_format_method_spec(methods[n - 1], pkg)]
    }
}

/// One service block for proto-file output: methods in declaration order,
/// blank lines between them.
pub open spec fn file_format_service_spec(s: ServiceModel, pkg: Seq<char>) -> Seq<char> {
    "service "@ + s.name@ + " {\n"@ + lines_body_sep(
        file_method_lines(s.methods@, pkg, s.methods@.len() as int),
    ) + "}"@
}

/// Render a service block for proto-file output.
pub fn file_format_service(s: &ServiceModel, pkg: &str) -> (r: String)
    ensures
        r@ == file_format_service_spec(*s, pkg@),
{
    let mut lines: Vec<String> = Vec::new();
    let mut k: usize = 0;
    proof {
        assert(views_of(lines@) =~= file_method_lines(s.methods@, pkg@, 0));
    }
    while k < s.methods.len()
        invariant
            0 <= k <= s.methods@.len(),
            views_of(lines@) == file_method_lines(s.methods@, pkg@, k as int),
        decreases s.methods@.len() - k,
    {
        let ghost prev = lines@;
        lines.push(file_format_method(&s.methods[k], pkg));
        proof {
            assert(views_of(lines@) =~= views_of(prev).push(
                file_format_method_spec(s.methods@[k as int], pkg@),
            ));
            assert(views_of(lines@) =~= file_method_lines(s.methods@, pkg@, k as int + 1));
        }
        k = k + 1;
    }
    let body = lines_body_sep_exec(&lines);
    let r = String::from_str("service ").concat(s.name.as_str()).concat(" {\n").concat(
        body.as_str(),
    ).concat("}");
    proof {
        assert(r@ =~= file_format_service_spec(*s, pkg@));
    }
    r
}

/// One enum block for proto-file output: values sorted by number, blank
/// lines between them.
pub open spec fn file_format_enum_spec(e: EnumModel) -> Seq<char> {
    "enum "@ + e.name@ + " {\n"@ + pairs_body_sep(
        sort_pairs_spec(enum_value_entries(e.values@, e.values@.len() as int)),
    ) + "}"@
}

/// Render an enum block for proto-file output.
pub fn file_format_enum(e: &EnumModel) -> (r: String)
    ensures
        r@ == file_format_enum_spec(*e),
{
    let mut entries: Vec<(i64, String)> = Vec::new();
    let mut k: usize = 0;
    proof {
        assert(entry_views(entries@) =~= enum_value_entries(e.values@, 0));
    }
    while k < e.values.len()
        invariant
            0 <= k <= e.values@.len(),
            entry_views(entries@) == enum_value_entries(e.values@, k as int),
        decreases e.values@.len() - k,
    {
        let text = format_enum_value(&e.values[k]);
        let ghost prev = entries@;
        entries.push((e.values[k].number as i64, text));
        proof {
            assert(entry_views(entries@) =~= entry_views(prev).push(
                (e.values@[k as int].number as int, format_enum_value_spec(e.values@[k as int])),
            ));
            assert(entry_views(entries@) =~= enum_value_entries(e.values@, k as int + 1));
        }
        k = k + 1;
    }
    let sorted = sort_entries(entries);
    let body = pairs_body_sep_exec(&sorted);
    let r = String::from_str("enum ").concat(e.name.as_str()).concat(" {\n").concat(body.as_str())
        .concat("}");
    proof {
        assert(r@ =~= file_format_enum_spec(*e));
    }
    r
}

/// The fields of the one-of at `idx` rendered for proto-file output.
pub open spec fn file_oneof_field_entries(fields: Seq<FieldModel>, pkg: Seq<char>, n: int) -> Seq<
    (int, Seq<char>),
>
    decreases n,
{
    if n <= 0 {
        Seq::empty()
    } else {
        file_oneof_field_entries(fields, pkg, n - 1) + seq![
            (fields[n - 1].number as int, file_format_field_spec(fields[n - 1], pkg)),
        ]
    }
}

/// One one-of block for proto-file output: member fields sorted by
/// number, short type names.
pub open spec fn file_format_oneof_spec(m: MessageModel, idx: int, pkg: Seq<char>) -> Seq<char> {
    let members = fields_of_oneof(m.fields@, idx);
    "oneof "@ + m.oneofs@[idx].name@ + " {\n"@ + pairs_body(
        sort_pairs_spec(file_oneof_field_entries(members, pkg, members.len() as int)),
    ) + "}"@
}

/// Render a one-of block for proto-file output.
pub fn file_format_oneof(m: &MessageModel, idx: usize, pkg: &str) -> (r: String)
    requires
        idx < m.oneofs@.len(),
    ensures
        r@ == file_format_oneof_spec(*m, idx as int, pkg@),
{
    let members = collect_oneof_fields(m, idx);
    let ghost mem_spec = fields_of_oneof(m.fields@, idx as int);
    let mut entries: Vec<(i64, String)> = Vec::new();
    let mut k: usize = 0;
    proof {
        assert(entry_views(entries@) =~= file_oneof_field_entries(mem_spec, pkg@, 0));
    }
    while k < members.len()
        invariant
            0 <= k <= members@.len(),
            members@.len() == mem_spec.len(),
            forall|j: int| 0 <= j < members@.len() ==> *(#[trigger] members@[j]) == mem_spec[j],
            entry_views(entries@) == file_oneof_field_entries(mem_spec, pkg@, k as int),
        decreases members@.len() - k,
    {
        let f: &FieldModel = members[k];
        let text = file_format_field(f, pkg);
        let ghost prev = entries@;
        entries.push((f.number as i64, text));
        proof {
            assert(entry_views(entries@) =~= entry_views(prev).push(
                (mem_spec[k as int].number as int, file_format_field_spec(
                    mem_spec[k as int],
                    pkg@,
                )),
            ));
            assert(entry_views(entries@) =~= file_oneof_field_entries(
                mem_spec,
                pkg@,
                k as int + 1,
            ));
        }
        k = k + 1;
    }
    let sorted = sort_entries(entries);
    let body = pairs_body_exec(&sorted);
    let r = String::from_str("oneof ").concat(m.oneofs[idx].name.as_str()).concat(" {\n").concat(
        body.as_str(),
    ).concat("}");
    proof {
        assert(r@ =~= file_format_oneof_spec(*m, idx as int, pkg@));
    }
    r
}


/// The plain field entries of a message for proto-file output.
pub open spec fn file_plain_field_entries(m: MessageModel, pkg: Seq<char>, n: int) -> Seq<
    (int, Seq<char>),
>
    decreases n,
{
    if n <= 0 {
        Seq::empty()
    } else {
        file_plain_field_entries(m, pkg, n - 1) + (if plain_field(m, m.fields@[n - 1]) {
            seq![(m.fields@[n - 1].number as int, file_format_field_spec(m.fields@[n - 1], pkg))]
        } else {
            Seq::empty()
        })
    }
}

/// The one-of block entries of a message for proto-file output.
pub open spec fn file_oneof_entries(m: MessageModel, pkg: Seq<char>, n: int) -> Seq<
    (int, Seq<char>),
>
    decreases n,
{
    if n <= 0 {
        Seq::empty()
    } else {
        file_oneof_entries(m, pkg, n - 1) + (if !is_synthetic_oneof_spec(m, n - 1) {
            seq![
                (
                    min_field_number(fields_of_oneof(m.fields@, n - 1)),
                    file_format_oneof_spec(m, n - 1, pkg),
                ),
            ]
        } else {
            Seq::empty()
        })
    }
}

/// The value of a number as descriptors order enum values: the unsigned
/// reading of its 32 bits.
pub open spec fn u32_order_of(n: int) -> int {
    if n < 0 {
        n + 4294967296
    } else {
        n
    }
}

/// The smallest value number of an enum in unsigned order, or the largest
/// u32 when it has none.
pub open spec fn min_enum_number(values: Seq<EnumValueModel>) -> int
    decreases values.len(),
{
    if values.len() == 0 {
        4294967295
    } else {
        let rest = min_enum_number(values.subrange(1, values.len() as int));
        if u32_order_of(values[0].number as int) <= rest {
            u32_order_of(values[0].number as int)
        } else {
            rest
        }
    }
}

/// The nested enum entries of a message for proto-file output, keyed by
/// each enum's smallest value number.
pub open spec fn file_nested_enum_entries(m: MessageModel, n: int) -> Seq<(int, Seq<char>)>
    decreases n,
{
    if n <= 0 {
        Seq::empty()
    } else {
        file_nested_enum_entries(m, n - 1) + seq![
            (
                min_enum_number(m.nested_enums@[n - 1].values@),
                file_format_enum_spec(m.nested_enums@[n - 1]),
            ),
        ]
    }
}

/// One message block for proto-file output: fields, one-of blocks, nested
/// messages (map entry types skipped) and nested enums, sorted by field
/// number, blank lines between entries, short type names.
pub open spec fn file_format_message_spec(m: MessageModel, pkg: Seq<char>) -> Seq<char>
    decreases m, 1int, 0int,
{
    "message "@ + m.name@ + " {\n"@ + pairs_body_sep(
        sort_pairs_spec(
            file_plain_field_entries(m, pkg, m.fields@.len() as int) + file_oneof_entries(
                m,
                pkg,
                m.oneofs@.len() as int,
            ) + file_nested_msg_entries(m.nested_messages@, pkg, m.nested_messages@.len() as int)
                + file_nested_enum_entries(m, m.nested_enums@.len() as int),
        ),
    ) + "}"@
}

/// The nested message entries for proto-file output, keyed by each
/// nested message's smallest field number; map entry types are skipped.
pub open spec fn file_nested_msg_entries(msgs: Seq<MessageModel>, pkg: Seq<char>, n: int) -> Seq<
    (int, Seq<char>),
>
    decreases msgs, 0int, n,
        when n <= msgs.len()
{
    if n <= 0 {
        Seq::empty()
    } else {
        file_nested_msg_entries(msgs, pkg, n - 1) + (if msgs[n - 1].is_map_entry {
            Seq::empty()
        } else {
            seq![
                (
                    min_field_number(msgs[n - 1].fields@),
                    file_format_message_spec(msgs[n - 1], pkg),
                ),
            ]
        })
    }
}

/// The smallest field number of a message's own fields.
fn min_field_number_of(fields: &Vec<FieldModel>) -> (r: i64)
    ensures
        r as int == min_field_number(fields@),
{
    let mut best: i64 = 4294967295i64;
    let mut k: usize = fields.len();
    while k > 0
        invariant
            0 <= k <= fields@.len(),
            best as int == min_field_number(fields@.subrange(k as int, fields@.len() as int)),
        decreases k,
    {
        k = k - 1;
        let num: i64 = fields[k].number as i64;
        if num <= best {
            best = num;
        }
        proof {
            let suffix = fields@.subrange(k as int, fields@.len() as int);
            assert(suffix[0] == fields@[k as int]);
            assert(suffix.subrange(1, suffix.len() as int) =~= fields@.subrange(
                k as int + 1,
                fields@.len() as int,
            ));
        }
    }
    proof {
        assert(fields@.subrange(0, fields@.len() as int) =~= fields@);
    }
    best
}

/// The smallest enum value number in unsigned order.
fn min_enum_number_of(values: &Vec<EnumValueModel>) -> (r: i64)
    ensures
        r as int == min_enum_number(values@),
{
    let mut best: i64 = 4294967295i64;
    let mut k: usize = values.len();
    while k > 0
        invariant
            0 <= k <= values@.len(),
            best as int == min_enum_number(values@.subrange(k as int, values@.len() as int)),
        decreases k,
    {
        k = k - 1;
        let raw: i64 = values[k].number as i64;
        let num: i64 = if raw < 0 {
            raw + 4294967296i64
        } else {
            raw
        };
        if num <= best {
            best = num;
        }
        proof {
            let suffix = values@.subrange(k as int, values@.len() as int);
            assert(suffix[0] == values@[k as int]);
            assert(suffix.subrange(1, suffix.len() as int) =~= values@.subrange(
                k as int + 1,
                values@.len() as int,
            ));
        }
    }
    proof {
        assert(values@.subrange(0, values@.len() as int) =~= values@);
    }
    best
}

/// Render a message block for proto-file output.
pub fn file_format_message(m: &MessageModel, pkg: &str) -> (r: String)
    ensures
        r@ == file_format_message_spec(*m, pkg@),
    decreases *m,
{
    let mut entries: Vec<(i64, String)> = Vec::new();
    let mut k: usize = 0;
    proof {
        assert(entry_views(entries@) =~= file_plain_field_entries(*m, pkg@, 0));
    }
    while k < m.fields.len()
        invariant
            0 <= k <= m.fields@.len(),
            entry_views(entries@) == file_plain_field_entries(*m, pkg@, k as int),
        decreases m.fields@.len() - k,
    {
        let keep = match &m.fields[k].oneof_index {
            Some(v) => is_synthetic_oneof(m, *v as usize),
            None => true,
        };
        if keep {
            let text = file_format_field(&m.fields[k], pkg);
            let ghost prev = entries@;
            entries.push((m.fields[k].number as i64, text));
            proof {
                assert(entry_views(entries@) =~= entry_views(prev).push(
                    (m.fields@[k as int].number as int, file_format_field_spec(
                        m.fields@[k as int],
                        pkg@,
                    )),
                ));
            }
        }
        proof {
            assert(entry_views(entries@) =~= file_plain_field_entries(*m, pkg@, k as int + 1));
        }
        k = k + 1;
    }
    let ghost fields_done = entry_views(entries@);
    let mut o: usize = 0;
    proof {
        assert(entry_views(entries@) =~= fields_done + file_oneof_entries(*m, pkg@, 0));
    }
    while o < m.oneofs.len()
        invariant
            0 <= o <= m.oneofs@.len(),
            fields_done == file_plain_field_entries(*m, pkg@, m.fields@.len() as int),
            entry_views(entries@) == fields_done + file_oneof_entries(*m, pkg@, o as int),
        decreases m.oneofs@.len() - o,
    {
        if !is_synthetic_oneof(m, o) {
            let members = collect_oneof_fields(m, o);
            let key = min_number_of(&members, Ghost(fields_of_oneof(m.fields@, o as int)));
            let text = file_format_oneof(m, o, pkg);
            let ghost prev = entries@;
            entries.push((key, text));
            proof {
                assert(entry_views(entries@) =~= entry_views(prev).push(
                    (
                        min_field_number(fields_of_oneof(m.fields@, o as int)),
                        file_format_oneof_spec(*m, o as int, pkg@),
                    ),
                ));
            }
        }
        proof {
            assert(entry_views(entries@) =~= fields_done + file_oneof_entries(
                *m,
                pkg@,
                o as int + 1,
            ));
        }
        o = o + 1;
    }
    let ghost oneofs_done = entry_views(entries@);
    let mut nm: usize = 0;
    proof {
        assert(entry_views(entries@) =~= oneofs_done + file_nested_msg_entries(m.nested_messages@, pkg@, 0));
    }
    while nm < m.nested_messages.len()
        invariant
            0 <= nm <= m.nested_messages@.len(),
            oneofs_done == file_plain_field_entries(*m, pkg@, m.fields@.len() as int)
                + file_oneof_entries(*m, pkg@, m.oneofs@.len() as int),
            entry_views(entries@) == oneofs_done + file_nested_msg_entries(
                m.nested_messages@,
                pkg@,
                nm as int,
            ),
        decreases m.nested_messages@.len() - nm,
    {
        if !m.nested_messages[nm].is_map_entry {
            let key = min_field_number_of(&m.nested_messages[nm].fields);
            let text = file_format_message(&m.nested_messages[nm], pkg);
            let ghost prev = entries@;
            entries.push((key, text));
            proof {
                assert(entry_views(entries@) =~= entry_views(prev).push(
                    (
                        min_field_number(m.nested_messages@[nm as int].fields@),
                        file_format_message_spec(m.nested_messages@[nm as int], pkg@),
                    ),
                ));
            }
        }
        proof {
            assert(entry_views(entries@) =~= oneofs_done + file_nested_msg_entries(
                m.nested_messages@,
                pkg@,
                nm as int + 1,
            ));
        }
        nm = nm + 1;
    }
    let ghost msgs_done = entry_views(entries@);
    let mut ne: usize = 0;
    proof {
        assert(entry_views(entries@) =~= msgs_done + file_nested_enum_entries(*m, 0));
    }
    while ne < m.nested_enums.len()
        invariant
            0 <= ne <= m.nested_enums@.len(),
            msgs_done == file_plain_field_entries(*m, pkg@, m.fields@.len() as int)
                + file_oneof_entries(*m, pkg@, m.oneofs@.len() as int)
                + file_nested_msg_entries(
                m.nested_messages@,
                pkg@,
                m.nested_messages@.len() as int,
            ),
            entry_views(entries@) == msgs_done + file_nested_enum_entries(*m, ne as int),
        decreases m.nested_enums@.len() - ne,
    {
        let key = min_enum_number_of(&m.nested_enums[ne].values);
        let text = file_format_enum(&m.nested_enums[ne]);
        let ghost prev = entries@;
        entries.push((key, text));
        proof {
            assert(entry_views(entries@) =~= entry_views(prev).push(
                (
                    min_enum_number(m.nested_enums@[ne as int].values@),
                    file_format_enum_spec(m.nested_enums@[ne as int]),
                ),
            ));
            assert(entry_views(entries@) =~= msgs_done + file_nested_enum_entries(
                *m,
                ne as int + 1,
            ));
        }
        ne = ne + 1;
    }
    let sorted = sort_entries(entries);
    let body = pairs_body_sep_exec(&sorted);
    let r = String::from_str("message ").concat(m.name.as_str()).concat(" {\n").concat(
        body.as_str(),
    ).concat("}");
    proof {
        assert(r@ =~= file_format_message_spec(*m, pkg@));
    }
    r
}


/// Whether an index stands in a dependency-index list.
pub open spec fn dep_index_in(s: Seq<u32>, i: int) -> bool {
    exists|j: int| 0 <= j < s.len() && (#[trigger] s[j]) as int == i
}

/// Whether the dependency-index list holds this index.
fn contains_dep_index(v: &Vec<u32>, i: usize) -> (r: bool)
    ensures
        r == dep_index_in(v@, i as int),
{
    let mut j: usize = 0;
    while j < v.len()
        invariant
            0 <= j <= v@.len(),
            forall|k: int| 0 <= k < j ==> (#[trigger] v@[k]) as int != i as int,
        decreases v@.len() - j,
    {
        if v[j] as usize == i {
            proof {
                assert(v@[j as int] as int == i as int);
            }
            return true;
        }
        j = j + 1;
    }
    false
}

/// The import lines of a file, in declaration order, each newline
/// terminated, with `public` and `weak` markers from the index lists.
pub open spec fn import_lines(f: FileModel, n: int) -> Seq<char>
    decreases n,
{
    if n <= 0 {
        Seq::empty()
    } else {
        import_lines(f, n - 1) + "import "@ + (if dep_index_in(f.public_dependency@, n - 1) {
            "public "@
        } else if dep_index_in(f.weak_dependency@, n - 1) {
            "weak "@
        } else {
            Seq::empty()
        }) + seq!['"'] + f.dependencies@[n - 1]@ + "\";\n"@
    }
}

/// One conditional option line.
pub open spec fn opt_java_package(o: FileOptionsModel) -> Seq<Seq<char>> {
    match o.java_package {
        Some(v) => seq!["option java_package = \""@ + v@ + "\";"@],
        None => Seq::empty(),
    }
}

/// One conditional option line.
pub open spec fn opt_java_outer_classname(o: FileOptionsModel) -> Seq<Seq<char>> {
    match o.java_outer_classname {
        Some(v) => seq!["option java_outer_classname = \""@ + v@ + "\";"@],
        None => Seq::empty(),
    }
}

/// One conditional option line.
pub open spec fn opt_java_multiple_files(o: FileOptionsModel) -> Seq<Seq<char>> {
    if o.java_multiple_files {
        seq!["option java_multiple_files = true;"@]
    } else {
        Seq::empty()
    }
}

/// One conditional option line.
pub open spec fn opt_go_package(o: FileOptionsModel) -> Seq<Seq<char>> {
    match o.go_package {
        Some(v) => seq!["option go_package = \""@ + v@ + "\";"@],
        None => Seq::empty(),
    }
}

/// One conditional option line.
pub open spec fn opt_csharp_namespace(o: FileOptionsModel) -> Seq<Seq<char>> {
    match o.csharp_namespace {
        Some(v) => seq!["option csharp_namespace = \""@ + v@ + "\";"@],
        None => Seq::empty(),
    }
}

/// One conditional option line.
pub open spec fn opt_objc_class_prefix(o: FileOptionsModel) -> Seq<Seq<char>> {
    match o.objc_class_prefix {
        Some(v) => seq!["option objc_class_prefix = \""@ + v@ + "\";"@],
        None => Seq::empty(),
    }
}

/// One conditional option line.
pub open spec fn opt_php_namespace(o: FileOptionsModel) -> Seq<Seq<char>> {
    match o.php_namespace {
        Some(v) => seq!["option php_namespace = \""@ + v@ + "\";"@],
        None => Seq::empty(),
    }
}

/// One conditional option line.
pub open spec fn opt_ruby_package(o: FileOptionsModel) -> Seq<Seq<char>> {
    match o.ruby_package {
        Some(v) => seq!["option ruby_package = \""@ + v@ + "\";"@],
        None => Seq::empty(),
    }
}

/// One conditional option line.
pub open spec fn opt_swift_prefix(o: FileOptionsModel) -> Seq<Seq<char>> {
    match o.swift_prefix {
        Some(v) => seq!["option swift_prefix = \""@ + v@ + "\";"@],
        None => Seq::empty(),
    }
}

/// One conditional option line.
pub open spec fn opt_cc_enable_arenas(o: FileOptionsModel) -> Seq<Seq<char>> {
    if o.cc_enable_arenas {
        seq!["option cc_enable_arenas = true;"@]
    } else {
        Seq::empty()
    }
}

/// One conditional option line.
pub open spec fn opt_optimize_for(o: FileOptionsModel) -> Seq<Seq<char>> {
    match o.optimize_for {
        Some(v) => if v == 1 {
            seq!["option optimize_for = SPEED;"@]
        } else if v == 2 {
            seq!["option optimize_for = CODE_SIZE;"@]
        } else if v == 3 {
            seq!["option optimize_for = LITE_RUNTIME;"@]
        } else {
            Seq::empty()
        },
        None => Seq::empty(),
    }
}

/// The `option ...;` lines of a file, in emission order.
pub open spec fn option_lines(o: FileOptionsModel) -> Seq<Seq<char>> {
    opt_java_package(o) + opt_java_outer_classname(o) + opt_java_multiple_files(o) + opt_go_package(o) + opt_csharp_namespace(o) + opt_objc_class_prefix(o) + opt_php_namespace(o) + opt_ruby_package(o) + opt_swift_prefix(o) + opt_cc_enable_arenas(o) + opt_optimize_for(o)
}

/// Lines each terminated with a newline.
pub open spec fn lines_terminated(lines: Seq<Seq<char>>, n: int) -> Seq<char>
    decreases n,
{
    if n <= 0 {
        Seq::empty()
    } else {
        lines_terminated(lines, n - 1) + lines[n - 1] + seq!['\n']
    }
}

/// The message blocks of a file, each framed by blank lines.
pub open spec fn file_messages_text(msgs: Seq<MessageModel>, pkg: Seq<char>, n: int) -> Seq<char>
    decreases n,
{
    if n <= 0 {
        Seq::empty()
    } else {
        file_messages_text(msgs, pkg, n - 1) + seq!['\n'] + file_format_message_spec(
            msgs[n - 1],
            pkg,
        ) + seq!['\n']
    }
}

/// The enum blocks of a file, each framed by blank lines.
pub open spec fn file_enums_text(enums: Seq<EnumModel>, n: int) -> Seq<char>
    decreases n,
{
    if n <= 0 {
        Seq::empty()
    } else {
        file_enums_text(enums, n - 1) + seq!['\n'] + file_format_enum_spec(enums[n - 1]) + seq![
            '\n',
        ]
    }
}

/// The service blocks of a file, each framed by blank lines.
pub open spec fn file_services_text(svcs: Seq<ServiceModel>, pkg: Seq<char>, n: int) -> Seq<char>
    decreases n,
{
    if n <= 0 {
        Seq::empty()
    } else {
        file_services_text(svcs, pkg, n - 1) + seq!['\n'] + file_format_service_spec(
            svcs[n - 1],
            pkg,
        ) + seq!['\n']
    }
}

/// The distinct shortened extendee names of a file's extensions, in first
/// occurrence order.
pub open spec fn short_extendees(exts: Seq<crate::descmodel::ExtensionModel>, pkg: Seq<char>, n: int) -> Seq<
    Seq<char>,
>
    decreases n,
{
    if n <= 0 {
        Seq::empty()
    } else {
        let prev = short_extendees(exts, pkg, n - 1);
        let sn = short_name_spec(exts[n - 1].extendee@, pkg);
        if prev.contains(sn) {
            prev
        } else {
            prev.push(sn)
        }
    }
}

/// The body lines of one extend block: its extensions in declaration
/// order.
pub open spec fn extend_body(
    exts: Seq<crate::descmodel::ExtensionModel>,
    pkg: Seq<char>,
    name: Seq<char>,
    n: int,
) -> Seq<char>
    decreases n,
{
    if n <= 0 {
        Seq::empty()
    } else {
        extend_body(exts, pkg, name, n - 1) + (if short_name_spec(exts[n - 1].extendee@, pkg)
            == name {
            "  "@ + format_extension_spec(exts[n - 1]) + seq!['\n']
        } else {
            Seq::empty()
        })
    }
}

/// The extend blocks of a file, one per extended message, sorted by the
/// shortened extendee name.
pub open spec fn extend_blocks(
    exts: Seq<crate::descmodel::ExtensionModel>,
    pkg: Seq<char>,
    names: Seq<Seq<char>>,
    n: int,
) -> Seq<char>
    decreases n,
{
    if n <= 0 {
        Seq::empty()
    } else {
        extend_blocks(exts, pkg, names, n - 1) + "\nextend "@ + names[n - 1] + " {\n"@
            + extend_body(exts, pkg, names[n - 1], exts.len() as int) + "}\n"@
    }
}

/// The proto-source text of a whole file: syntax, package, imports, file
/// options, then messages, enums, extend blocks and services in
/// declaration order with short type names.
pub open spec fn format_proto_file_spec(f: FileModel) -> Seq<char> {
    let pkg = f.package@;
    let sorted_extendees = crate::strutil::sort_lines_spec(
        short_extendees(f.extensions@, pkg, f.extensions@.len() as int),
    );
    "syntax = \""@ + f.syntax@ + "\";\n"@ + (if f.package@.len() > 0 {
        "\npackage "@ + f.package@ + ";\n"@
    } else {
        Seq::empty()
    }) + (if f.dependencies@.len() > 0 {
        seq!['\n'] + import_lines(f, f.dependencies@.len() as int)
    } else {
        Seq::empty()
    }) + (if option_lines(f.options).len() > 0 {
        seq!['\n'] + lines_terminated(option_lines(f.options), option_lines(f.options).len() as int)
    } else {
        Seq::empty()
    }) + file_messages_text(f.messages@, pkg, f.messages@.len() as int) + file_enums_text(
        f.enums@,
        f.enums@.len() as int,
    ) + (if f.extensions@.len() > 0 {
        extend_blocks(f.extensions@, pkg, sorted_extendees, sorted_extendees.len() as int)
    } else {
        Seq::empty()
    }) + file_services_text(f.services@, pkg, f.services@.len() as int)
}

/// One quoted option line: the prefix, the value, and a closing quote.
fn quoted_line(prefix: &'static str, v: &String) -> (r: String)
    ensures
        r@ == prefix@ + v@ + "\";"@,
{
    String::from_str(prefix).concat(v.as_str()).concat("\";")
}

/// Render the first half of the `option ...;` lines.
fn render_option_lines_a(o: &FileOptionsModel) -> (r: Vec<String>)
    ensures
        views_of(r@) == opt_java_package(*o) + opt_java_outer_classname(*o)
            + opt_java_multiple_files(*o) + opt_go_package(*o) + opt_csharp_namespace(*o)
            + opt_objc_class_prefix(*o),
{
    let mut lines: Vec<String> = Vec::new();
    let ghost mut acc: Seq<Seq<char>> = Seq::empty();
    if let Some(v) = &o.java_package {
        lines.push(quoted_line("option java_package = \"", v));
    }
    proof {
        acc = acc + opt_java_package(*o);
        assert(views_of(lines@) =~= acc);
    }
    if let Some(v) = &o.java_outer_classname {
        lines.push(quoted_line("option java_outer_classname = \"", v));
    }
    proof {
        acc = acc + opt_java_outer_classname(*o);
        assert(views_of(lines@) =~= acc);
    }
    if o.java_multiple_files {
        lines.push(String::from_str("option java_multiple_files = true;"));
    }
    proof {
        acc = acc + opt_java_multiple_files(*o);
        assert(views_of(lines@) =~= acc);
    }
    if let Some(v) = &o.go_package {
        lines.push(quoted_line("option go_package = \"", v));
    }
    proof {
        acc = acc + opt_go_package(*o);
        assert(views_of(lines@) =~= acc);
    }
    if let Some(v) = &o.csharp_namespace {
        lines.push(quoted_line("option csharp_namespace = \"", v));
    }
    proof {
        acc = acc + opt_csharp_namespace(*o);
        assert(views_of(lines@) =~= acc);
    }
    if let Some(v) = &o.objc_class_prefix {
        lines.push(quoted_line("option objc_class_prefix = \"", v));
    }
    proof {
        acc = acc + opt_objc_class_prefix(*o);
        assert(views_of(lines@) =~= acc);
    }
    lines
}

/// Render the second half of the `option ...;` lines.
fn render_option_lines_b(o: &FileOptionsModel) -> (r: Vec<String>)
    ensures
        views_of(r@) == opt_php_namespace(*o) + opt_ruby_package(*o) + opt_swift_prefix(*o)
            + opt_cc_enable_arenas(*o) + opt_optimize_for(*o),
{
    let mut lines: Vec<String> = Vec::new();
    let ghost mut acc: Seq<Seq<char>> = Seq::empty();
    if let Some(v) = &o.php_namespace {
        lines.push(quoted_line("option php_namespace = \"", v));
    }
    proof {
        acc = acc + opt_php_namespace(*o);
        assert(views_of(lines@) =~= acc);
    }
    if let Some(v) = &o.ruby_package {
        lines.push(quoted_line("option ruby_package = \"", v));
    }
    proof {
        acc = acc + opt_ruby_package(*o);
        assert(views_of(lines@) =~= acc);
    }
    if let Some(v) = &o.swift_prefix {
        lines.push(quoted_line("option swift_prefix = \"", v));
    }
    proof {
        acc = acc + opt_swift_prefix(*o);
        assert(views_of(lines@) =~= acc);
    }
    if o.cc_enable_arenas {
        lines.push(String::from_str("option cc_enable_arenas = true;"));
    }
    proof {
        acc = acc + opt_cc_enable_arenas(*o);
        assert(views_of(lines@) =~= acc);
    }
    match o.optimize_for {
        Some(v) => {
            if v == 1 {
                lines.push(String::from_str("option optimize_for = SPEED;"));
            } else if v == 2 {
                lines.push(String::from_str("option optimize_for = CODE_SIZE;"));
            } else if v == 3 {
                lines.push(String::from_str("option optimize_for = LITE_RUNTIME;"));
            }
        },
        None => {},
    }
    proof {
        acc = acc + opt_optimize_for(*o);
        assert(views_of(lines@) =~= acc);
    }
    lines
}

/// The option lines split at their middle.
#[verifier::rlimit(100)]
proof fn lemma_option_lines_split(o: FileOptionsModel)
    ensures
        option_lines(o) == (opt_java_package(o) + opt_java_outer_classname(o)
            + opt_java_multiple_files(o) + opt_go_package(o) + opt_csharp_namespace(o)
            + opt_objc_class_prefix(o)) + (opt_php_namespace(o) + opt_ruby_package(o)
            + opt_swift_prefix(o) + opt_cc_enable_arenas(o) + opt_optimize_for(o)),
{
    assert(option_lines(o) =~= (opt_java_package(o) + opt_java_outer_classname(o)
        + opt_java_multiple_files(o) + opt_go_package(o) + opt_csharp_namespace(o)
        + opt_objc_class_prefix(o)) + (opt_php_namespace(o) + opt_ruby_package(o)
        + opt_swift_prefix(o) + opt_cc_enable_arenas(o) + opt_optimize_for(o)));
}

/// Render the `option ...;` lines of a file.
fn render_option_lines(o: &FileOptionsModel) -> (r: Vec<String>)
    ensures
        views_of(r@) == option_lines(*o),
{
    let mut lines = render_option_lines_a(o);
    let ghost first = views_of(lines@);
    let rest = render_option_lines_b(o);
    let mut i: usize = 0;
    while i < rest.len()
        invariant
            0 <= i <= rest@.len(),
            views_of(lines@) == first + views_of(rest@).subrange(0, i as int),
        decreases rest@.len() - i,
    {
        let ghost prev = lines@;
        lines.push(rest[i].clone());
        proof {
            assert(views_of(lines@) =~= views_of(prev).push(rest@[i as int]@));
            assert(views_of(rest@).subrange(0, i + 1) =~= views_of(rest@).subrange(
                0,
                i as int,
            ).push(rest@[i as int]@));
            assert(views_of(lines@) =~= first + views_of(rest@).subrange(0, i + 1));
        }
        i = i + 1;
    }
    proof {
        assert(views_of(rest@).subrange(0, rest@.len() as int) =~= views_of(rest@));
        lemma_option_lines_split(*o);
    }
    lines
}

/// Whether the list of names holds this one.
fn names_contain(v: &Vec<String>, name: &str) -> (r: bool)
    ensures
        r == views_of(v@).contains(name@),
{
    let mut i: usize = 0;
    while i < v.len()
        invariant
            0 <= i <= v@.len(),
            forall|j: int| 0 <= j < i ==> (#[trigger] v@[j])@ != name@,
        decreases v@.len() - i,
    {
        if str_eq(v[i].as_str(), name) {
            proof {
                assert(views_of(v@)[i as int] == name@);
            }
            return true;
        }
        i = i + 1;
    }
    proof {
        assert forall|j: int| 0 <= j < views_of(v@).len() implies views_of(v@)[j] != name@ by {
            assert(v@[j]@ != name@);
        }
    }
    false
}

/// Render the import lines section.
fn imports_section(f: &FileModel) -> (r: String)
    ensures
        r@ == (if f.dependencies@.len() > 0 {
            seq!['\n'] + import_lines(*f, f.dependencies@.len() as int)
        } else {
            Seq::<char>::empty()
        }),
{
    if f.dependencies.len() == 0 {
        return String::new();
    }
    let mut out = String::from_str("\n");
    let mut i: usize = 0;
    proof {
        reveal_strlit("\n");
        assert(out@ =~= seq!['\n'] + import_lines(*f, 0));
    }
    while i < f.dependencies.len()
        invariant
            0 <= i <= f.dependencies@.len(),
            out@ == seq!['\n'] + import_lines(*f, i as int),
        decreases f.dependencies@.len() - i,
    {
        let marker = if contains_dep_index(&f.public_dependency, i) {
            "public "
        } else if contains_dep_index(&f.weak_dependency, i) {
            "weak "
        } else {
            ""
        };
        out = out.concat("import ").concat(marker).concat("\"").concat(
            f.dependencies[i].as_str(),
        ).concat("\";\n");
        proof {
            reveal_strlit("");
            reveal_strlit("public ");
            reveal_strlit("weak ");
            reveal_strlit("\"");
            assert(out@ =~= seq!['\n'] + import_lines(*f, i as int + 1));
        }
        i = i + 1;
    }
    out
}

/// Render the file options section.
fn options_section(f: &FileModel) -> (r: String)
    ensures
        r@ == (if option_lines(f.options).len() > 0 {
            seq!['\n'] + lines_terminated(
                option_lines(f.options),
                option_lines(f.options).len() as int,
            )
        } else {
            Seq::<char>::empty()
        }),
{
    let opt_lines = render_option_lines(&f.options);
    if opt_lines.len() == 0 {
        proof {
            assert(option_lines(f.options).len() == 0);
        }
        return String::new();
    }
    let mut out = String::from_str("\n");
    let mut i: usize = 0;
    proof {
        reveal_strlit("\n");
        assert(out@ =~= seq!['\n'] + lines_terminated(option_lines(f.options), 0));
    }
    while i < opt_lines.len()
        invariant
            0 <= i <= opt_lines@.len(),
            views_of(opt_lines@) == option_lines(f.options),
            out@ == seq!['\n'] + lines_terminated(option_lines(f.options), i as int),
        decreases opt_lines@.len() - i,
    {
        out = out.concat(opt_lines[i].as_str()).concat("\n");
        proof {
            reveal_strlit("\n");
            assert(opt_lines@[i as int]@ == option_lines(f.options)[i as int]);
            assert(out@ =~= seq!['\n'] + lines_terminated(option_lines(f.options), i as int + 1));
        }
        i = i + 1;
    }
    out
}

/// Render the message blocks section.
fn messages_section(f: &FileModel) -> (r: String)
    ensures
        r@ == file_messages_text(f.messages@, f.package@, f.messages@.len() as int),
{
    let pkg = f.package.as_str();
    let mut out = String::new();
    let mut i: usize = 0;
    while i < f.messages.len()
        invariant
            0 <= i <= f.messages@.len(),
            pkg@ == f.package@,
            out@ == file_messages_text(f.messages@, f.package@, i as int),
        decreases f.messages@.len() - i,
    {
        out = out.concat("\n").concat(file_format_message(&f.messages[i], pkg).as_str()).concat(
            "\n",
        );
        proof {
            reveal_strlit("\n");
            assert(out@ =~= file_messages_text(f.messages@, f.package@, i as int + 1));
        }
        i = i + 1;
    }
    out
}

/// Render the enum blocks section.
fn enums_section(f: &FileModel) -> (r: String)
    ensures
        r@ == file_enums_text(f.enums@, f.enums@.len() as int),
{
    let mut out = String::new();
    let mut i: usize = 0;
    while i < f.enums.len()
        invariant
            0 <= i <= f.enums@.len(),
            out@ == file_enums_text(f.enums@, i as int),
        decreases f.enums@.len() - i,
    {
        out = out.concat("\n").concat(file_format_enum(&f.enums[i]).as_str()).concat("\n");
        proof {
            reveal_strlit("\n");
            assert(out@ =~= file_enums_text(f.enums@, i as int + 1));
        }
        i = i + 1;
    }
    out
}

/// Render the service blocks section.
fn services_section(f: &FileModel) -> (r: String)
    ensures
        r@ == file_services_text(f.services@, f.package@, f.services@.len() as int),
{
    let pkg = f.package.as_str();
    let mut out = String::new();
    let mut i: usize = 0;
    while i < f.services.len()
        invariant
            0 <= i <= f.services@.len(),
            pkg@ == f.package@,
            out@ == file_services_text(f.services@, f.package@, i as int),
        decreases f.services@.len() - i,
    {
        out = out.concat("\n").concat(file_format_service(&f.services[i], pkg).as_str()).concat(
            "\n",
        );
        proof {
            reveal_strlit("\n");
            assert(out@ =~= file_services_text(f.services@, f.package@, i as int + 1));
        }
        i = i + 1;
    }
    out
}

/// Render one extend block.
fn extend_block(f: &FileModel, name: &str) -> (r: String)
    ensures
        r@ == "\nextend "@ + name@ + " {\n"@ + extend_body(
            f.extensions@,
            f.package@,
            name@,
            f.extensions@.len() as int,
        ) + "}\n"@,
{
    let pkg = f.package.as_str();
    let mut out = String::from_str("\nextend ").concat(name).concat(" {\n");
    let ghost head = "\nextend "@ + name@ + " {\n"@;
    proof {
        assert(out@ =~= head + extend_body(f.extensions@, f.package@, name@, 0));
    }
    let mut e: usize = 0;
    while e < f.extensions.len()
        invariant
            0 <= e <= f.extensions@.len(),
            pkg@ == f.package@,
            head == "\nextend "@ + name@ + " {\n"@,
            out@ == head + extend_body(f.extensions@, f.package@, name@, e as int),
        decreases f.extensions@.len() - e,
    {
        let sn = short_name(f.extensions[e].extendee.as_str(), pkg);
        if str_eq(sn.as_str(), name) {
            out = out.concat("  ").concat(format_extension(&f.extensions[e]).as_str()).concat(
                "\n",
            );
        }
        proof {
            reveal_strlit("  ");
            reveal_strlit("\n");
            assert(out@ =~= head + extend_body(f.extensions@, f.package@, name@, e as int + 1));
        }
        e = e + 1;
    }
    let r = out.concat("}\n");
    proof {
        assert(r@ =~= head + extend_body(
            f.extensions@,
            f.package@,
            name@,
            f.extensions@.len() as int,
        ) + "}\n"@);
    }
    r
}

/// Render the extend blocks section.
fn extensions_section(f: &FileModel) -> (r: String)
    ensures
        r@ == (if f.extensions@.len() > 0 {
            let names = crate::strutil::sort_lines_spec(
                short_extendees(f.extensions@, f.package@, f.extensions@.len() as int),
            );
            extend_blocks(f.extensions@, f.package@, names, names.len() as int)
        } else {
            Seq::<char>::empty()
        }),
{
    if f.extensions.len() == 0 {
        return String::new();
    }
    let pkg = f.package.as_str();
    let mut shorts: Vec<String> = Vec::new();
    let mut e: usize = 0;
    proof {
        assert(views_of(shorts@) =~= short_extendees(f.extensions@, f.package@, 0));
    }
    while e < f.extensions.len()
        invariant
            0 <= e <= f.extensions@.len(),
            pkg@ == f.package@,
            views_of(shorts@) == short_extendees(f.extensions@, f.package@, e as int),
        decreases f.extensions@.len() - e,
    {
        let sn = short_name(f.extensions[e].extendee.as_str(), pkg);
        if !names_contain(&shorts, sn.as_str()) {
            let ghost prev = shorts@;
            shorts.push(sn);
            proof {
                assert(views_of(shorts@) =~= views_of(prev).push(
                    short_name_spec(f.extensions@[e as int].extendee@, f.package@),
                ));
            }
        }
        proof {
            assert(views_of(shorts@) =~= short_extendees(
                f.extensions@,
                f.package@,
                e as int + 1,
            ));
        }
        e = e + 1;
    }
    let sorted = sort_strings(&shorts);
    let ghost names = views_of(sorted@);
    let mut out = String::new();
    let mut g: usize = 0;
    proof {
        assert(out@ =~= extend_blocks(f.extensions@, f.package@, names, 0));
    }
    while g < sorted.len()
        invariant
            0 <= g <= sorted@.len(),
            names == views_of(sorted@),
            names == crate::strutil::sort_lines_spec(
                short_extendees(f.extensions@, f.package@, f.extensions@.len() as int),
            ),
            out@ == extend_blocks(f.extensions@, f.package@, names, g as int),
        decreases sorted@.len() - g,
    {
        out = out.concat(extend_block(f, sorted[g].as_str()).as_str());
        proof {
            assert(sorted@[g as int]@ == names[g as int]);
            assert(out@ =~= extend_blocks(f.extensions@, f.package@, names, g as int + 1));
        }
        g = g + 1;
    }
    out
}

/// Render the proto-source text of a whole file.
#[verifier::rlimit(100)]
pub fn format_proto_file(f: &FileModel) -> (r: String)
    ensures
        r@ == format_proto_file_spec(*f),
{
    let mut out = String::from_str("syntax = \"").concat(f.syntax.as_str()).concat("\";\n");
    proof {
        assert(out@ =~= "syntax = \""@ + f.syntax@ + "\";\n"@);
    }
    if f.package.as_str().unicode_len() > 0 {
        out = out.concat("\npackage ").concat(f.package.as_str()).concat(";\n");
    }
    out = out.concat(imports_section(f).as_str());
    out = out.concat(options_section(f).as_str());
    out = out.concat(messages_section(f).as_str());
    out = out.concat(enums_section(f).as_str());
    out = out.concat(extensions_section(f).as_str());
    out = out.concat(services_section(f).as_str());
    proof {
        assert(out@ =~= format_proto_file_spec(*f));
    }
    out
}

} // verus!