use vstd::prelude::*;
use crate::errors::StatusCode;
use crate::strutil::dec_str;
use crate::strutil::u64_to_string;
use vstd::utf8::encode_utf8;

verus! {

/// One `google.protobuf.Any` detail attached to a gRPC status: its type
/// URL and serialized payload.
pub struct AnyDetail {
    pub type_url: String,
    pub value: Vec<u8>,
}

/// 128 to the power `n`.
pub open spec fn pow128(n: int) -> int
    decreases n,
{
    if n <= 0 {
        1
    } else {
        128 * pow128(n - 1)
    }
}

/// One base-128 varint read at `pos`, up to `fuel` bytes: its value and
/// the position after it; `None` on truncation or an over-long encoding.
pub open spec fn parse_varint(bytes: Seq<u8>, pos: int, fuel: int) -> Option<(int, int)>
    decreases fuel,
{
    if fuel <= 0 || pos < 0 || pos >= bytes.len() {
        None
    } else {
        let b = bytes[pos] as int;
        if b < 128 {
            Some((b, pos + 1))
        } else {
            match parse_varint(bytes, pos + 1, fuel - 1) {
                Some(vp) => Some(((b - 128) + 128 * vp.0, vp.1)),
                None => None,
            }
        }
    }
}

proof fn lemma_varint_bounds(bytes: Seq<u8>, pos: int, fuel: int)
    ensures
        parse_varint(bytes, pos, fuel) matches Some(vp) ==> 0 <= vp.0 < pow128(fuel) && pos < vp.1
            <= bytes.len(),
    decreases fuel,
{
    if fuel <= 0 || pos < 0 || pos >= bytes.len() {
    } else {
        let b = bytes[pos] as int;
        if b < 128 {
            assert(pow128(fuel) >= 128) by {
                assert(pow128(fuel - 1) >= 1) by {
                    lemma_pow128_pos(fuel - 1);
                }
            }
        } else {
            lemma_varint_bounds(bytes, pos + 1, fuel - 1);
            match parse_varint(bytes, pos + 1, fuel - 1) {
                Some(vp) => {
                    assert((b - 128) + 128 * vp.0 < pow128(fuel)) by (nonlinear_arith)
                        requires
                            b < 256,
                            0 <= vp.0 < pow128(fuel - 1),
                            pow128(fuel) == 128 * pow128(fuel - 1),
                    {}
                },
                None => {},
            }
        }
    }
}

proof fn lemma_pow128_pos(n: int)
    ensures
        pow128(n) >= 1,
    decreases n,
{
    if n > 0 {
        lemma_pow128_pos(n - 1);
    }
}

/// Read one varint, at most ten bytes.
fn read_varint(bytes: &Vec<u8>, pos: usize, fuel: u64) -> (r: Option<(u128, usize)>)
    requires
        fuel <= 10,
    ensures
        (match r {
            Some(vp) => Some((vp.0 as int, vp.1 as int)),
            None => None,
        }) == parse_varint(bytes@, pos as int, fuel as int),
        r matches Some(vp) ==> pos < vp.1 <= bytes@.len(),
    decreases fuel,
{
    proof {
        lemma_varint_bounds(bytes@, pos as int, fuel as int);
        lemma_pow128_ten();
    }
    if fuel == 0 || pos >= bytes.len() {
        return None;
    }
    let b = bytes[pos];
    if b < 128 {
        Some((b as u128, pos + 1))
    } else {
        match read_varint(bytes, pos + 1, fuel - 1) {
            Some((v, p2)) => {
                proof {
                    lemma_varint_bounds(bytes@, pos as int + 1, fuel as int - 1);
                    lemma_pow128_mono(fuel as int - 1, 10);
                }
                Some(((b - 128) as u128 + 128 * v, p2))
            },
            None => None,
        }
    }
}

proof fn lemma_pow128_ten()
    ensures
        pow128(10) == 1180591620717411303424,
{
    assert(pow128(0) == 1);
    assert(pow128(1) == 128);
    assert(pow128(2) == 16384);
    assert(pow128(3) == 2097152);
    assert(pow128(4) == 268435456);
    assert(pow128(5) == 34359738368);
    assert(pow128(6) == 4398046511104);
    assert(pow128(7) == 562949953421312);
    assert(pow128(8) == 72057594037927936);
    assert(pow128(9) == 9223372036854775808);
    assert(pow128(10) == 1180591620717411303424);
}

proof fn lemma_pow128_mono(a: int, b: int)
    requires
        a <= b,
    ensures
        pow128(a) <= pow128(b),
    decreases b - a,
{
    if a < b {
        if b > 0 {
            lemma_pow128_mono(a, b - 1);
            lemma_pow128_pos(b - 1);
            assert(pow128(b) == 128 * pow128(b - 1));
            assert(pow128(b - 1) <= 128 * pow128(b - 1)) by (nonlinear_arith)
                requires
                    1 <= pow128(b - 1),
            ;
        }
    }
}

/// The fields of one serialized `google.protobuf.Any`, walked from `pos`:
/// the final type URL bytes and value bytes (later occurrences win, as
/// protobuf merging does); `None` on any malformed field or invalid
/// UTF-8 in the type URL.
pub open spec fn parse_any_fields(bytes: Seq<u8>, pos: int, url: Seq<u8>, val: Seq<u8>) -> Option<
    (Seq<u8>, Seq<u8>),
>
    decreases bytes.len() - pos,
{
    if pos == bytes.len() {
        Some((url, val))
    } else {
        match parse_varint(bytes, pos, 10) {
            None => None,
            Some(tag) => if !(pos < tag.1 <= bytes.len()) {
                None
            } else {
                let field = tag.0 / 8;
                let wire = tag.0 % 8;
                if wire == 0 {
                    match parse_varint(bytes, tag.1, 10) {
                        Some(v) => if tag.1 < v.1 <= bytes.len() {
                            parse_any_fields(bytes, v.1, url, val)
                        } else {
                            None
                        },
                        None => None,
                    }
                } else if wire == 1 {
                    if tag.1 + 8 <= bytes.len() {
                        parse_any_fields(bytes, tag.1 + 8, url, val)
                    } else {
                        None
                    }
                } else if wire == 5 {
                    if tag.1 + 4 <= bytes.len() {
                        parse_any_fields(bytes, tag.1 + 4, url, val)
                    } else {
                        None
                    }
                } else if wire == 2 {
                    match parse_varint(bytes, tag.1, 10) {
                        Some(l) => if tag.1 < l.1 <= bytes.len() && l.0 >= 0 && l.1 + l.0
                            <= bytes.len() {
                            let payload = bytes.subrange(l.1, l.1 + l.0);
                            if field == 1 {
                                if exists|s: Seq<char>| encode_utf8(s) == payload {
                                    parse_any_fields(bytes, l.1 + l.0, payload, val)
                                } else {
                                    None
                                }
                            } else if field == 2 {
                                parse_any_fields(bytes, l.1 + l.0, url, payload)
                            } else {
                                parse_any_fields(bytes, l.1 + l.0, url, val)
                            }
                        } else {
                            None
                        },
                        None => None,
                    }
                } else {
                    None
                }
            },
        }
    }
}

/// The `Any` details of one serialized `google.rpc.Status`, walked from
/// `pos`: each repeated field-3 payload parsed as an `Any`, in order;
/// `None` on any malformed field.
pub open spec fn parse_status_fields(bytes: Seq<u8>, pos: int) -> Option<Seq<(Seq<u8>, Seq<u8>)>>
    decreases bytes.len() - pos,
{
    if pos == bytes.len() {
        Some(Seq::empty())
    } else {
        match parse_varint(bytes, pos, 10) {
            None => None,
            Some(tag) => if !(pos < tag.1 <= bytes.len()) {
                None
            } else {
                let field = tag.0 / 8;
                let wire = tag.0 % 8;
                if wire == 0 {
                    match parse_varint(bytes, tag.1, 10) {
                        Some(v) => if tag.1 < v.1 <= bytes.len() {
                            parse_status_fields(bytes, v.1)
                        } else {
                            None
                        },
                        None => None,
                    }
                } else if wire == 1 {
                    if tag.1 + 8 <= bytes.len() {
                        parse_status_fields(bytes, tag.1 + 8)
                    } else {
                        None
                    }
                } else if wire == 5 {
                    if tag.1 + 4 <= bytes.len() {
                        parse_status_fields(bytes, tag.1 + 4)
                    } else {
                        None
                    }
                } else if wire == 2 {
                    match parse_varint(bytes, tag.1, 10) {
                        Some(l) => if tag.1 < l.1 <= bytes.len() && l.0 >= 0 && l.1 + l.0
                            <= bytes.len() {
                            let payload = bytes.subrange(l.1, l.1 + l.0);
                            if field == 3 {
                                match parse_any_fields(payload, 0, Seq::empty(), Seq::empty()) {
                                    Some(a) => match parse_status_fields(bytes, l.1 + l.0) {
                                        Some(rest) => Some(seq![a] + rest),
                                        None => None,
                                    },
                                    None => None,
                                }
                            } else {
                                parse_status_fields(bytes, l.1 + l.0)
                            }
                        } else {
                            None
                        },
                        None => None,
                    }
                } else {
                    None
                }
            },
        }
    }
}

/// Whether the decoded details match the parsed ones: same count, and
/// each type URL's characters encode to the parsed URL bytes.
pub open spec fn details_match(out: Seq<AnyDetail>, parsed: Seq<(Seq<u8>, Seq<u8>)>) -> bool {
    out.len() == parsed.len() && forall|i: int|
        0 <= i < out.len() ==> encode_utf8((#[trigger] out[i]).type_url@) == parsed[i].0
            && out[i].value@ == parsed[i].1
}

/// Relies on String::from_utf8 (std): it succeeds exactly on valid UTF-8,
/// returning the characters those bytes encode.
#[verifier::external_body]
fn utf8_string(b: Vec<u8>) -> (r: Option<String>)
    ensures
        r matches Some(s) ==> encode_utf8(s@) == b@,
        r is None ==> !(exists|s: Seq<char>| encode_utf8(s) == b@),
{
    String::from_utf8(b).ok()
}

/// Copy a byte range.
fn copy_bytes(bytes: &Vec<u8>, from: usize, to: usize) -> (r: Vec<u8>)
    requires
        from <= to <= bytes@.len(),
    ensures
        r@ == bytes@.subrange(from as int, to as int),
{
    let mut out: Vec<u8> = Vec::new();
    let mut i: usize = from;
    while i < to
        invariant
            from <= i <= to <= bytes@.len(),
            out@ == bytes@.subrange(from as int, i as int),
        decreases to - i,
    {
        out.push(bytes[i]);
        proof {
            assert(out@ =~= bytes@.subrange(from as int, i + 1));
        }
        i = i + 1;
    }
    out
}

/// Parse one serialized `google.protobuf.Any`.
fn decode_any(bytes: &Vec<u8>) -> (r: Option<AnyDetail>)
    ensures
        (match r {
            Some(a) => parse_any_fields(bytes@, 0, Seq::empty(), Seq::empty()) matches Some(p)
                && encode_utf8(a.type_url@) == p.0 && a.value@ == p.1,
            None => parse_any_fields(bytes@, 0, Seq::empty(), Seq::empty()) is None,
        }),
{
    let mut url: Vec<u8> = Vec::new();
    let mut val: Vec<u8> = Vec::new();
    let mut pos: usize = 0;
    let ghost gb = bytes@;
    proof {
        assert(url@ =~= Seq::<u8>::empty());
        assert(val@ =~= Seq::<u8>::empty());
        assert(encode_utf8(Seq::<char>::empty()) =~= Seq::<u8>::empty());
    }
    while pos < bytes.len()
        invariant
            pos <= gb.len(),
            gb == bytes@,
            exists|s: Seq<char>| #[trigger] encode_utf8(s) == url@,
            parse_any_fields(gb, 0, Seq::empty(), Seq::empty()) == parse_any_fields(
                gb,
                pos as int,
                url@,
                val@,
            ),
        decreases gb.len() - pos,
    {
        let tag = match read_varint(bytes, pos, 10) {
            Some(t) => t,
            None => {
                return None;
            },
        };
        let wire = (tag.0 % 8) as u64;
        let field = tag.0 / 8;
        if wire == 0 {
            match read_varint(bytes, tag.1, 10) {
                Some(v) => {
                    pos = v.1;
                },
                None => {
                    return None;
                },
            }
        } else if wire == 1 {
            if bytes.len() - tag.1 >= 8 {
                pos = tag.1 + 8;
            } else {
                return None;
            }
        } else if wire == 5 {
            if bytes.len() - tag.1 >= 4 {
                pos = tag.1 + 4;
            } else {
                return None;
            }
        } else if wire == 2 {
            let l = match read_varint(bytes, tag.1, 10) {
                Some(l) => l,
                None => {
                    return None;
                },
            };
            if l.0 <= (bytes.len() - l.1) as u128 {
                let end = l.1 + l.0 as usize;
                let payload = copy_bytes(bytes, l.1, end);
                if field == 1 {
                    match utf8_string(payload) {
                        Some(decoded) => {
                            url = copy_bytes(bytes, l.1, end);
                            proof {
                                assert(encode_utf8(decoded@) == url@);
                            }
                        },
                        None => {
                            return None;
                        },
                    }
                } else if field == 2 {
                    val = payload;
                }
                pos = end;
            } else {
                return None;
            }
        } else {
            return None;
        }
    }
    proof {
        assert(parse_any_fields(gb, pos as int, url@, val@) == Some((url@, val@)));
    }
    match utf8_string(url) {
        Some(s) => Some(AnyDetail { type_url: s, value: val }),
        None => {
            proof {
                assert(false);
            }
            None
        },
    }
}

/// Decode the `Any` details of a serialized `google.rpc.Status` (the
/// `grpc-status-details-bin` trailer): the repeated field-3 entries, in
/// order. A malformed buffer yields no details.
pub fn decode_status_details(data: &Vec<u8>) -> (r: Vec<AnyDetail>)
    ensures
        (match parse_status_fields(data@, 0) {
            Some(parsed) => details_match(r@, parsed),
            None => r@.len() == 0,
        }),
{
    let mut out: Vec<AnyDetail> = Vec::new();
    let mut pos: usize = 0;
    let ghost gb = data@;
    proof {
        if parse_status_fields(gb, 0) is Some {
            assert(details_seq(out@) + parse_status_fields(gb, 0)->Some_0
                =~= parse_status_fields(gb, 0)->Some_0);
        }
    }
    while pos < data.len()
        invariant
            pos <= gb.len(),
            gb == data@,
            parse_status_fields(gb, 0) == (match parse_status_fields(gb, pos as int) {
                Some(rest) => Some(details_seq(out@) + rest),
                None => None,
            }),
        decreases gb.len() - pos,
    {
        let tag = match read_varint(data, pos, 10) {
            Some(t) => t,
            None => {
                return Vec::new();
            },
        };
        let wire = (tag.0 % 8) as u64;
        let field = tag.0 / 8;
        if wire == 0 {
            match read_varint(data, tag.1, 10) {
                Some(v) => {
                    pos = v.1;
                },
                None => {
                    return Vec::new();
                },
            }
        } else if wire == 1 {
            if data.len() - tag.1 >= 8 {
                pos = tag.1 + 8;
            } else {
                return Vec::new();
            }
        } else if wire == 5 {
            if data.len() - tag.1 >= 4 {
                pos = tag.1 + 4;
            } else {
                return Vec::new();
            }
        } else if wire == 2 {
            let l = match read_varint(data, tag.1, 10) {
                Some(l) => l,
                None => {
                    return Vec::new();
                },
            };
            if l.0 <= (data.len() - l.1) as u128 {
                let end = l.1 + l.0 as usize;
                if field == 3 {
                    let payload = copy_bytes(data, l.1, end);
                    match decode_any(&payload) {
                        Some(a) => {
                            let ghost prev = out@;
                            out.push(a);
                            proof {
                                assert(details_seq(out@) =~= details_seq(prev).push(
                                    (encode_utf8(out@.last().type_url@), out@.last().value@),
                                ));
                                if parse_status_fields(gb, end as int) is Some {
                                    assert(details_seq(out@) + parse_status_fields(
                                        gb,
                                        end as int,
                                    )->Some_0 =~= details_seq(prev) + (seq![
                                        (
                                            encode_utf8(out@.last().type_url@),
                                            out@.last().value@,
                                        ),
                                    ] + parse_status_fields(gb, end as int)->Some_0));
                                }
                            }
                        },
                        None => {
                            return Vec::new();
                        },
                    }
                }
                pos = end;
            } else {
                return Vec::new();
            }
        } else {
            return Vec::new();
        }
    }
    proof {
        assert(parse_status_fields(gb, pos as int) == Some(Seq::<(Seq<u8>, Seq<u8>)>::empty()));
        assert(details_seq(out@) + Seq::<(Seq<u8>, Seq<u8>)>::empty() =~= details_seq(out@));
        lemma_details_match_from_prefix(out@);
    }
    out
}

/// The parsed view of decoded details.
pub open spec fn details_seq(out: Seq<AnyDetail>) -> Seq<(Seq<u8>, Seq<u8>)> {
    out.map_values(|a: AnyDetail| (encode_utf8(a.type_url@), a.value@))
}

proof fn lemma_details_match_from_prefix(out: Seq<AnyDetail>)
    ensures
        details_match(out, details_seq(out)),
{
    assert forall|i: int| 0 <= i < out.len() implies encode_utf8(
        (#[trigger] out[i]).type_url@,
    ) == details_seq(out)[i].0 && out[i].value@ == details_seq(out)[i].1 by {}
}


/// The body of a rendered detail, indented six spaces per line.
pub open spec fn indent6_rest(s: Seq<char>) -> Seq<char>
    decreases s.len(),
{
    if s.len() == 0 {
        Seq::empty()
    } else if s[0] == '\n' {
        seq!['\n', ' ', ' ', ' ', ' ', ' ', ' '] + indent6_rest(s.subrange(1, s.len() as int))
    } else {
        seq![s[0]] + indent6_rest(s.subrange(1, s.len() as int))
    }
}

/// A rendered detail body: every line indented six spaces, newline
/// terminated; empty text stays empty.
pub open spec fn indent6_block(s: Seq<char>) -> Seq<char> {
    if s.len() == 0 {
        Seq::empty()
    } else {
        seq![' ', ' ', ' ', ' ', ' ', ' '] + indent6_rest(s) + seq!['\n']
    }
}

fn indent6_rest_exec(s: &str) -> (r: String)
    ensures
        r@ == indent6_rest(s@),
    decreases s@.len(),
{
    let n = s.unicode_len();
    if n == 0 {
        return String::new();
    }
    let c = s.get_char(0);
    let rest = indent6_rest_exec(s.substring_char(1, n));
    if c == '\n' {
        let r = String::from_str("\n      ").concat(rest.as_str());
        proof {
            reveal_strlit("\n      ");
            assert(r@ =~= seq!['\n', ' ', ' ', ' ', ' ', ' ', ' '] + indent6_rest(
                s@.subrange(1, s@.len() as int),
            ));
        }
        r
    } else {
        let mut r = crate::desctext::char_string(c);
        r.append(rest.as_str());
        proof {
            assert(r@ =~= seq![s@[0]] + indent6_rest(s@.subrange(1, s@.len() as int)));
        }
        r
    }
}

fn indent6_block_exec(s: &str) -> (r: String)
    ensures
        r@ == indent6_block(s@),
{
    let n = s.unicode_len();
    if n == 0 {
        return String::new();
    }
    let r = String::from_str("      ").concat(indent6_rest_exec(s).as_str()).concat("\n");
    proof {
        reveal_strlit("      ");
        reveal_strlit("\n");
        assert(r@ =~= seq![' ', ' ', ' ', ' ', ' ', ' '] + indent6_rest(s@) + seq!['\n']);
    }
    r
}

/// One rendered detail: its type URL heading and either the formatter's
/// indented rendering or the payload size.
pub open spec fn detail_block(url: Seq<char>, value_len: int, rendered: Option<String>) -> Seq<
    char,
> {
    match rendered {
        Some(text) => "  - "@ + url + seq!['\n'] + indent6_block(text@),
        None => "  - "@ + url + " ("@ + dec_str(value_len) + " bytes)"@ + seq!['\n'],
    }
}

/// The rendered details, in order, among the first `n`.
pub open spec fn details_text(
    details: Seq<AnyDetail>,
    rendered: Seq<Option<String>>,
    n: int,
) -> Seq<char>
    decreases n,
{
    if n <= 0 {
        Seq::empty()
    } else {
        details_text(details, rendered, n - 1) + detail_block(
            details[n - 1].type_url@,
            details[n - 1].value@.len() as int,
            rendered[n - 1],
        )
    }
}

/// The full status stanza with its details block: the `OK` or `ERROR`
/// stanza, then, for a failing status that carries details, a `Details:`
/// heading and one block per detail — the formatter's indented rendering
/// where the caller could resolve the type, the payload size otherwise.
pub open spec fn status_details_text(
    code: StatusCode,
    message: Seq<char>,
    details: Seq<AnyDetail>,
    rendered: Seq<Option<String>>,
) -> Seq<char> {
    crate::invoke::status_text_spec(code, message) + (if code != StatusCode::Okay
        && details.len() > 0 {
        "  Details:\n"@ + details_text(details, rendered, details.len() as int)
    } else {
        Seq::empty()
    })
}

/// Render a gRPC status with its decoded details, pairing each detail
/// with the caller's rendering of it when its type could be resolved.
pub fn status_details_stanza(
    code: StatusCode,
    message: &str,
    details: &Vec<AnyDetail>,
    rendered: &Vec<Option<String>>,
) -> (r: String)
    requires
        details@.len() == rendered@.len(),
    ensures
        r@ == status_details_text(code, message@, details@, rendered@),
{
    let mut out = crate::invoke::status_stanza(code, message);
    if matches!(code, StatusCode::Okay) || details.len() == 0 {
        proof {
            assert(out@ =~= status_details_text(code, message@, details@, rendered@));
        }
        return out;
    }
    out = out.concat("  Details:\n");
    let ghost head = crate::invoke::status_text_spec(code, message@) + "  Details:\n"@;
    let mut i: usize = 0;
    proof {
        assert(out@ =~= head + details_text(details@, rendered@, 0));
    }
    while i < details.len()
        invariant
            0 <= i <= details@.len(),
            details@.len() == rendered@.len(),
            head == crate::invoke::status_text_spec(code, message@) + "  Details:\n"@,
            out@ == head + details_text(details@, rendered@, i as int),
        decreases details@.len() - i,
    {
        let d = &details[i];
        match &rendered[i] {
            Some(text) => {
                out = out.concat("  - ").concat(d.type_url.as_str()).concat("\n").concat(
                    indent6_block_exec(text.as_str()).as_str(),
                );
                proof {
                    reveal_strlit("\n");
                    assert(out@ =~= head + details_text(details@, rendered@, i as int + 1));
                }
            },
            None => {
                out = out.concat("  - ").concat(d.type_url.as_str()).concat(" (").concat(
                    u64_to_string(d.value.len() as u64).as_str(),
                ).concat(" bytes)").concat("\n");
                proof {
                    reveal_strlit("\n");
                    assert(out@ =~= head + details_text(details@, rendered@, i as int + 1));
                }
            },
        }
        i = i + 1;
    }
    proof {
        assert(out@ =~= status_details_text(code, message@, details@, rendered@));
    }
    out
}

} // verus!