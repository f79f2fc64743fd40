use vstd::prelude::*;
use crate::errors::GrpcurlError;
use crate::strutil::find_char;
use crate::strutil::find_char_pos;
use crate::strutil::lemma_find_char_pos;
use crate::strutil::trim_spec;
use crate::strutil::trim_start_pos;
use crate::strutil::trim_start_index;
use crate::strutil::trim_str;

verus! {

/// The outcome of asking a request parser for the next message when none
/// comes: end of input, or a failure.
#[derive(Debug)]
pub enum ParseError {
    /// No more messages to parse.
    Eof,
    /// A parse failure.
    Error(GrpcurlError),
}

/// What one `next` call on the text parser yields and how it moves the
/// state: the message text (or `None` at end of input), the new offset,
/// and the new count.
pub open spec fn text_next_spec(data: Seq<char>, offset: int, num: int) -> (
    Option<Seq<char>>,
    int,
    int,
) {
    let remaining = data.subrange(offset, data.len() as int);
    if trim_spec(remaining).len() == 0 {
        if num == 0 {
            (Some(Seq::empty()), data.len() as int, 1)
        } else {
            (None, offset, num)
        }
    } else {
        let p = find_char_pos(remaining, '\u{1e}');
        let consumed = if p < remaining.len() {
            p + 1
        } else {
            remaining.len() as int
        };
        let text = trim_spec(remaining.subrange(0, p));
        if text.len() == 0 {
            if num == 0 {
                (Some(Seq::empty()), offset + consumed, 1)
            } else {
                (None, offset + consumed, num)
            }
        } else {
            (Some(text), offset + consumed, num + 1)
        }
    }
}

/// Protobuf text format request parser. Messages are separated by the
/// 0x1E record separator; `next` yields the trimmed text of one message.
/// On the very first call with empty input it yields one empty text (an
/// empty message); later calls report end of input.
pub struct TextRequestParser {
    pub data: String,
    pub offset: usize,
    pub count: usize,
}

impl TextRequestParser {
    /// A parser over the given request data (absent data parses as empty).
    pub fn new(data: Option<&str>) -> (r: TextRequestParser)
        ensures
            (match data {
                Some(s) => r.data@ == s@,
                None => r.data@ == Seq::<char>::empty(),
            }),
            r.offset == 0,
            r.count == 0,
    {
        let d = match data {
            Some(s) => s.to_owned(),
            None => String::new(),
        };
        TextRequestParser { data: d, offset: 0, count: 0 }
    }

    /// The number of messages yielded so far.
    pub fn num_requests(&self) -> (n: usize)
        ensures
            n == self.count,
    {
        self.count
    }

    /// The text of the next message, or end of input.
    pub fn next(&mut self) -> (r: Result<String, ParseError>)
        requires
            old(self).offset <= old(self).data@.len(),
            old(self).count < usize::MAX,
        ensures
            final(self).data@ == old(self).data@,
            ({
                let (t, off2, num2) = text_next_spec(
                    old(self).data@,
                    old(self).offset as int,
                    old(self).count as int,
                );
                &&& final(self).offset == off2
                &&& final(self).count == num2
                &&& (match r {
                    Ok(s) => t == Some(s@),
                    Err(e) => t is None && e is Eof,
                })
            }),
    {
        let n = self.data.as_str().unicode_len();
        let remaining = self.data.as_str().substring_char(self.offset, n);
        let rn = remaining.unicode_len();
        let trimmed_all = trim_str(remaining);
        if trimmed_all.unicode_len() == 0 {
            if self.count == 0 {
                self.offset = n;
                self.count = 1;
                return Ok(String::new());
            }
            return Err(ParseError::Eof);
        }
        proof {
            lemma_find_char_pos(remaining@, '\u{1e}');
        }
        let p = find_char(remaining, '\u{1e}');
        let consumed = if p < rn {
            p + 1
        } else {
            rn
        };
        let text = trim_str(remaining.substring_char(0, p));
        if text.unicode_len() == 0 {
            self.offset = self.offset + consumed;
            if self.count == 0 {
                self.count = 1;
                return Ok(String::new());
            }
            return Err(ParseError::Eof);
        }
        self.offset = self.offset + consumed;
        self.count = self.count + 1;
        Ok(text.to_owned())
    }
}

/// How many characters of `s` the first JSON value reaches through, when
/// `s` begins with one: what serde_json's streaming deserializer consumes
/// depends on the characters alone.
pub uninterp spec fn json_scan(s: Seq<char>) -> Option<int>;

/// Relies on serde_json's StreamDeserializer: reads exactly one JSON
/// value from the front of `s` and reports how far it reached; the result
/// depends on the characters alone. A value takes at least one character
/// and ends within the input.
#[verifier::external_body]
fn json_value_len(s: &str) -> (r: Option<usize>)
    ensures
        (match r {
            Some(k) => Some(k as int),
            None => None,
        }) == json_scan(s@),
        r matches Some(k) ==> 0 < k <= s@.len(),
{
    let mut stream = serde_json::Deserializer::from_str(s).into_iter::<serde_json::Value>();
    match stream.next() {
        Some(Ok(_)) => {
            let bytes = stream.byte_offset();
            Some(s[..bytes].chars().count())
        },
        _ => None,
    }
}

/// What one `next` call on the JSON parser yields and how it moves the
/// state: the raw text of one JSON value (or `None` at end of input or on
/// invalid JSON), the new offset, and the new count.
pub open spec fn json_next_spec(data: Seq<char>, offset: int, num: int) -> (
    Option<Seq<char>>,
    int,
    int,
) {
    let remaining = data.subrange(offset, data.len() as int);
    let ws = trim_start_pos(remaining);
    if ws == remaining.len() {
        (None, offset, num)
    } else {
        let start = offset + ws;
        match json_scan(data.subrange(start, data.len() as int)) {
            Some(k) => (Some(data.subrange(start, start + k)), start + k, num + 1),
            None => (None, start, num),
        }
    }
}

/// Whether one `next` call on the JSON parser fails with a parse error
/// rather than ending the input.
pub open spec fn json_next_is_parse_error(data: Seq<char>, offset: int) -> bool {
    let remaining = data.subrange(offset, data.len() as int);
    let ws = trim_start_pos(remaining);
    ws < remaining.len() && json_scan(data.subrange(offset + ws, data.len() as int)) is None
}

/// Streaming JSON request parser: `next` skips whitespace, reads exactly
/// one JSON value, and yields its raw text; several values may follow one
/// another. The value's decoding into a message happens downstream.
pub struct JsonRequestParser {
    pub data: String,
    pub offset: usize,
    pub count: usize,
}

impl JsonRequestParser {
    /// A parser over the given request data (absent data parses as empty).
    pub fn new(data: Option<&str>) -> (r: JsonRequestParser)
        ensures
            (match data {
                Some(s) => r.data@ == s@,
                None => r.data@ == Seq::<char>::empty(),
            }),
            r.offset == 0,
            r.count == 0,
    {
        let d = match data {
            Some(s) => s.to_owned(),
            None => String::new(),
        };
        JsonRequestParser { data: d, offset: 0, count: 0 }
    }

    /// The number of messages yielded so far.
    pub fn num_requests(&self) -> (n: usize)
        ensures
            n == self.count,
    {
        self.count
    }

    /// The raw text of the next JSON value, or end of input, or a parse
    /// error on invalid JSON.
    pub fn next(&mut self) -> (r: Result<String, ParseError>)
        requires
            old(self).offset <= old(self).data@.len(),
            old(self).count < usize::MAX,
        ensures
            final(self).data@ == old(self).data@,
            ({
                let (t, off2, num2) = json_next_spec(
                    old(self).data@,
                    old(self).offset as int,
                    old(self).count as int,
                );
                &&& final(self).offset == off2
                &&& final(self).count == num2
                &&& (match r {
                    Ok(s) => t == Some(s@),
                    Err(e) => t is None && (if json_next_is_parse_error(
                        old(self).data@,
                        old(self).offset as int,
                    ) {
                        e matches ParseError::Error(ge) && ge matches GrpcurlError::Proto(m) && m@
                            == "invalid JSON in request data"@
                    } else {
                        e is Eof
                    }),
                })
            }),
    {
        let n = self.data.as_str().unicode_len();
        let remaining = self.data.as_str().substring_char(self.offset, n);
        let ws = trim_start_index(remaining);
        if ws == remaining.unicode_len() {
            return Err(ParseError::Eof);
        }
        let start = self.offset + ws;
        let rest = self.data.as_str().substring_char(start, n);
        proof {
            assert(rest@ =~= old(self).data@.subrange(start as int, old(self).data@.len() as int));
        }
        match json_value_len(rest) {
            Some(k) => {
                proof {
                    assert(k as int <= rest@.len());
                    assert(start as int + k as int <= n as int);
                }
                let text = self.data.as_str().substring_char(start, start + k);
                self.offset = start + k;
                self.count = self.count + 1;
                Ok(text.to_owned())
            },
            None => {
                self.offset = start;
                Err(
                    ParseError::Error(
                        GrpcurlError::Proto(String::from_str("invalid JSON in request data")),
                    ),
                )
            },
        }
    }
}

/// A request parser of either format.
pub enum RequestParser {
    Json(JsonRequestParser),
    Text(TextRequestParser),
}

impl RequestParser {
    /// The number of messages yielded so far.
    pub fn num_requests(&self) -> (n: usize)
        ensures
            n == (match *self {
                RequestParser::Json(p) => p.count,
                RequestParser::Text(p) => p.count,
            }),
    {
        match self {
            RequestParser::Json(p) => p.num_requests(),
            RequestParser::Text(p) => p.num_requests(),
        }
    }
}

/// Parser counting: one `next` call on the text parser raises the count by
/// exactly one when it yields a message, and leaves it unchanged at end of
/// input. Repeated calls until end of input therefore yield exactly
/// `num_requests()` messages, and the count never moves otherwise.
pub proof fn lemma_text_parser_counting(data: Seq<char>, offset: int, num: int)
    ensures
        ({
            let (t, off2, num2) = text_next_spec(data, offset, num);
            &&& (t is Some ==> num2 == num + 1)
            &&& (t is None ==> num2 == num)
        }),
{
}

/// Parser counting: one `next` call on the JSON parser raises the count by
/// exactly one when it yields a message, and leaves it unchanged at end of
/// input or on a parse error.
pub proof fn lemma_json_parser_counting(data: Seq<char>, offset: int, num: int)
    ensures
        ({
            let (t, off2, num2) = json_next_spec(data, offset, num);
            &&& (t is Some ==> num2 == num + 1)
            &&& (t is None ==> num2 == num)
        }),
{
}

} // verus!
