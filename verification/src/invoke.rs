use vstd::prelude::*;
use crate::errors::GrpcurlError;
use crate::errors::StatusCode;
use crate::errors::code_name_spec;
use crate::errors::code_number_spec;
use crate::errors::status_code_name;
use crate::format::Format;
use crate::format::FormatOptions;
use crate::strutil::dec_str;
use crate::strutil::rfind_char;
use crate::strutil::rfind_char_pos;
use crate::strutil::u64_to_string;

verus! {

/// Configuration for invoking an RPC method, as plain values.
#[derive(Debug)]
pub struct InvokeConfig {
    /// The format of request and response data.
    pub format: Format,
    /// Emit default values for JSON-encoded responses.
    pub emit_defaults: bool,
    /// Allow unknown fields in JSON input.
    pub allow_unknown_fields: bool,
    /// Render a non-zero status with the configured formatter.
    pub format_error: bool,
    /// Request contents; `@` means the caller reads them from its input.
    pub data: Option<String>,
    /// Headers sent with every request.
    pub headers: Vec<String>,
    /// Headers sent only with the RPC itself.
    pub rpc_headers: Vec<String>,
    /// Expand `${NAME}` references in header values.
    pub expand_headers: bool,
    /// Maximum encoded size of a response message, in bytes.
    pub max_msg_sz: Option<i32>,
    /// Verbosity level: 0 default, 1 verbose, 2 very verbose.
    pub verbosity: u8,
    /// File to write a descriptor-set export to.
    pub protoset_out: Option<String>,
    /// Directory to write proto source exports to.
    pub proto_out_dir: Option<String>,
}

/// The result of an RPC invocation: the final status (code and message),
/// and how many messages went each way. A status is always present when
/// the call reached the server.
#[derive(Debug)]
pub struct InvokeResult {
    pub status: Option<(StatusCode, String)>,
    /// The raw `grpc-status-details-bin` trailer of a failing status, for
    /// the details decoder.
    pub status_details: Vec<u8>,
    pub num_requests: usize,
    pub num_responses: usize,
}

/// The event sink used for verbose traces: it remembers the configured
/// format, options and verbosity, and renders what the engine reports.
#[derive(Debug)]
pub struct DefaultEventHandler {
    pub format: Format,
    pub options: FormatOptions,
    pub verbosity: u8,
}

impl DefaultEventHandler {
    /// A handler for the given format, options and verbosity.
    pub fn new(format: Format, options: FormatOptions, verbosity: u8) -> (r: DefaultEventHandler)
        ensures
            r.format == format,
            r.options == options,
            r.verbosity == verbosity,
    {
        DefaultEventHandler { format, options, verbosity }
    }
}

/// The four streaming shapes of a gRPC method.
#[derive(Debug, Clone, Copy, PartialEq, Eq, Structural)]
pub enum StreamingShape {
    Unary,
    ServerStream,
    ClientStream,
    BidiStream,
}

/// The streaming shape a method's two flags dispatch to.
pub fn streaming_shape(client_streaming: bool, server_streaming: bool) -> (r: StreamingShape)
    ensures
        r == (if client_streaming {
            if server_streaming {
                StreamingShape::BidiStream
            } else {
                StreamingShape::ClientStream
            }
        } else {
            if server_streaming {
                StreamingShape::ServerStream
            } else {
                StreamingShape::Unary
            }
        }),
{
    match (client_streaming, server_streaming) {
        (false, false) => StreamingShape::Unary,
        (false, true) => StreamingShape::ServerStream,
        (true, false) => StreamingShape::ClientStream,
        (true, true) => StreamingShape::BidiStream,
    }
}

/// Where a method symbol splits: at the last `/`, or failing that the last
/// `.`; -1 when it holds neither.
pub open spec fn method_split_pos(sym: Seq<char>) -> int {
    if rfind_char_pos(sym, '/') >= 0 {
        rfind_char_pos(sym, '/')
    } else {
        rfind_char_pos(sym, '.')
    }
}

/// Split a fully-qualified method symbol into its service and method
/// names, at the last `/` or, failing that, the last `.`. A symbol with
/// neither separator is an invalid argument.
pub fn split_method_name(symbol: &str) -> (r: Result<(String, String), GrpcurlError>)
    ensures
        method_split_pos(symbol@) >= 0 ==> (r matches Ok(p) && p.0@ == symbol@.subrange(
            0,
            method_split_pos(symbol@),
        ) && p.1@ == symbol@.subrange(method_split_pos(symbol@) + 1, symbol@.len() as int)),
        method_split_pos(symbol@) < 0 ==> (r matches Err(e)
            && e matches GrpcurlError::InvalidArgument(m) && m@
            == "method name must be in the form 'Service/Method' or 'Service.Method': "@
            + symbol@),
{
    let n = symbol.unicode_len();
    let pos = match rfind_char(symbol, '/') {
        Some(p) => Some(p),
        None => rfind_char(symbol, '.'),
    };
    match pos {
        Some(p) => {
            let service = symbol.substring_char(0, p).to_owned();
            let method = symbol.substring_char(p + 1, n).to_owned();
            Ok((service, method))
        },
        None => Err(
            GrpcurlError::InvalidArgument(
                String::from_str(
                    "method name must be in the form 'Service/Method' or 'Service.Method': ",
                ).concat(symbol),
            ),
        ),
    }
}

/// The request count a unary or server-streaming call reports: at least
/// one, since an empty input still sends one default message.
pub fn unary_request_count(parsed: usize) -> (r: usize)
    ensures
        r == (if parsed == 0 {
            1int
        } else {
            parsed as int
        }),
{
    if parsed == 0 {
        1
    } else {
        parsed
    }
}

/// The verbose summary line: `Sent N request(s) and received M
/// response(s)`, with singular words at one.
pub open spec fn summary_line_spec(nreq: int, nresp: int) -> Seq<char> {
    "Sent "@ + dec_str(nreq) + (if nreq == 1 {
        " request"@
    } else {
        " requests"@
    }) + " and received "@ + dec_str(nresp) + (if nresp == 1 {
        " response"@
    } else {
        " responses"@
    })
}

/// Render the verbose summary line for an invocation.
pub fn summary_line(num_requests: usize, num_responses: usize) -> (r: String)
    ensures
        r@ == summary_line_spec(num_requests as int, num_responses as int),
{
    let req_word = if num_requests == 1 {
        " request"
    } else {
        " requests"
    };
    let resp_word = if num_responses == 1 {
        " response"
    } else {
        " responses"
    };
    let r = String::from_str("Sent ").concat(
        u64_to_string(num_requests as u64).as_str(),
    ).concat(req_word).concat(" and received ").concat(
        u64_to_string(num_responses as u64).as_str(),
    ).concat(resp_word);
    proof {
        assert(r@ =~= summary_line_spec(num_requests as int, num_responses as int));
    }
    r
}

/// The human-readable status stanza: `OK` for success, otherwise the
/// error block with the canonical code name and the message.
pub open spec fn status_text_spec(code: StatusCode, message: Seq<char>) -> Seq<char> {
    if code == StatusCode::Okay {
        "OK\n"@
    } else {
        "ERROR:\n  Code: "@ + code_name_spec(code) + "\n  Message: "@ + message + "\n"@
    }
}

/// Render a gRPC status as the human-readable stanza.
pub fn status_stanza(code: StatusCode, message: &str) -> (r: String)
    ensures
        r@ == status_text_spec(code, message@),
{
    if matches!(code, StatusCode::Okay) {
        String::from_str("OK\n")
    } else {
        let r = String::from_str("ERROR:\n  Code: ").concat(status_code_name(code)).concat(
            "\n  Message: ",
        ).concat(message).concat("\n");
        proof {
            assert(r@ =~= status_text_spec(code, message@));
        }
        r
    }
}

/// The process exit code for a completed invocation: 0 on an OK status,
/// `64 + code` otherwise, clear of the setup and usage exit codes.
pub fn status_exit_code(code: StatusCode) -> (c: i32)
    ensures
        code == StatusCode::Okay ==> c == 0,
        code != StatusCode::Okay ==> c == 64 + code_number_spec(code),
{
    if matches!(code, StatusCode::Okay) {
        0
    } else {
        64 + code.number()
    }
}

} // verus!
