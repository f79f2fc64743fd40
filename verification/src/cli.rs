use vstd::prelude::*;
use crate::connection::ConnectionConfig;
use crate::format::Format;
use crate::invoke::InvokeConfig;
use crate::strutil::copy_strings;
use crate::strutil::find_char;
use crate::strutil::find_char_pos;
use crate::strutil::lemma_find_char_pos;
use crate::strutil::str_eq;

verus! {

/// True of the known long flag names: `-name` is rewritten to `--name` for
/// exactly these.
pub open spec fn is_long_flag_name(name: Seq<char>) -> bool {
    ||| name == "plaintext"@
    ||| name == "insecure"@
    ||| name == "authority"@
    ||| name == "servername"@
    ||| name == "connect-timeout"@
    ||| name == "keepalive-time"@
    ||| name == "max-time"@
    ||| name == "unix"@
    ||| name == "cacert"@
    ||| name == "cert"@
    ||| name == "key"@
    ||| name == "alts"@
    ||| name == "alts-handshaker-service"@
    ||| name == "alts-target-service-account"@
    ||| name == "proto"@
    ||| name == "import-path"@
    ||| name == "protoset"@
    ||| name == "use-reflection"@
    ||| name == "format"@
    ||| name == "allow-unknown-fields"@
    ||| name == "emit-defaults"@
    ||| name == "msg-template"@
    ||| name == "format-error"@
    ||| name == "rpc-header"@
    ||| name == "reflect-header"@
    ||| name == "expand-headers"@
    ||| name == "user-agent"@
    ||| name == "protoset-out"@
    ||| name == "proto-out-dir"@
    ||| name == "max-msg-sz"@
    ||| name == "vv"@
    ||| name == "help"@
    ||| name == "version"@
}

/// Whether `name` is one of the known long flag names.
pub fn is_long_flag(name: &str) -> (r: bool)
    ensures
        r == is_long_flag_name(name@),
{
    str_eq(name, "plaintext") || str_eq(name, "insecure") || str_eq(name, "authority") || str_eq(
        name,
        "servername",
    ) || str_eq(name, "connect-timeout") || str_eq(name, "keepalive-time") || str_eq(
        name,
        "max-time",
    ) || str_eq(name, "unix") || str_eq(name, "cacert") || str_eq(name, "cert") || str_eq(
        name,
        "key",
    ) || str_eq(name, "alts") || str_eq(name, "alts-handshaker-service") || str_eq(
        name,
        "alts-target-service-account",
    ) || str_eq(name, "proto") || str_eq(name, "import-path") || str_eq(name, "protoset")
        || str_eq(name, "use-reflection") || str_eq(name, "format") || str_eq(
        name,
        "allow-unknown-fields",
    ) || str_eq(name, "emit-defaults") || str_eq(name, "msg-template") || str_eq(
        name,
        "format-error",
    ) || str_eq(name, "rpc-header") || str_eq(name, "reflect-header") || str_eq(
        name,
        "expand-headers",
    ) || str_eq(name, "user-agent") || str_eq(name, "protoset-out") || str_eq(
        name,
        "proto-out-dir",
    ) || str_eq(name, "max-msg-sz") || str_eq(name, "vv") || str_eq(name, "help") || str_eq(
        name,
        "version",
    )
}

/// The flag-name part of an argument after its leading dash: everything up
/// to the first `=`.
pub open spec fn flag_name_of(rest: Seq<char>) -> Seq<char> {
    rest.subrange(0, find_char_pos(rest, '='))
}

/// A single argument after single-dash normalization: `-name` and
/// `-name=value` gain a second dash when `name` is a known long flag;
/// everything else is left as it stands.
pub open spec fn normalized_arg(arg: Seq<char>) -> Seq<char> {
    if arg.len() >= 2 && arg[0] == '-' && arg[1] == '-' {
        arg
    } else if arg.len() >= 1 && arg[0] == '-' && is_long_flag_name(
        flag_name_of(arg.subrange(1, arg.len() as int)),
    ) {
        seq!['-'] + arg
    } else {
        arg
    }
}

/// Normalize one argument for single-dash long-flag compatibility.
fn normalize_arg(arg: &String) -> (r: String)
    ensures
        r@ == normalized_arg(arg@),
{
    let s = arg.as_str();
    let n = s.unicode_len();
    if n >= 1 && s.get_char(0) == '-' {
        if n >= 2 && s.get_char(1) == '-' {
            arg.clone()
        } else {
            let rest = s.substring_char(1, n);
            proof {
                lemma_find_char_pos(rest@, '=');
            }
            let e = find_char(rest, '=');
            let name = rest.substring_char(0, e);
            if is_long_flag(name) {
                let r = String::from_str("-").concat(s);
                proof {
                    reveal_strlit("-");
                    assert(r@ =~= seq!['-'] + arg@);
                }
                r
            } else {
                arg.clone()
            }
        }
    } else {
        arg.clone()
    }
}

/// Normalize command-line arguments for single-dash long-flag
/// compatibility: `-plaintext` becomes `--plaintext`, while true short
/// flags (`-d`, `-H`, `-v`, `-V`) and already-double-dashed flags are left
/// untouched.
pub fn normalize_args(args: &Vec<String>) -> (r: Vec<String>)
    ensures
        r@.len() == args@.len(),
        forall|i: int| 0 <= i < args@.len() ==> r@[i]@ == normalized_arg(args@[i]@),
{
    let mut out: Vec<String> = Vec::new();
    let mut i: usize = 0;
    while i < args.len()
        invariant
            0 <= i <= args@.len(),
            out@.len() == i,
            forall|j: int| 0 <= j < i ==> out@[j]@ == normalized_arg(args@[j]@),
        decreases args@.len() - i,
    {
        out.push(normalize_arg(&args[i]));
        i = i + 1;
    }
    out
}

/// Whether two optional strings hold the same characters.
pub open spec fn opt_view_eq(a: Option<String>, b: Option<String>) -> bool {
    match (a, b) {
        (Some(x), Some(y)) => x@ == y@,
        (None, None) => true,
        _ => false,
    }
}

/// Copy an optional string.
fn clone_opt(o: &Option<String>) -> (r: Option<String>)
    ensures
        opt_view_eq(r, *o),
{
    match o {
        Some(s) => Some(s.clone()),
        None => None,
    }
}

/// The resolved command to execute.
#[derive(Debug, Clone, Copy, PartialEq, Eq, Structural)]
pub enum Command {
    List,
    Describe,
    Invoke,
}

/// Result of parsing and validating positional arguments.
#[derive(Debug)]
pub struct ParsedArgs {
    pub address: Option<String>,
    pub command: Command,
    pub symbol: Option<String>,
}

/// All recognized flags and positional arguments, as plain values. Time
/// flags are carried in milliseconds.
#[derive(Debug)]
pub struct Cli {
    pub plaintext: bool,
    pub insecure: bool,
    pub authority: Option<String>,
    pub servername: Option<String>,
    pub connect_timeout_ms: Option<i64>,
    pub keepalive_time_ms: Option<i64>,
    pub max_time_ms: Option<i64>,
    pub unix: bool,
    pub cacert: Option<String>,
    pub cert: Option<String>,
    pub key: Option<String>,
    pub alts: bool,
    pub alts_handshaker_service: Option<String>,
    pub alts_target_service_account: Vec<String>,
    pub proto: Vec<String>,
    pub import_path: Vec<String>,
    pub protoset: Vec<String>,
    pub use_reflection: Option<bool>,
    pub data: Option<String>,
    pub format: Format,
    pub allow_unknown_fields: bool,
    pub emit_defaults: bool,
    pub msg_template: bool,
    pub format_error: bool,
    pub header: Vec<String>,
    pub rpc_header: Vec<String>,
    pub reflect_header: Vec<String>,
    pub expand_headers: bool,
    pub user_agent: Option<String>,
    pub protoset_out: Option<String>,
    pub proto_out_dir: Option<String>,
    pub max_msg_sz: Option<i32>,
    pub verbose: bool,
    pub very_verbose: bool,
    pub args: Vec<String>,
}

impl Default for Cli {
    /// Every flag off, every option absent, format `json`.
    fn default() -> (r: Self)
        ensures
            !r.plaintext && !r.insecure && !r.unix && !r.alts,
            r.authority is None && r.servername is None,
            r.connect_timeout_ms is None && r.keepalive_time_ms is None && r.max_time_ms is None,
            r.cacert is None && r.cert is None && r.key is None,
            r.alts_handshaker_service is None,
            r.alts_target_service_account@.len() == 0,
            r.proto@.len() == 0 && r.import_path@.len() == 0 && r.protoset@.len() == 0,
            r.use_reflection is None,
            r.data is None,
            r.format == Format::Json,
            !r.allow_unknown_fields && !r.emit_defaults && !r.msg_template && !r.format_error,
            r.header@.len() == 0 && r.rpc_header@.len() == 0 && r.reflect_header@.len() == 0,
            !r.expand_headers,
            r.user_agent is None && r.protoset_out is None && r.proto_out_dir is None,
            r.max_msg_sz is None,
            !r.verbose && !r.very_verbose,
            r.args@.len() == 0,
    {
        Cli {
            plaintext: false,
            insecure: false,
            authority: None,
            servername: None,
            connect_timeout_ms: None,
            keepalive_time_ms: None,
            max_time_ms: None,
            unix: false,
            cacert: None,
            cert: None,
            key: None,
            alts: false,
            alts_handshaker_service: None,
            alts_target_service_account: Vec::new(),
            proto: Vec::new(),
            import_path: Vec::new(),
            protoset: Vec::new(),
            use_reflection: None,
            data: None,
            format: Format::Json,
            allow_unknown_fields: false,
            emit_defaults: false,
            msg_template: false,
            format_error: false,
            header: Vec::new(),
            rpc_header: Vec::new(),
            reflect_header: Vec::new(),
            expand_headers: false,
            user_agent: None,
            protoset_out: None,
            proto_out_dir: None,
            max_msg_sz: None,
            verbose: false,
            very_verbose: false,
            args: Vec::new(),
        }
    }
}

impl Cli {
    /// The transport-only options these flags call for.
    pub fn connection_config(&self) -> (r: ConnectionConfig)
        ensures
            r.plaintext == self.plaintext,
            r.insecure == self.insecure,
            opt_view_eq(r.authority, self.authority),
            opt_view_eq(r.servername, self.servername),
            r.connect_timeout_ms == self.connect_timeout_ms,
            r.keepalive_time_ms == self.keepalive_time_ms,
            r.max_time_ms == self.max_time_ms,
            r.unix == self.unix,
            opt_view_eq(r.cacert, self.cacert),
            opt_view_eq(r.cert, self.cert),
            opt_view_eq(r.key, self.key),
            r.alts == self.alts,
            opt_view_eq(r.user_agent, self.user_agent),
            r.max_msg_sz == self.max_msg_sz,
    {
        ConnectionConfig {
            plaintext: self.plaintext,
            insecure: self.insecure,
            authority: clone_opt(&self.authority),
            servername: clone_opt(&self.servername),
            connect_timeout_ms: self.connect_timeout_ms,
            keepalive_time_ms: self.keepalive_time_ms,
            max_time_ms: self.max_time_ms,
            unix: self.unix,
            cacert: clone_opt(&self.cacert),
            cert: clone_opt(&self.cert),
            key: clone_opt(&self.key),
            alts: self.alts,
            user_agent: clone_opt(&self.user_agent),
            max_msg_sz: self.max_msg_sz,
        }
    }

    /// The invocation options these flags call for.
    pub fn invoke_config(&self) -> (r: InvokeConfig)
        ensures
            r.format == self.format,
            r.emit_defaults == self.emit_defaults,
            r.allow_unknown_fields == self.allow_unknown_fields,
            r.format_error == self.format_error,
            opt_view_eq(r.data, self.data),
            crate::strutil::views_of(r.headers@) == crate::strutil::views_of(self.header@),
            crate::strutil::views_of(r.rpc_headers@) == crate::strutil::views_of(
                self.rpc_header@,
            ),
            r.expand_headers == self.expand_headers,
            r.max_msg_sz == self.max_msg_sz,
            r.verbosity == (if self.very_verbose {
                2u8
            } else if self.verbose {
                1u8
            } else {
                0u8
            }),
            opt_view_eq(r.protoset_out, self.protoset_out),
            opt_view_eq(r.proto_out_dir, self.proto_out_dir),
    {
        InvokeConfig {
            format: self.format,
            emit_defaults: self.emit_defaults,
            allow_unknown_fields: self.allow_unknown_fields,
            format_error: self.format_error,
            data: clone_opt(&self.data),
            headers: copy_strings(&self.header),
            rpc_headers: copy_strings(&self.rpc_header),
            expand_headers: self.expand_headers,
            max_msg_sz: self.max_msg_sz,
            verbosity: self.verbosity(),
            protoset_out: clone_opt(&self.protoset_out),
            proto_out_dir: clone_opt(&self.proto_out_dir),
        }
    }

    /// The verbosity level: 2 under `--vv`, 1 under `-v`, 0 otherwise.
    pub fn verbosity(&self) -> (v: u8)
        ensures
            v == (if self.very_verbose {
                2u8
            } else if self.verbose {
                1u8
            } else {
                0u8
            }),
    {
        if self.very_verbose {
            2
        } else if self.verbose {
            1
        } else {
            0
        }
    }
}

} // verus!
