use vstd::prelude::*;
use crate::cli::Cli;
use crate::cli::Command;
use crate::cli::ParsedArgs;
use crate::format::Format;
use crate::strutil::str_eq;

verus! {

/// The character sequences of a list of strings.
pub open spec fn views_of(ws: Seq<String>) -> Seq<Seq<char>> {
    ws.map_values(|s: String| s@)
}

/// The character sequence of an optional string.
pub open spec fn opt_str_view(o: Option<String>) -> Option<Seq<char>> {
    match o {
        Some(s) => Some(s@),
        None => None,
    }
}

/// TLS is in use unless plaintext or ALTS was asked for.
pub open spec fn spec_use_tls(c: Cli) -> bool {
    !c.plaintext && !c.alts
}

/// The first failing flag rule, before positional arguments are looked at.
pub open spec fn flags_error(c: Cli) -> Option<Seq<char>> {
    if (match c.connect_timeout_ms {
        Some(t) => t < 0,
        None => false,
    }) {
        Some("The --connect-timeout argument must not be negative."@)
    } else if (match c.keepalive_time_ms {
        Some(t) => t < 0,
        None => false,
    }) {
        Some("The --keepalive-time argument must not be negative."@)
    } else if (match c.max_time_ms {
        Some(t) => t < 0,
        None => false,
    }) {
        Some("The --max-time argument must not be negative."@)
    } else if (match c.max_msg_sz {
        Some(sz) => sz < 0,
        None => false,
    }) {
        Some("The --max-msg-sz argument must not be negative."@)
    } else if c.plaintext && c.alts {
        Some("The --plaintext and --alts arguments are mutually exclusive."@)
    } else if c.insecure && !spec_use_tls(c) {
        Some("The --insecure argument can only be used with TLS."@)
    } else if c.cert is Some && !spec_use_tls(c) {
        Some("The --cert argument can only be used with TLS."@)
    } else if c.key is Some && !spec_use_tls(c) {
        Some("The --key argument can only be used with TLS."@)
    } else if (c.cert is Some) != (c.key is Some) {
        Some("The --cert and --key arguments must be used together and both be present."@)
    } else if c.alts_handshaker_service is Some && !c.alts {
        Some("The --alts-handshaker-service argument must be used with the --alts argument."@)
    } else if c.alts_target_service_account@.len() > 0 && !c.alts {
        Some("The --alts-target-service-account argument must be used with the --alts argument."@)
    } else {
        None
    }
}

/// Whether the first positional argument is an address (it is unless it is
/// one of the two verbs).
pub open spec fn takes_address(c: Cli) -> bool {
    c.args@.len() > 0 && c.args@[0]@ != "list"@ && c.args@[0]@ != "describe"@
}

/// The index of the first positional argument after the address.
pub open spec fn addr_offset(c: Cli) -> int {
    if takes_address(c) {
        1
    } else {
        0
    }
}

/// The command named by the first positional after the address; anything
/// but the two verbs means invoke. Meaningful when such a positional
/// exists.
pub open spec fn spec_command(c: Cli) -> Command {
    if c.args@[addr_offset(c)]@ == "list"@ {
        Command::List
    } else if c.args@[addr_offset(c)]@ == "describe"@ {
        Command::Describe
    } else {
        Command::Invoke
    }
}

/// The index of the first positional after the verb (the verb itself, for
/// invoke).
pub open spec fn cmd_offset(c: Cli) -> int {
    if spec_command(c) == Command::Invoke {
        addr_offset(c)
    } else {
        addr_offset(c) + 1
    }
}

/// The symbol positional, when present.
pub open spec fn spec_symbol(c: Cli) -> Option<Seq<char>> {
    if cmd_offset(c) < c.args@.len() {
        Some(c.args@[cmd_offset(c)]@)
    } else {
        None
    }
}

/// The index after the symbol positional.
pub open spec fn sym_offset(c: Cli) -> int {
    if cmd_offset(c) < c.args@.len() {
        cmd_offset(c) + 1
    } else {
        cmd_offset(c)
    }
}

/// The address positional, when present.
pub open spec fn spec_address(c: Cli) -> Option<Seq<char>> {
    if takes_address(c) {
        Some(c.args@[0]@)
    } else {
        None
    }
}

/// The first failing validation rule, in the order the rules run; `None`
/// when every rule passes.
pub open spec fn validate_error(c: Cli) -> Option<Seq<char>> {
    if flags_error(c) is Some {
        flags_error(c)
    } else if c.args@.len() == 0 {
        Some("Too few arguments."@)
    } else if addr_offset(c) >= c.args@.len() {
        Some("Too few arguments."@)
    } else if spec_command(c) == Command::Invoke && cmd_offset(c) >= c.args@.len() {
        Some("Too few arguments."@)
    } else if sym_offset(c) < c.args@.len() {
        Some("Too many arguments."@)
    } else if spec_command(c) == Command::Invoke && !takes_address(c) {
        Some("No host:port specified."@)
    } else if !takes_address(c) && c.protoset@.len() == 0 && c.proto@.len() == 0 {
        Some("No host:port specified, no protoset specified, and no proto sources specified."@)
    } else if c.protoset@.len() > 0 && c.proto@.len() > 0 {
        Some("Use either --protoset files or --proto files, but not both."@)
    } else if (match c.use_reflection {
        Some(b) => !b,
        None => false,
    }) && c.protoset@.len() == 0 && c.proto@.len() == 0 {
        Some("No protoset files or proto files specified and --use-reflection set to false."@)
    } else if (match (c.servername, c.authority) {
        (Some(sn), Some(a)) => sn@ != a@,
        _ => false,
    }) {
        Some("Cannot specify different values for --servername and --authority."@)
    } else {
        None
    }
}

/// The flag rules all passed.
pub open spec fn past_flags(c: Cli) -> bool {
    flags_error(c) is None
}

/// A verb positional exists (enough arguments to know the command).
pub open spec fn have_verb(c: Cli) -> bool {
    c.args@.len() > 0 && addr_offset(c) < c.args@.len()
}

/// The argument-count rules all passed.
pub open spec fn past_count_rules(c: Cli) -> bool {
    &&& have_verb(c)
    &&& !(spec_command(c) == Command::Invoke && cmd_offset(c) >= c.args@.len())
    &&& !(sym_offset(c) < c.args@.len())
}

/// The address-presence rules all passed.
pub open spec fn past_address_rules(c: Cli) -> bool {
    &&& past_count_rules(c)
    &&& !(spec_command(c) == Command::Invoke && !takes_address(c))
    &&& !(!takes_address(c) && c.protoset@.len() == 0 && c.proto@.len() == 0)
}

/// The protoset/proto exclusivity rule also passed.
pub open spec fn past_exclusivity_rule(c: Cli) -> bool {
    past_address_rules(c) && !(c.protoset@.len() > 0 && c.proto@.len() > 0)
}

/// The reflection rule also passed.
pub open spec fn past_reflection_rule(c: Cli) -> bool {
    past_exclusivity_rule(c) && !((match c.use_reflection {
        Some(b) => !b,
        None => false,
    }) && c.protoset@.len() == 0 && c.proto@.len() == 0)
}

/// The emit-defaults warning, when emitted.
pub open spec fn warn_emit_defaults(c: Cli) -> Seq<Seq<char>> {
    if past_flags(c) && c.emit_defaults && c.format != Format::Json {
        seq!["The --emit-defaults is only used when using json format."@]
    } else {
        Seq::empty()
    }
}

/// The unused-data warning, when emitted.
pub open spec fn warn_data(c: Cli) -> Seq<Seq<char>> {
    if past_flags(c) && have_verb(c) && spec_command(c) != Command::Invoke && c.data is Some {
        seq!["The -d argument is not used with 'list' or 'describe' verb."@]
    } else {
        Seq::empty()
    }
}

/// The unused-rpc-header warning, when emitted.
pub open spec fn warn_rpc_header(c: Cli) -> Seq<Seq<char>> {
    if past_flags(c) && have_verb(c) && spec_command(c) != Command::Invoke && c.rpc_header@.len()
        > 0 {
        seq!["The --rpc-header argument is not used with 'list' or 'describe' verb."@]
    } else {
        Seq::empty()
    }
}

/// The unused-reflect-header warning, when emitted.
pub open spec fn warn_reflect_header(c: Cli) -> Seq<Seq<char>> {
    if past_flags(c) && past_address_rules(c) && c.protoset@.len() > 0 && c.reflect_header@.len()
        > 0 {
        seq!["The --reflect-header argument is not used when --protoset files are used."@]
    } else {
        Seq::empty()
    }
}

/// The unused-import-path warning, when emitted.
pub open spec fn warn_import_path(c: Cli) -> Seq<Seq<char>> {
    if past_flags(c) && past_exclusivity_rule(c) && c.import_path@.len() > 0 && c.proto@.len()
        == 0 {
        seq!["The --import-path argument is not used unless --proto files are used."@]
    } else {
        Seq::empty()
    }
}

/// The redundant-servername warning, when emitted.
pub open spec fn warn_servername(c: Cli) -> Seq<Seq<char>> {
    if past_flags(c) && past_reflection_rule(c) && (match (c.servername, c.authority) {
        (Some(sn), Some(a)) => sn@ == a@,
        _ => false,
    }) {
        seq!["Both --servername and --authority are present; prefer only --authority."@]
    } else {
        Seq::empty()
    }
}

/// The warnings emitted before the first failing rule, in emission order.
pub open spec fn validate_warnings(c: Cli) -> Seq<Seq<char>> {
    warn_emit_defaults(c) + warn_data(c) + warn_rpc_header(c) + warn_reflect_header(c)
        + warn_import_path(c) + warn_servername(c)
}

/// Check the flag rules that run before positional parsing; the first
/// failing one's message, or `None`.
fn check_flags(cli: &Cli) -> (r: Option<String>)
    ensures
        r matches Some(m) ==> flags_error(*cli) == Some(m@),
        r is None <==> flags_error(*cli) is None,
{
    if let Some(t) = cli.connect_timeout_ms {
        if t < 0 {
            return Some(String::from_str("The --connect-timeout argument must not be negative."));
        }
    }
    if let Some(t) = cli.keepalive_time_ms {
        if t < 0 {
            return Some(String::from_str("The --keepalive-time argument must not be negative."));
        }
    }
    if let Some(t) = cli.max_time_ms {
        if t < 0 {
            return Some(String::from_str("The --max-time argument must not be negative."));
        }
    }
    if let Some(sz) = cli.max_msg_sz {
        if sz < 0 {
            return Some(String::from_str("The --max-msg-sz argument must not be negative."));
        }
    }
    let use_tls = !cli.plaintext && !cli.alts;
    if cli.plaintext && cli.alts {
        return Some(
            String::from_str("The --plaintext and --alts arguments are mutually exclusive."),
        );
    }
    if cli.insecure && !use_tls {
        return Some(String::from_str("The --insecure argument can only be used with TLS."));
    }
    if cli.cert.is_some() && !use_tls {
        return Some(String::from_str("The --cert argument can only be used with TLS."));
    }
    if cli.key.is_some() && !use_tls {
        return Some(String::from_str("The --key argument can only be used with TLS."));
    }
    if cli.cert.is_some() != cli.key.is_some() {
        return Some(
            String::from_str(
                "The --cert and --key arguments must be used together and both be present.",
            ),
        );
    }
    if cli.alts_handshaker_service.is_some() && !cli.alts {
        return Some(
            String::from_str(
                "The --alts-handshaker-service argument must be used with the --alts argument.",
            ),
        );
    }
    if cli.alts_target_service_account.len() > 0 && !cli.alts {
        return Some(
            String::from_str(
                "The --alts-target-service-account argument must be used with the --alts argument.",
            ),
        );
    }
    None
}

/// The warnings the rules emit, in emission order.
fn collect_warnings(cli: &Cli) -> (w: Vec<String>)
    ensures
        views_of(w@) == validate_warnings(*cli),
{
    let mut warnings: Vec<String> = Vec::new();
    if check_flags(cli).is_some() {
        proof {
            assert(views_of(warnings@) =~= validate_warnings(*cli));
        }
        return warnings;
    }
    if cli.emit_defaults && !matches!(cli.format, Format::Json) {
        warnings.push(String::from_str("The --emit-defaults is only used when using json format."));
    }
    proof {
        assert(views_of(warnings@) =~= warn_emit_defaults(*cli));
    }
    let n = cli.args.len();
    let takes_addr = n > 0 && !str_eq(cli.args[0].as_str(), "list") && !str_eq(
        cli.args[0].as_str(),
        "describe",
    );
    let idx: usize = if takes_addr {
        1
    } else {
        0
    };
    if n == 0 || idx >= n {
        proof {
            assert(!have_verb(*cli));
            assert(views_of(warnings@) =~= validate_warnings(*cli));
        }
        return warnings;
    }
    proof {
        assert(takes_addr == takes_address(*cli));
        assert(idx as int == addr_offset(*cli));
        assert(have_verb(*cli));
    }
    let cmd = if str_eq(cli.args[idx].as_str(), "list") {
        Command::List
    } else if str_eq(cli.args[idx].as_str(), "describe") {
        Command::Describe
    } else {
        Command::Invoke
    };
    let invoke = matches!(cmd, Command::Invoke);
    proof {
        assert(cmd == spec_command(*cli));
    }
    if !invoke {
        if cli.data.is_some() {
            warnings.push(
                String::from_str("The -d argument is not used with 'list' or 'describe' verb."),
            );
        }
        if cli.rpc_header.len() > 0 {
            warnings.push(
                String::from_str(
                    "The --rpc-header argument is not used with 'list' or 'describe' verb.",
                ),
            );
        }
    }
    proof {
        assert(views_of(warnings@) =~= warn_emit_defaults(*cli) + warn_data(*cli) + warn_rpc_header(
            *cli,
        ));
    }
    let jdx: usize = if invoke {
        idx
    } else {
        idx + 1
    };
    let after_symbol: usize = if jdx < n {
        jdx + 1
    } else {
        jdx
    };
    proof {
        assert(jdx as int == cmd_offset(*cli));
        assert(after_symbol as int == sym_offset(*cli));
    }
    let past_count = !(invoke && jdx >= n) && !(after_symbol < n);
    let past_addr = past_count && !(invoke && !takes_addr) && !(!takes_addr && cli.protoset.len()
        == 0 && cli.proto.len() == 0);
    proof {
        assert(past_count == past_count_rules(*cli));
        assert(past_addr == past_address_rules(*cli));
    }
    if past_addr && cli.protoset.len() > 0 && cli.reflect_header.len() > 0 {
        warnings.push(
            String::from_str(
                "The --reflect-header argument is not used when --protoset files are used.",
            ),
        );
    }
    let past_excl = past_addr && !(cli.protoset.len() > 0 && cli.proto.len() > 0);
    if past_excl && cli.import_path.len() > 0 && cli.proto.len() == 0 {
        warnings.push(
            String::from_str(
                "The --import-path argument is not used unless --proto files are used.",
            ),
        );
    }
    proof {
        assert(views_of(warnings@) =~= warn_emit_defaults(*cli) + warn_data(*cli) + warn_rpc_header(
            *cli,
        ) + warn_reflect_header(*cli) + warn_import_path(*cli));
    }
    let past_refl = past_excl && !(matches!(cli.use_reflection, Some(false)) && cli.protoset.len()
        == 0 && cli.proto.len() == 0);
    if past_refl {
        match (&cli.servername, &cli.authority) {
            (Some(sn), Some(auth)) => {
                if str_eq(sn.as_str(), auth.as_str()) {
                    warnings.push(
                        String::from_str(
                            "Both --servername and --authority are present; prefer only --authority.",
                        ),
                    );
                }
            },
            _ => {},
        }
    }
    proof {
        assert(views_of(warnings@) =~= validate_warnings(*cli));
    }
    warnings
}

/// Run the rules in order and parse the positionals; the first failing
/// rule's message, or the parsed arguments.
fn parse_args(cli: &Cli) -> (r: Result<ParsedArgs, String>)
    ensures
        r is Ok <==> validate_error(*cli) is None,
        r matches Err(m) ==> validate_error(*cli) == Some(m@),
        r matches Ok(p) ==> {
            &&& opt_str_view(p.address) == spec_address(*cli)
            &&& p.command == spec_command(*cli)
            &&& opt_str_view(p.symbol) == spec_symbol(*cli)
        },
{
    if let Some(m) = check_flags(cli) {
        return Err(m);
    }
    let n = cli.args.len();
    if n == 0 {
        return Err(String::from_str("Too few arguments."));
    }
    let takes_addr = !str_eq(cli.args[0].as_str(), "list") && !str_eq(
        cli.args[0].as_str(),
        "describe",
    );
    let idx: usize = if takes_addr {
        1
    } else {
        0
    };
    if idx >= n {
        return Err(String::from_str("Too few arguments."));
    }
    let cmd = if str_eq(cli.args[idx].as_str(), "list") {
        Command::List
    } else if str_eq(cli.args[idx].as_str(), "describe") {
        Command::Describe
    } else {
        Command::Invoke
    };
    let invoke = matches!(cmd, Command::Invoke);
    let jdx: usize = if invoke {
        idx
    } else {
        idx + 1
    };
    if invoke && jdx >= n {
        return Err(String::from_str("Too few arguments."));
    }
    let symbol: Option<String>;
    let after_symbol: usize;
    if jdx < n {
        symbol = Some(cli.args[jdx].clone());
        after_symbol = jdx + 1;
    } else {
        symbol = None;
        after_symbol = jdx;
    }
    if after_symbol < n {
        return Err(String::from_str("Too many arguments."));
    }
    if invoke && !takes_addr {
        return Err(String::from_str("No host:port specified."));
    }
    if !takes_addr && cli.protoset.len() == 0 && cli.proto.len() == 0 {
        return Err(
            String::from_str(
                "No host:port specified, no protoset specified, and no proto sources specified.",
            ),
        );
    }
    if cli.protoset.len() > 0 && cli.proto.len() > 0 {
        return Err(
            String::from_str("Use either --protoset files or --proto files, but not both."),
        );
    }
    if matches!(cli.use_reflection, Some(false)) && cli.protoset.len() == 0 && cli.proto.len()
        == 0 {
        return Err(
            String::from_str(
                "No protoset files or proto files specified and --use-reflection set to false.",
            ),
        );
    }
    match (&cli.servername, &cli.authority) {
        (Some(sn), Some(auth)) => {
            if !str_eq(sn.as_str(), auth.as_str()) {
                return Err(
                    String::from_str(
                        "Cannot specify different values for --servername and --authority.",
                    ),
                );
            }
        },
        _ => {},
    }
    let address: Option<String> = if takes_addr {
        Some(cli.args[0].clone())
    } else {
        None
    };
    Ok(ParsedArgs { address, command: cmd, symbol })
}

/// Validate all flags and positional arguments, in rule order.
///
/// Returns the warnings emitted before the first failure, and either the
/// parsed positionals or the first failing rule's message.
pub fn validate(cli: &Cli) -> (r: (Vec<String>, Result<ParsedArgs, String>))
    ensures
        views_of(r.0@) == validate_warnings(*cli),
        r.1 is Ok <==> validate_error(*cli) is None,
        r.1 matches Err(m) ==> validate_error(*cli) == Some(m@),
        r.1 matches Ok(p) ==> {
            &&& opt_str_view(p.address) == spec_address(*cli)
            &&& p.command == spec_command(*cli)
            &&& opt_str_view(p.symbol) == spec_symbol(*cli)
        },
{
    let warnings = collect_warnings(cli);
    let parsed = parse_args(cli);
    (warnings, parsed)
}

} // verus!
