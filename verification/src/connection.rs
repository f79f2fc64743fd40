use vstd::prelude::*;

verus! {

/// Transport-only options, as plain values. Time options are carried in
/// milliseconds; the connect timeout defaults to ten seconds downstream
/// when absent.
#[derive(Debug)]
pub struct ConnectionConfig {
    pub plaintext: bool,
    pub insecure: bool,
    pub authority: Option<String>,
    pub servername: Option<String>,
    pub connect_timeout_ms: Option<i64>,
    pub keepalive_time_ms: Option<i64>,
    pub max_time_ms: Option<i64>,
    pub unix: bool,
    pub cacert: Option<String>,
    pub cert: Option<String>,
    pub key: Option<String>,
    pub alts: bool,
    pub user_agent: Option<String>,
    pub max_msg_sz: Option<i32>,
}

/// The User-Agent header value: the tool's own product token, prefixed by
/// the custom value when one was given.
pub open spec fn user_agent_spec(custom: Option<String>) -> Seq<char> {
    match custom {
        Some(c) => c@ + " "@ + "grpcurl/0.1.0"@,
        None => "grpcurl/0.1.0"@,
    }
}

/// Build the User-Agent header value for outgoing connections.
pub fn build_user_agent(config: &ConnectionConfig) -> (r: String)
    ensures
        r@ == user_agent_spec(config.user_agent),
{
    match &config.user_agent {
        Some(custom) => custom.clone().concat(" ").concat("grpcurl/0.1.0"),
        None => String::from_str("grpcurl/0.1.0"),
    }
}

} // verus!
