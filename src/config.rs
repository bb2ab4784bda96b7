use vstd::prelude::*;

verus! {

/// The host the server binds to when none is configured.
pub open spec fn default_host() -> Seq<char> {
    "localhost"@
}

/// The port the server binds to when none is configured.
pub open spec fn default_port() -> Seq<char> {
    "3000"@
}

/// The address `host:port` to serve on, each part defaulting when not configured.
pub fn app_address(host: Option<String>, port: Option<String>) -> (r: String)
    ensures
        r@ == (match host {
            Some(h) => h@,
            None => default_host(),
        }) + ":"@ + (match port {
            Some(p) => p@,
            None => default_port(),
        }),
{
    let host = match host {
        Some(h) => h,
        None => "localhost".to_string(),
    };
    let port = match port {
        Some(p) => p,
        None => "3000".to_string(),
    };
    let with_colon = host.concat(":");
    with_colon.concat(port.as_str())
}

} // verus!
