//! Where the service listens, and the paths it serves.

use vstd::prelude::*;

verus! {

/// The environment variable that names the host to listen on.
pub const HOST_VAR_NAME: &'static str = "HOST";

/// The environment variable that names the port to listen on.
pub const PORT_VAR_NAME: &'static str = "PORT";

/// The host listened on where none is given.
pub const DEFAULT_HOST: &'static str = "0.0.0.0";

/// The port listened on where none is given.
pub const DEFAULT_PORT: &'static str = "8080";

/// The path of the whole collection of records.
pub const DATA_ENDPOINT_PATTERN: &'static str = "/data";

/// The path of one record, by key.
pub const DATA_ENDPOINT_KEY_PATTERN: &'static str = "/data/{key}";

/// A host and a port, as text.
pub struct HostPort {
    host: String,
    port: String,
}

impl View for HostPort {
    type V = (Seq<char>, Seq<char>);

    closed spec fn view(&self) -> (Seq<char>, Seq<char>) {
        (self.host@, self.port@)
    }
}

impl HostPort {
    pub fn new(host: String, port: String) -> (r: HostPort)
        ensures
            r@ == (host@, port@),
    {
        HostPort { host, port }
    }

    /// The address in the form `host:port`.
    pub fn to_string(&self) -> (r: String)
        ensures
            r@ == self@.0 + seq![':'] + self@.1,
    {
        let colon = ":";
        proof {
            reveal_strlit(":");
        }
        assert(colon@ =~= seq![':']);
        let mut r = self.host.clone();
        r.append(colon);
        r.append(self.port.as_str());
        r
    }
}

/// The address to listen on: the host and port given, each falling back to
/// its default where it is missing.
pub fn host_port_from(host: Option<String>, port: Option<String>) -> (r: HostPort)
    ensures
        r@.0 == (match host {
            Some(h) => h@,
            None => DEFAULT_HOST@,
        }),
        r@.1 == (match port {
            Some(p) => p@,
            None => DEFAULT_PORT@,
        }),
{
    let h = match host {
        Some(h) => h,
        None => DEFAULT_HOST.to_string(),
    };
    let p = match port {
        Some(p) => p,
        None => DEFAULT_PORT.to_string(),
    };
    HostPort::new(h, p)
}

} // verus!
