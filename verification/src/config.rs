use vstd::prelude::*;

verus! {

/// The broker's configuration as it is assembled: credentials, whether
/// anonymous clients may connect, the bind address and port, and the period
/// of the `$SYS` stats publisher in seconds, zero disabling it. Turning the
/// address into a socket address is the embedding program's part.
#[derive(Debug)]
pub struct ConfigBuilder {
    pub username: Option<String>,
    pub password: Option<String>,
    pub allow_anonymous: bool,
    pub address: String,
    pub port: u16,
    pub sys_interval: u64,
}

impl ConfigBuilder {
    /// The defaults: anonymous access on every interface, port 1833, stats
    /// every ten seconds.
    pub fn new() -> (r: Self)
        ensures
            r.username is None,
            r.password is None,
            r.allow_anonymous == true,
            r.address@ == "0.0.0.0"@,
            r.port == 1833,
            r.sys_interval == 10,
    {
        ConfigBuilder {
            username: None,
            password: None,
            allow_anonymous: true,
            address: String::from_str("0.0.0.0"),
            port: 1833,
            sys_interval: 10,
        }
    }

    pub fn set_port(self, port: u16) -> (r: Self)
        ensures
            r == (ConfigBuilder { port, ..self }),
    {
        ConfigBuilder { port, ..self }
    }

    pub fn set_sys_interval(self, interval: u64) -> (r: Self)
        ensures
            r == (ConfigBuilder { sys_interval: interval, ..self }),
    {
        ConfigBuilder { sys_interval: interval, ..self }
    }
}

} // verus!
