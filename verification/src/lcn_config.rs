//! Where the actuator is reached and how it is told who asks.

use vstd::prelude::*;
use vstd::string::*;

verus! {

/// The addresses of the actuator and the cookie that authenticates with it.
#[derive(Debug)]
pub struct LcnConfig {
    pub home_url: String,
    pub command_url: String,
    pub cookie: String,
}

/// The configuration for the actuator at `addr`, with the paths `home` and
/// `command` on it.
pub fn new(addr: &str, home: &str, command: &str, cookie: &str) -> (config: LcnConfig)
    ensures
        config.home_url@ == "http://"@ + addr@ + home@,
        config.command_url@ == "http://"@ + addr@ + command@,
        config.cookie@ == cookie@,
{
    let home_url = String::from_str("http://").concat(addr).concat(home);
    let command_url = String::from_str("http://").concat(addr).concat(command);
    let cookie = String::from_str(cookie);
    LcnConfig { home_url, command_url, cookie }
}

} // verus!
