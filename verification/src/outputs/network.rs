//! # Network output
//!
//! - sends every line as one UDP datagram to a destination
//!
//! ### Parameters
//!
//! - **destination**: the IP address to send to
//! - **port**: the UDP port to send to

use vstd::prelude::*;

use crate::params::Params;
use crate::processor::{
    config_field, config_number, config_view, field_of, number_of, str_views, text_result,
    ConfigError, ConfigFault, Processor,
};
use crate::text::{decimal, u32_to_decimal};

verus! {

/// `"destination"`
pub open spec fn destination_name() -> Seq<char> {
    "destination"@
}

/// `"port"`
pub open spec fn port_name() -> Seq<char> {
    "port"@
}

/// `host:port`.
pub open spec fn host_port(host: Seq<char>, port: u32) -> Seq<char> {
    host + seq![':'] + decimal(port as nat)
}

/// The destination that the parameters name: the `destination` parameter
/// is read before the `port` parameter.
pub open spec fn destination_of(config: Option<Map<Seq<char>, Seq<char>>>) -> Result<
    Seq<char>,
    ConfigFault,
> {
    match field_of(config, destination_name()) {
        Err(e) => Err(e),
        Ok(host) => match number_of(config, port_name()) {
            Err(e) => Err(e),
            Ok(p) => Ok(host_port(host, p)),
        },
    }
}

/// Sends every line to a UDP destination.
pub struct Network {
    name: String,
}

impl Network {
    pub fn new(name: String) -> (res: Network)
        ensures
            res.name_view() == name@,
    {
        Network { name }
    }

    /// The `host:port` to send the lines to.
    pub fn destination(config: &Option<Params>) -> (res: Result<String, ConfigError>)
        ensures
            text_result(res) == destination_of(config_view(*config)),
    {
        let host = config_field(config, "destination")?;
        let port = config_number(config, "port")?;
        let mut dest = host.clone();
        let mut colon = String::new();
        crate::text::push_char(&mut colon, ':');
        dest.append(colon.as_str());
        let digits = u32_to_decimal(port);
        dest.append(digits.as_str());
        assert(dest@ =~= host_port(host@, port));
        Ok(dest)
    }
}

impl Processor for Network {
    closed spec fn name_view(&self) -> Seq<char> {
        self.name@
    }

    open spec fn mandatory_view(&self) -> Seq<Seq<char>> {
        Seq::empty()
    }

    fn human_name(&self) -> (res: &str) {
        self.name.as_str()
    }

    fn mandatory_fields(&self) -> (res: Vec<&'static str>) {
        let res = Vec::new();
        assert(str_views(res@) =~= Seq::empty());
        res
    }
}

} // verus!
