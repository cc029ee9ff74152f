//! # Network input
//!
//! - listens on an UDP port for data, forward upstream
//!
//! ### catapult.conf
//!
//! ```text
//! input {
//!   network {
//!     listenPort = 6667
//!   }
//! }
//! ```
//! ### Parameters
//!
//! - **listenPort**: UDP port to listen to

use vstd::prelude::*;
use vstd::utf8::*;

use crate::params::Params;
use crate::processor::{
    config_number, config_view, number_of, str_views, text_result, ConfigError, ConfigFault,
    Processor,
};
use crate::text::{decimal, u32_to_decimal};

verus! {

/// What `String::from_utf8_lossy` makes of `bytes`.
pub uninterp spec fn utf8_lossy(bytes: Seq<u8>) -> Seq<char>;

/// Decodes `bytes`, replacing each ill-formed sequence with U+FFFD.
///
/// Trusted: `String::from_utf8_lossy` depends on the bytes alone, and gives
/// back the decoded characters where the bytes are well-formed UTF-8. How it
/// replaces ill-formed sequences is not stated.
#[verifier::external_body]
fn decode_lossy(bytes: &[u8]) -> (res: String)
    ensures
        res@ == utf8_lossy(bytes@),
        valid_utf8(bytes@) ==> res@ == decode_utf8(bytes@),
{
    String::from_utf8_lossy(bytes).into_owned()
}

/// `"listenPort"`
pub open spec fn listen_port_name() -> Seq<char> {
    "listenPort"@
}

/// The address that the input listens on for a port.
pub open spec fn listen_address_of(port: u32) -> Seq<char> {
    "0.0.0.0:"@ + decimal(port as nat)
}

/// Listens on a UDP port and sends on what it receives.
pub struct Network {
    name: String,
}

impl Network {
    pub fn new(name: String) -> (res: Network)
        ensures
            res.name_view() == name@,
    {
        Network { name }
    }

    /// The address to listen on: every interface, at the port that the
    /// `listenPort` parameter gives.
    pub fn listen_address(config: &Option<Params>) -> (res: Result<String, ConfigError>)
        ensures
            text_result(res) == match number_of(config_view(*config), listen_port_name()) {
                Ok(port) => Ok(listen_address_of(port)),
                Err(e) => Err::<Seq<char>, ConfigFault>(e),
            },
    {
        let port = config_number(config, "listenPort")?;
        let mut address = "0.0.0.0:".to_owned();
        let digits = u32_to_decimal(port);
        address.append(digits.as_str());
        Ok(address)
    }

    /// The line made of a received datagram: the `received` bytes at the
    /// start of the buffer, decoded, with ill-formed UTF-8 replaced.
    pub fn datagram_line(buf: &[u8], received: usize) -> (res: String)
        requires
            received <= buf@.len(),
        ensures
            res@ == utf8_lossy(buf@.take(received as int)),
            valid_utf8(buf@.take(received as int)) ==> res@ == decode_utf8(
                buf@.take(received as int),
            ),
    {
        let mut data: Vec<u8> = Vec::new();
        let mut i: usize = 0;
        while i < received
            invariant
                i <= received <= buf@.len(),
                data@ == buf@.take(i as int),
            decreases received - i,
        {
            data.push(buf[i]);
            i = i + 1;
            assert(data@ =~= buf@.take(i as int));
        }
        decode_lossy(data.as_slice())
    }
}

impl Processor for Network {
    closed spec fn name_view(&self) -> Seq<char> {
        self.name@
    }

    open spec fn mandatory_view(&self) -> Seq<Seq<char>> {
        seq![listen_port_name()]
    }

    fn human_name(&self) -> (res: &str) {
        self.name.as_str()
    }

    fn mandatory_fields(&self) -> (res: Vec<&'static str>) {
        let res = vec!["listenPort"];
        assert(str_views(res@) =~= seq![listen_port_name()]);
        res
    }
}

} // verus!
