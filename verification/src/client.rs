//! The client's side of a connection.

use vstd::prelude::*;
use vstd::string::StringExecFns;

verus! {

/// The address of the server on `host`: the host, a colon, and the default
/// port, whatever port a configuration names.
pub open spec fn server_address_spec(host: Seq<char>) -> Seq<char> {
    host + ":5343"@
}

/// The address to connect to for the server on `host`.
pub fn server_address(host: &str) -> (addr: String)
    ensures
        addr@ == server_address_spec(host@),
{
    let mut addr = host.to_owned();
    addr.append(":5343");
    addr
}

} // verus!
