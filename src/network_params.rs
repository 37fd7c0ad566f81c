use vstd::prelude::*;

use crate::port_parser::{decimal_value, is_port_text, parse_port, port_digits, PortParseError};

verus! {

/// Why the listening port, remote host and remote port could not be used.
#[derive(Debug)]
pub enum NetworkParamsError {
    /// A port text is not a port number.
    Parse(PortParseError),
    /// The remote host could not be resolved; the text says why.
    Lookup(String),
}

/// Reads the listening port and the remote port. The first text that is not
/// a port number is reported.
pub fn parse_ports(l_port: &str, r_port: &str) -> (r: Result<(u16, u16), PortParseError>)
    ensures
        r is Ok <==> is_port_text(l_port@) && is_port_text(r_port@),
        r matches Ok((l, p)) ==> l == decimal_value(port_digits(l_port@)) && p == decimal_value(
            port_digits(r_port@),
        ),
        r matches Err(e) ==> if is_port_text(l_port@) {
            e.given() == r_port@
        } else {
            e.given() == l_port@
        },
{
    let l = match parse_port(l_port) {
        Ok(v) => v,
        Err(e) => return Err(e),
    };
    let r = match parse_port(r_port) {
        Ok(v) => v,
        Err(e) => return Err(e),
    };
    Ok((l, r))
}

} // verus!
