use vstd::prelude::*;

verus! {

/// Whether every character of `s` is an ASCII decimal digit.
pub open spec fn all_digits(s: Seq<char>) -> bool {
    forall|i: int| 0 <= i < s.len() ==> '0' <= #[trigger] s[i] <= '9'
}

/// The number that the decimal digits `s` spell, most significant first.
pub open spec fn decimal_value(s: Seq<char>) -> nat
    decreases s.len(),
{
    if s.len() == 0 {
        0
    } else {
        decimal_value(s.drop_last()) * 10 + (s.last() as nat - '0' as nat) as nat
    }
}

/// The digits of a port text: the text without one leading `+`, if present.
pub open spec fn port_digits(s: Seq<char>) -> Seq<char> {
    if s.len() > 0 && s[0] == '+' {
        s.skip(1)
    } else {
        s
    }
}

/// Whether `s` is a port number: an optional `+`, then one or more decimal
/// digits whose value fits in 16 bits.
pub open spec fn is_port_text(s: Seq<char>) -> bool {
    &&& port_digits(s).len() > 0
    &&& all_digits(port_digits(s))
    &&& decimal_value(port_digits(s)) <= u16::MAX
}

/// Relies on `<u16 as core::str::FromStr>::from_str`, which accepts exactly an
/// optional `+` followed by one or more ASCII decimal digits whose value fits
/// in a `u16`, and returns that value.
#[verifier::external_body]
fn parse_u16(s: &str) -> (r: Option<u16>)
    ensures
        r is Some <==> is_port_text(s@),
        r matches Some(v) ==> v == decimal_value(port_digits(s@)),
{
    s.parse::<u16>().ok()
}

/// A text that is not a port number.
#[derive(Debug, Clone)]
pub struct PortParseError {
    given_string: String,
}

impl PortParseError {
    /// The rejected text.
    pub closed spec fn given(&self) -> Seq<char> {
        self.given_string@
    }

    pub fn new(given_string: &str) -> (r: PortParseError)
        ensures
            r.given() == given_string@,
    {
        PortParseError { given_string: given_string.to_owned() }
    }

    /// The rejected text.
    pub fn given_string(&self) -> (r: &str)
        ensures
            r@ == self.given(),
    {
        self.given_string.as_str()
    }

    /// A short description of this kind of error.
    pub fn description(&self) -> (r: &'static str) {
        "invalid port value"
    }
}

/// Reads a port number: an optional `+` and then decimal digits, at most 65535.
pub fn parse_port(port: &str) -> (r: Result<u16, PortParseError>)
    ensures
        r is Ok <==> is_port_text(port@),
        r matches Ok(v) ==> v == decimal_value(port_digits(port@)),
        r matches Err(e) ==> e.given() == port@,
{
    match parse_u16(port) {
        Some(v) => Ok(v),
        None => Err(PortParseError::new(port)),
    }
}

} // verus!
