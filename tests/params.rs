use tcp_relay::network_params::parse_ports;
use tcp_relay::port_parser::{parse_port, PortParseError};

#[test]
fn parses_ports() {
    assert_eq!(parse_port("80").ok(), Some(80));
    assert_eq!(parse_port("8080").ok(), Some(8080));
    assert_eq!(parse_port("0").ok(), Some(0));
    assert_eq!(parse_port("65535").ok(), Some(65535));
    assert_eq!(parse_port("+443").ok(), Some(443));
    assert_eq!(parse_port("00022").ok(), Some(22));
}

#[test]
fn rejects_non_ports() {
    for bad in ["", "+", "-1", "65536", "99999", "abc", " 80", "80 ", "8o", "++1", "1.5"] {
        let e: PortParseError = parse_port(bad).err().unwrap();
        assert_eq!(e.given_string(), bad);
        assert_eq!(e.description(), "invalid port value");
    }
}

#[test]
fn parse_ports_reports_first_bad_text() {
    assert_eq!(parse_ports("1000", "2000").ok(), Some((1000, 2000)));
    assert_eq!(parse_ports("x", "y").err().unwrap().given_string(), "x");
    assert_eq!(parse_ports("1", "y").err().unwrap().given_string(), "y");
    assert_eq!(parse_ports("70000", "2").err().unwrap().given_string(), "70000");
}
