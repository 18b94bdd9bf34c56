use sudo_plugin::{FromSudoOption, Ip4Addr, NetAddr, NetAddrError};

fn quad(o1: u8, o2: u8, o3: u8, o4: u8) -> Ip4Addr {
    Ip4Addr { o1, o2, o3, o4 }
}

#[test]
fn parses_address_with_prefix_mask() {
    let net = NetAddr::from_sudo_option("10.0.0.0/24").unwrap();

    assert_eq!(quad(10, 0, 0, 0), net.addr);
    assert_eq!(quad(255, 255, 255, 0), net.mask);
}

#[test]
fn parses_address_with_dotted_mask() {
    let net = NetAddr::from_sudo_option("192.168.1.0/255.255.255.0").unwrap();

    assert_eq!(quad(192, 168, 1, 0), net.addr);
    assert_eq!(quad(255, 255, 255, 0), net.mask);
}

#[test]
fn missing_mask_is_an_explicit_error() {
    assert_eq!(
        Err(NetAddrError::MissingMask),
        NetAddr::from_sudo_option("10.0.0.0")
    );
}

#[test]
fn bad_address_is_reported() {
    assert_eq!(
        Err(NetAddrError::InvalidAddr),
        NetAddr::from_sudo_option("10.0.0/24")
    );
    assert_eq!(
        Err(NetAddrError::InvalidAddr),
        NetAddr::from_sudo_option("10.0.0.256/24")
    );
}

#[test]
fn bad_mask_is_reported() {
    assert_eq!(
        Err(NetAddrError::InvalidMask),
        NetAddr::from_sudo_option("10.0.0.0/33")
    );
    assert_eq!(
        Err(NetAddrError::InvalidMask),
        NetAddr::from_sudo_option("10.0.0.0/abc")
    );
}

#[test]
fn prefix_mask_extremes() {
    let all = NetAddr::from_sudo_option("1.2.3.4/32").unwrap();
    assert_eq!(quad(255, 255, 255, 255), all.mask);

    let none = NetAddr::from_sudo_option("1.2.3.4/0").unwrap();
    assert_eq!(quad(0, 0, 0, 0), none.mask);

    let mid = NetAddr::from_sudo_option("1.2.3.4/20").unwrap();
    assert_eq!(quad(255, 255, 240, 0), mid.mask);
}

#[test]
fn address_parser_accepts_quads_only_as_addresses() {
    assert!(Ip4Addr::parse("1.2.3.4").is_some());
    assert!(Ip4Addr::parse("1.2.3").is_none());
    assert!(Ip4Addr::parse("1.2.3.4.5").is_none());
    assert!(Ip4Addr::parse("").is_none());
    assert!(Ip4Addr::parse("1..3.4").is_none());
}

#[test]
fn address_parser_reads_bare_prefix_as_mask() {
    assert_eq!(Some(quad(255, 255, 255, 0)), Ip4Addr::parse("24"));
    assert_eq!(None, Ip4Addr::parse("33"));
    assert_eq!(None, Ip4Addr::parse("123"));
}
