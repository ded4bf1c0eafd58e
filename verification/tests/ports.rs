use oflh::model::Process;
use oflh::ports::{IpAddress, Port, PortIndex, PortQuery, Protocol};
use oflh::search::Scratch;

#[test]
fn numeric_terms_are_exact_ports_not_pid_or_substrings() {
    let process = Process {
        name: "server".into(),
        ..Process::default()
    };
    let port = Port {
        protocol: Protocol::Tcp,
        address: IpAddress::V4(0x7f00_0001),
        number: 8080,
    };
    let index = PortIndex::new(&process, &port);
    for (query, expected) in [
        ("8080", true),
        ("80", false),
        ("port:8080 server tcp", true),
        ("8080 udp", false),
        ("65536", false),
        ("port:bad", false),
        ("", true),
        ("pid:0", true),
    ] {
        assert_eq!(
            PortQuery::new(query).matches(&port, &index, &mut Scratch::default()),
            expected,
            "{query}"
        );
    }
}

#[test]
fn labels_and_addresses() {
    assert_eq!(Protocol::Tcp.label(), "TCP");
    assert_eq!(Protocol::Udp.label(), "UDP");
    assert_eq!(Protocol::Tcp.state(), "LISTEN");
    assert_eq!(Protocol::Udp.state(), "BOUND");
    let text = |a: IpAddress| a.text().into_iter().collect::<String>();
    assert_eq!(text(IpAddress::V4(0x7f00_0001)), "127.0.0.1");
    assert_eq!(text(IpAddress::V4(0)), "0.0.0.0");
    assert_eq!(text(IpAddress::V6(1)), "::1");
    assert_eq!(text(IpAddress::V6(0)), "::");
    assert_eq!(text(IpAddress::V6(0x2001_0db8_0000_0000_0001_0000_0000_0001)), "2001:db8::1:0:0:1");
    assert_eq!(text(IpAddress::V6(0xffff_c000_0280)), "::ffff:192.0.2.128");
    assert_eq!(text(IpAddress::V6(0xfe80_0000_0000_0000_0000_0000_0000_0000)), "fe80::");
    assert_eq!(text(IpAddress::V6(0x0001_0002_0003_0004_0005_0006_0007_0008)), "1:2:3:4:5:6:7:8");
    assert_eq!(text(IpAddress::V6(0x0001_0000_0002_0003_0004_0005_0006_0007)), "1:0:2:3:4:5:6:7");
}

#[test]
fn port_terms_accept_plus_leading_zeros_and_case() {
    let process = Process::default();
    let port = Port { protocol: Protocol::Udp, address: IpAddress::V6(1), number: 53 };
    let index = PortIndex::new(&process, &port);
    let mut scratch = Scratch::default();
    for (query, expected) in [
        ("PORT:53", true),
        ("port:+53", true),
        ("0053", true),
        ("port:0", false),
        ("53 ipv6 ::1 bound", true),
        ("53 ipv4", false),
        ("53 54", false),
    ] {
        assert_eq!(PortQuery::new(query).matches(&port, &index, &mut scratch), expected, "{query}");
    }
}
