use catnip::fail::Fail;
use catnip::protocols::ip::{EphemeralPorts, Port, FIRST_PRIVATE_PORT};
use catnip::protocols::ipv4::Endpoint;

#[test]
fn port_zero_is_refused() {
    assert_eq!(
        Port::try_from(0),
        Err(Fail::OutOfRange { details: "port number may not be zero" })
    );
    assert_eq!(Port::try_from(80).unwrap().value(), 80);
    assert!(!Port::try_from(80).unwrap().is_private());
    assert!(!Port::try_from(49151).unwrap().is_private());
    assert!(Port::try_from(49152).unwrap().is_private());
    assert_eq!(Port::first_private_port().value(), 49152);
    assert_eq!(FIRST_PRIVATE_PORT, 49152);
}

#[test]
fn ports_come_lowest_first_and_never_twice() {
    let mut ports = EphemeralPorts::new();
    let mut seen = Vec::new();
    for expected in 49152u16..49252 {
        let port = ports.alloc_port().unwrap();
        assert_eq!(port.value(), expected);
        assert!(port.is_private());
        assert!(!seen.contains(&port));
        seen.push(port);
    }
}

#[test]
fn freed_port_is_handed_out_again() {
    let mut ports = EphemeralPorts::new();
    let first = ports.alloc_port().unwrap();
    let second = ports.alloc_port().unwrap();
    let third = ports.alloc_port().unwrap();
    assert_eq!((first.value(), second.value(), third.value()), (49152, 49153, 49154));
    ports.free(second);
    assert_eq!(ports.alloc_port().unwrap(), second);
    assert_eq!(ports.alloc_port().unwrap().value(), 49155);
    // A port that the allocator does not manage is not taken in.
    ports.free(Port::try_from(80).unwrap());
    ports.free(Port::try_from(65535).unwrap());
    assert_eq!(ports.alloc_port().unwrap().value(), 49156);
}

#[test]
fn exhausted_range_yields_resource_exhausted() {
    let mut ports = EphemeralPorts::with_first_port(Port::try_from(65530).unwrap());
    for expected in 65530u16..65535 {
        assert_eq!(ports.alloc_port().unwrap().value(), expected);
    }
    assert_eq!(
        ports.alloc_port(),
        Err(Fail::ResourceExhausted { details: "Out of private ports" })
    );
    ports.free(Port::try_from(65532).unwrap());
    assert_eq!(ports.alloc_port().unwrap().value(), 65532);
    assert_eq!(
        ports.alloc_port(),
        Err(Fail::ResourceExhausted { details: "Out of private ports" })
    );
}

#[test]
fn whole_default_range_can_be_handed_out() {
    let mut ports = EphemeralPorts::new();
    let mut count = 0u32;
    let mut last = 0u16;
    while let Ok(port) = ports.alloc_port() {
        assert!(port.value() > last);
        last = port.value();
        count += 1;
    }
    assert_eq!(count, 65535 - 49152);
    assert_eq!(last, 65534);
}

#[test]
fn endpoint_keys_tell_endpoints_apart() {
    let a = Endpoint::from_octets(10, 0, 0, 1, Port::try_from(9000).unwrap());
    assert_eq!(a.address(), 0x0a00_0001);
    assert_eq!(a.port().value(), 9000);
    assert_eq!(a.key(), 0x0a00_0001_2328);
    let b = Endpoint::new(0x0a00_0001, Port::try_from(9001).unwrap());
    assert_ne!(a.key(), b.key());
    assert_eq!(a, Endpoint::new(0x0a00_0001, Port::try_from(9000).unwrap()));
}
