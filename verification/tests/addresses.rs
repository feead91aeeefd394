use agni::net::{
    get_local_ips, get_multicast_ssdp_socket_v4, join_multicast, Interface, IpAddr, JoinError,
    SocketAddr, SocketStep, StepFailure,
};

const V6_GROUP: [u16; 8] = [0xff02, 0, 0, 0, 0, 0, 0, 0xc];

fn v4(octets: [u8; 4], port: u16) -> SocketAddr {
    SocketAddr::v4(octets, port)
}

fn v6(segments: [u16; 8], port: u16) -> SocketAddr {
    SocketAddr { ip: IpAddr::V6(segments), port, flowinfo: 1, scope_id: 2 }
}

#[test]
fn groups_are_told_from_other_addresses() {
    assert!(IpAddr::V4([224, 0, 0, 0]).is_multicast());
    assert!(IpAddr::V4([239, 255, 255, 255]).is_multicast());
    assert!(!IpAddr::V4([223, 255, 255, 255]).is_multicast());
    assert!(!IpAddr::V4([240, 0, 0, 0]).is_multicast());
    assert!(IpAddr::V6(V6_GROUP).is_multicast());
    assert!(!IpAddr::V6([0xfe80, 0, 0, 0, 0, 0, 0, 1]).is_multicast());
    assert!(IpAddr::V4([1, 2, 3, 4]).is_ipv4());
    assert!(!IpAddr::V6(V6_GROUP).is_ipv4());
}

#[test]
fn server_joins_its_group() {
    let plan = get_multicast_ssdp_socket_v4();
    assert_eq!(plan.outcome, Ok(()));
    let group = [239, 255, 255, 250];
    assert_eq!(
        plan.steps,
        vec![
            SocketStep::CreateV4,
            SocketStep::JoinV4 { group, interface: [0, 0, 0, 0] },
            SocketStep::LoopV4,
            SocketStep::NonBlocking,
            SocketStep::ReuseAddress,
            SocketStep::ReusePort,
            SocketStep::Bind { addr: v4(group, 1900) },
            SocketStep::Adopt,
        ]
    );
}

#[test]
fn newer_group_is_joined_by_index() {
    let plan = join_multicast(&v6(V6_GROUP, 1900), &v4([0; 4], 0), 3);
    assert_eq!(plan.outcome, Ok(()));
    assert_eq!(plan.steps.len(), 8);
    assert_eq!(plan.steps[0], SocketStep::CreateV6);
    assert_eq!(plan.steps[1], SocketStep::OnlyV6);
    assert_eq!(plan.steps[2], SocketStep::JoinV6 { segments: V6_GROUP, index: 3 });
    assert_eq!(plan.steps[6], SocketStep::Bind { addr: v6(V6_GROUP, 1900) });
}

#[test]
fn other_addresses_are_refused() {
    let plan = join_multicast(&v4([10, 0, 0, 1], 1900), &v4([0; 4], 0), 0);
    assert_eq!(plan.outcome, Err(JoinError::NotMulticast));
    assert!(plan.steps.is_empty());
    assert_eq!(JoinError::NotMulticast.message(), "Needs a proper multicast address");
}

#[test]
fn interface_of_the_other_kind_is_refused() {
    let plan = join_multicast(&v4([224, 0, 0, 1], 1900), &v6([0; 8], 0), 0);
    assert_eq!(plan.outcome, Err(JoinError::InterfaceMismatch));
    assert_eq!(plan.steps, vec![SocketStep::CreateV4]);
    assert_eq!(JoinError::InterfaceMismatch.message(), "Interface Mismatch");
}

#[test]
fn failed_steps_are_explained() {
    let said = |s: SocketStep| match s.failure() {
        StepFailure::Explain(t) => t,
        StepFailure::Propagate => "as it is",
        StepFailure::Abort(_) => "abort",
    };
    assert_eq!(said(SocketStep::CreateV4), "Failed to create IPV4 socket");
    assert_eq!(said(SocketStep::CreateV6), "Failed to create IPV6 socket");
    assert_eq!(
        said(SocketStep::JoinV6 { segments: V6_GROUP, index: 0 }),
        "Failed to join multicast address"
    );
    assert_eq!(said(SocketStep::NonBlocking), "Nonblocking Error");
    assert_eq!(said(SocketStep::ReuseAddress), "Reuse Addr Error");
    assert_eq!(said(SocketStep::ReusePort), "Reuse Port Error");
    assert_eq!(said(SocketStep::Adopt), "Failed to create Tokio UDP Socket");
    assert_eq!(said(SocketStep::LoopV4), "as it is");
    assert_eq!(said(SocketStep::OnlyV6), "as it is");
    assert_eq!(said(SocketStep::Bind { addr: v4([0; 4], 0) }), "as it is");
    let join = SocketStep::JoinV4 { group: [224, 0, 0, 1], interface: [0; 4] };
    assert!(matches!(join.failure(), StepFailure::Abort("join_multicast_v4")));
}

#[test]
fn server_speaks_from_older_addresses() {
    let a = IpAddr::V4([10, 0, 0, 2]);
    let b = IpAddr::V4([10, 0, 1, 2]);
    let c = IpAddr::V6(V6_GROUP);
    let interfaces = vec![
        Interface { multicast: true, broadcast: true, ips: vec![c, a, a] },
        Interface { multicast: false, broadcast: true, ips: vec![b] },
        Interface { multicast: true, broadcast: false, ips: vec![b] },
        Interface { multicast: true, broadcast: true, ips: vec![b] },
    ];
    assert_eq!(get_local_ips(&interfaces), vec![a, a, b]);
    assert!(get_local_ips(&vec![]).is_empty());
}
