//! Addresses: which of them the server speaks from, and how it comes to hear what is sent to a group.
use vstd::prelude::*;
use crate::ssdp::MULTICAST_ADDRESS;
use crate::text::digits;

verus! {

/// An internet address.
#[derive(Clone, Copy, Debug, PartialEq, Eq)]
pub enum IpAddr {
    V4([u8; 4]),
    V6([u16; 8]),
}

/// An internet address and a port. The flow and the scope go with addresses of the newer kind; with
/// the others they are zero.
#[derive(Clone, Copy, Debug, PartialEq, Eq)]
pub struct SocketAddr {
    pub ip: IpAddr,
    pub port: u16,
    pub flowinfo: u32,
    pub scope_id: u32,
}

impl SocketAddr {
    /// An address of the older kind, with its port.
    pub fn v4(octets: [u8; 4], port: u16) -> (r: SocketAddr)
        ensures
            r == v4_address(octets, port),
    {
        SocketAddr { ip: IpAddr::V4(octets), port, flowinfo: 0, scope_id: 0 }
    }
}

/// An address of the older kind, with its port.
pub open spec fn v4_address(octets: [u8; 4], port: u16) -> SocketAddr {
    SocketAddr { ip: IpAddr::V4(octets), port, flowinfo: 0, scope_id: 0 }
}

/// The address stands for a group.
pub open spec fn is_group(ip: IpAddr) -> bool {
    match ip {
        IpAddr::V4(octets) => 224 <= octets[0] <= 239,
        IpAddr::V6(segments) => 0xff00 <= segments[0],
    }
}

impl IpAddr {
    /// Whether the address stands for a group.
    pub fn is_multicast(&self) -> (r: bool)
        ensures
            r == is_group(*self),
    {
        match self {
            IpAddr::V4(octets) => 224 <= octets[0] && octets[0] <= 239,
            IpAddr::V6(segments) => 0xff00 <= segments[0],
        }
    }

    /// Whether the address is of the older kind.
    pub fn is_ipv4(&self) -> (r: bool)
        ensures
            r == self is V4,
    {
        match self {
            IpAddr::V4(_) => true,
            IpAddr::V6(_) => false,
        }
    }
}

/// What is done to a socket on the way to hearing a group.
#[derive(Clone, Copy, Debug, PartialEq, Eq)]
pub enum SocketStep {
    /// Make a datagram socket of the older kind.
    CreateV4,
    /// Make a datagram socket of the newer kind.
    CreateV6,
    /// Join a group by an interface's address.
    JoinV4 { group: [u8; 4], interface: [u8; 4] },
    /// Hear also what this machine sends.
    LoopV4,
    /// Keep to the newer kind.
    OnlyV6,
    /// Join a group by an interface's index.
    JoinV6 { segments: [u16; 8], index: u32 },
    /// Do not block.
    NonBlocking,
    /// Share the address with other sockets.
    ReuseAddress,
    /// Share the port with other sockets.
    ReusePort,
    /// Take the address.
    Bind { addr: SocketAddr },
    /// Hand the socket over to the runtime.
    Adopt,
}

/// Why a group is not joined.
#[derive(Clone, Copy, Debug, PartialEq, Eq)]
pub enum JoinError {
    /// The address stands for no group.
    NotMulticast,
    /// The interface's address is not of the group's kind.
    InterfaceMismatch,
}

impl JoinError {
    /// What is said of the error.
    pub fn message(&self) -> (r: &'static str)
        ensures
            r@ == match *self {
                JoinError::NotMulticast => "Needs a proper multicast address"@,
                JoinError::InterfaceMismatch => "Interface Mismatch"@,
            },
    {
        match self {
            JoinError::NotMulticast => "Needs a proper multicast address",
            JoinError::InterfaceMismatch => "Interface Mismatch",
        }
    }
}

/// What to do when a step fails.
pub enum StepFailure {
    /// Give up, and say this of the failure.
    Explain(&'static str),
    /// Give up, with the failure as it is.
    Propagate,
    /// Stop the program, with these words.
    Abort(&'static str),
}

/// What is said of a failed step.
pub open spec fn explanation(step: SocketStep) -> Option<Seq<char>> {
    match step {
        SocketStep::CreateV4 => Some("Failed to create IPV4 socket"@),
        SocketStep::CreateV6 => Some("Failed to create IPV6 socket"@),
        SocketStep::JoinV6 { .. } => Some("Failed to join multicast address"@),
        SocketStep::NonBlocking => Some("Nonblocking Error"@),
        SocketStep::ReuseAddress => Some("Reuse Addr Error"@),
        SocketStep::ReusePort => Some("Reuse Port Error"@),
        SocketStep::Adopt => Some("Failed to create Tokio UDP Socket"@),
        _ => None,
    }
}

impl SocketStep {
    /// What to do when the step fails.
    pub fn failure(&self) -> (r: StepFailure)
        ensures
            match r {
                StepFailure::Explain(text) => explanation(*self) == Some(text@),
                StepFailure::Propagate => explanation(*self) is None && !(self is JoinV4),
                StepFailure::Abort(text) => self is JoinV4 && text@ == "join_multicast_v4"@,
            },
    {
        match self {
            SocketStep::CreateV4 => StepFailure::Explain("Failed to create IPV4 socket"),
            SocketStep::CreateV6 => StepFailure::Explain("Failed to create IPV6 socket"),
            SocketStep::JoinV4 { .. } => StepFailure::Abort("join_multicast_v4"),
            SocketStep::JoinV6 { .. } => StepFailure::Explain("Failed to join multicast address"),
            SocketStep::NonBlocking => StepFailure::Explain("Nonblocking Error"),
            SocketStep::ReuseAddress => StepFailure::Explain("Reuse Addr Error"),
            SocketStep::ReusePort => StepFailure::Explain("Reuse Port Error"),
            SocketStep::Adopt => StepFailure::Explain("Failed to create Tokio UDP Socket"),
            SocketStep::LoopV4 => StepFailure::Propagate,
            SocketStep::OnlyV6 => StepFailure::Propagate,
            SocketStep::Bind { .. } => StepFailure::Propagate,
        }
    }
}

/// Steps to be done in order, and what is said once all are done.
pub struct JoinPlan {
    pub steps: Vec<SocketStep>,
    pub outcome: Result<(), JoinError>,
}

/// What becomes of a request to join a group.
pub open spec fn join_outcome(group: SocketAddr, interface: SocketAddr) -> Result<(), JoinError> {
    if !is_group(group.ip) {
        Err(JoinError::NotMulticast)
    } else if group.ip is V4 && interface.ip is V6 {
        Err(JoinError::InterfaceMismatch)
    } else {
        Ok(())
    }
}

/// The steps by which a socket comes to be in a group.
pub open spec fn opening_steps(
    group: SocketAddr,
    interface: SocketAddr,
    index: u32,
) -> Seq<SocketStep> {
    match (group.ip, interface.ip) {
        (IpAddr::V4(group), IpAddr::V4(interface)) => seq![
            SocketStep::CreateV4,
            SocketStep::JoinV4 { group, interface },
            SocketStep::LoopV4,
        ],
        (IpAddr::V4(_), IpAddr::V6(_)) => seq![SocketStep::CreateV4],
        (IpAddr::V6(segments), _) => seq![
            SocketStep::CreateV6,
            SocketStep::OnlyV6,
            SocketStep::JoinV6 { segments, index },
        ],
    }
}

/// The steps that every socket in a group takes.
pub open spec fn closing_steps(group: SocketAddr) -> Seq<SocketStep> {
    seq![
        SocketStep::NonBlocking,
        SocketStep::ReuseAddress,
        SocketStep::ReusePort,
        SocketStep::Bind { addr: group },
        SocketStep::Adopt,
    ]
}

/// All the steps of a request to join a group.
pub open spec fn join_steps(
    group: SocketAddr,
    interface: SocketAddr,
    index: u32,
) -> Seq<SocketStep> {
    match join_outcome(group, interface) {
        Ok(_) => opening_steps(group, interface, index) + closing_steps(group),
        Err(JoinError::InterfaceMismatch) => opening_steps(group, interface, index),
        Err(JoinError::NotMulticast) => Seq::empty(),
    }
}

/// Plans how a socket joins a group and takes the group's address.
pub fn join_multicast(
    multicast_address: &SocketAddr,
    interface_addr: &SocketAddr,
    interface_index: u32,
) -> (r: JoinPlan)
    ensures
        r.steps@ == join_steps(*multicast_address, *interface_addr, interface_index),
        r.outcome == join_outcome(*multicast_address, *interface_addr),
{
    let mut steps: Vec<SocketStep> = Vec::new();
    if !multicast_address.ip.is_multicast() {
        return JoinPlan { steps, outcome: Err(JoinError::NotMulticast) };
    }
    match multicast_address.ip {
        IpAddr::V4(group) => {
            steps.push(SocketStep::CreateV4);
            match interface_addr.ip {
                IpAddr::V4(interface) => {
                    steps.push(SocketStep::JoinV4 { group, interface });
                    steps.push(SocketStep::LoopV4);
                },
                IpAddr::V6(_) => {
                    return JoinPlan { steps, outcome: Err(JoinError::InterfaceMismatch) };
                },
            }
        },
        IpAddr::V6(segments) => {
            steps.push(SocketStep::CreateV6);
            steps.push(SocketStep::OnlyV6);
            steps.push(SocketStep::JoinV6 { segments, index: interface_index });
        },
    }
    steps.push(SocketStep::NonBlocking);
    steps.push(SocketStep::ReuseAddress);
    steps.push(SocketStep::ReusePort);
    steps.push(SocketStep::Bind { addr: *multicast_address });
    steps.push(SocketStep::Adopt);
    assert(steps@ =~= join_steps(*multicast_address, *interface_addr, interface_index));
    JoinPlan { steps, outcome: Ok(()) }
}

/// The group in which media servers and their clients meet.
pub open spec fn ssdp_group() -> SocketAddr {
    v4_address([239u8, 255, 255, 250], 1900)
}

/// Any interface.
pub open spec fn any_interface() -> SocketAddr {
    v4_address([0u8, 0, 0, 0], 0)
}

/// Plans how a socket joins the group in which media servers and their clients meet.
pub fn get_multicast_ssdp_socket_v4() -> (r: JoinPlan)
    ensures
        r.outcome == Ok::<(), JoinError>(()),
        r.steps@ == join_steps(ssdp_group(), any_interface(), 0),
{
    let ssdp_address = SocketAddr::v4([239u8, 255, 255, 250], 1900);
    let interface_address = SocketAddr::v4([0u8, 0, 0, 0], 0);
    let interface_index: u32 = 0;
    join_multicast(&ssdp_address, &interface_address, interface_index)
}

/// A network interface.
pub struct Interface {
    pub multicast: bool,
    pub broadcast: bool,
    pub ips: Vec<IpAddr>,
}

/// The addresses of the older kind.
pub open spec fn v4_only(ips: Seq<IpAddr>) -> Seq<IpAddr>
    decreases ips.len(),
{
    if ips.len() == 0 {
        Seq::empty()
    } else if ips[0] is V4 {
        seq![ips[0]] + v4_only(ips.skip(1))
    } else {
        v4_only(ips.skip(1))
    }
}

/// The addresses of the older kind of those interfaces that reach groups and everyone.
pub open spec fn local_ips(interfaces: Seq<Interface>) -> Seq<IpAddr>
    decreases interfaces.len(),
{
    if interfaces.len() == 0 {
        Seq::empty()
    } else if interfaces[0].multicast && interfaces[0].broadcast {
        v4_only(interfaces[0].ips@) + local_ips(interfaces.skip(1))
    } else {
        local_ips(interfaces.skip(1))
    }
}

/// The addresses that the server speaks from.
pub fn get_local_ips(interfaces: &Vec<Interface>) -> (r: Vec<IpAddr>)
    ensures
        r@ == local_ips(interfaces@),
{
    let mut r: Vec<IpAddr> = Vec::new();
    let mut i: usize = 0;
    assert(interfaces@.skip(0) =~= interfaces@);
    while i < interfaces.len()
        invariant
            i <= interfaces@.len(),
            r@ + local_ips(interfaces@.skip(i as int)) == local_ips(interfaces@),
        decreases interfaces@.len() - i,
    {
        let ghost rest = interfaces@.skip(i as int);
        let ghost before = r@;
        assert(rest.skip(1) =~= interfaces@.skip(i + 1));
        if interfaces[i].multicast && interfaces[i].broadcast {
            let ips = &interfaces[i].ips;
            let mut j: usize = 0;
            assert(ips@.skip(0) =~= ips@);
            while j < ips.len()
                invariant
                    j <= ips@.len(),
                    r@ + v4_only(ips@.skip(j as int)) == before + v4_only(ips@),
                decreases ips@.len() - j,
            {
                let ghost left = ips@.skip(j as int);
                let ghost so_far = r@;
                assert(left.skip(1) =~= ips@.skip(j + 1));
                if ips[j].is_ipv4() {
                    r.push(ips[j]);
                    assert(so_far + v4_only(left) =~= r@ + v4_only(left.skip(1)));
                }
                j += 1;
            }
            assert(r@ =~= before + v4_only(ips@));
            assert(before + local_ips(rest) =~= r@ + local_ips(rest.skip(1)));
        }
        i += 1;
    }
    assert(r@ + Seq::<IpAddr>::empty() =~= r@);
    r
}

/// An address of the older kind that is among the given ones stays, and no other is added.
proof fn v4_kept(ips: Seq<IpAddr>, ip: IpAddr)
    ensures
        v4_only(ips).contains(ip) <==> ips.contains(ip) && ip is V4,
    decreases ips.len(),
{
    if ips.len() > 0 {
        let rest = ips.skip(1);
        v4_kept(rest, ip);
        if ips.contains(ip) && ips[0] != ip {
            let i = choose|i: int| 0 <= i < ips.len() && ips[i] == ip;
            assert(rest[i - 1] == ip);
        }
        if rest.contains(ip) {
            let i = choose|i: int| 0 <= i < rest.len() && rest[i] == ip;
            assert(ips[i + 1] == ip);
        }
        if ips[0] is V4 {
            let all = seq![ips[0]] + v4_only(rest);
            assert(all[0] == ips[0]);
            if v4_only(rest).contains(ip) {
                let i = choose|i: int| 0 <= i < v4_only(rest).len() && v4_only(rest)[i] == ip;
                assert(all[i + 1] == ip);
            }
            if all.contains(ip) && ips[0] != ip {
                let i = choose|i: int| 0 <= i < all.len() && all[i] == ip;
                assert(v4_only(rest)[i - 1] == ip);
            }
        }
    }
}

/// The server speaks from an address exactly if it is of the older kind and belongs to an interface
/// that reaches groups and everyone.
pub proof fn law_speaks_from(interfaces: Seq<Interface>, ip: IpAddr)
    ensures
        local_ips(interfaces).contains(ip) <==> ip is V4 && exists|i: int|
            0 <= i < interfaces.len() && (#[trigger] interfaces[i]).multicast
                && interfaces[i].broadcast && interfaces[i].ips@.contains(ip),
    decreases interfaces.len(),
{
    if interfaces.len() > 0 {
        let first = interfaces[0];
        let rest = interfaces.skip(1);
        law_speaks_from(rest, ip);
        v4_kept(first.ips@, ip);
        if ip is V4 {
            if exists|i: int|
                0 <= i < interfaces.len() && (#[trigger] interfaces[i]).multicast
                    && interfaces[i].broadcast && interfaces[i].ips@.contains(ip) {
                let i = choose|i: int|
                    0 <= i < interfaces.len() && (#[trigger] interfaces[i]).multicast
                        && interfaces[i].broadcast && interfaces[i].ips@.contains(ip);
                if i > 0 {
                    assert(rest[i - 1] == interfaces[i]);
                }
            }
            if exists|i: int|
                0 <= i < rest.len() && (#[trigger] rest[i]).multicast && rest[i].broadcast
                    && rest[i].ips@.contains(ip) {
                let i = choose|i: int|
                    0 <= i < rest.len() && (#[trigger] rest[i]).multicast && rest[i].broadcast
                        && rest[i].ips@.contains(ip);
                assert(interfaces[i + 1] == rest[i]);
            }
        }
        if first.multicast && first.broadcast {
            let own = v4_only(first.ips@);
            let all = own + local_ips(rest);
            if own.contains(ip) {
                let i = choose|i: int| 0 <= i < own.len() && own[i] == ip;
                assert(all[i] == ip);
            }
            if local_ips(rest).contains(ip) {
                let i = choose|i: int| 0 <= i < local_ips(rest).len() && local_ips(rest)[i] == ip;
                assert(all[own.len() + i] == ip);
            }
            if all.contains(ip) && !own.contains(ip) {
                let i = choose|i: int| 0 <= i < all.len() && all[i] == ip;
                if i < own.len() {
                    assert(own[i] == ip);
                }
                assert(local_ips(rest)[i - own.len()] == ip);
            }
        }
    }
}

/// An address of the older kind with its port, as it is written.
pub open spec fn v4_address_text(octets: [u8; 4], port: u16) -> Seq<char> {
    digits(octets[0] as nat) + "."@ + digits(octets[1] as nat) + "."@ + digits(octets[2] as nat)
        + "."@ + digits(octets[3] as nat) + ":"@ + digits(port as nat)
}

/// The server listens in the group that it announces itself to.
pub proof fn law_listens_where_announced()
    ensures
        ssdp_group().ip matches IpAddr::V4(octets) && v4_address_text(octets, ssdp_group().port)
            == MULTICAST_ADDRESS@,
        join_steps(ssdp_group(), any_interface(), 0).contains(
            (SocketStep::Bind { addr: ssdp_group() }),
        ),
{
    reveal_strlit("239.255.255.250:1900");
    reveal_strlit(".");
    reveal_strlit(":");
    reveal_with_fuel(digits, 5);
    assert(digits(239) =~= seq!['2', '3', '9']);
    assert(digits(255) =~= seq!['2', '5', '5']);
    assert(digits(250) =~= seq!['2', '5', '0']);
    assert(digits(1900) =~= seq!['1', '9', '0', '0']);
    let octets = [239u8, 255, 255, 250];
    assert(v4_address_text(octets, 1900) =~= MULTICAST_ADDRESS@);
    assert(join_steps(ssdp_group(), any_interface(), 0)[6] == SocketStep::Bind {
        addr: ssdp_group(),
    });
}

/// A group is joined before its address is taken, and a refused request takes no address.
pub proof fn law_joined_before_bound(group: SocketAddr, interface: SocketAddr, index: u32, i: int)
    requires
        0 <= i < join_steps(group, interface, index).len(),
        join_steps(group, interface, index)[i] is Bind,
    ensures
        join_outcome(group, interface) is Ok,
        join_steps(group, interface, index)[i] == (SocketStep::Bind { addr: group }),
        exists|j: int|
            0 <= j < i && ((#[trigger] join_steps(group, interface, index)[j]) is JoinV4
                || join_steps(group, interface, index)[j] is JoinV6),
{
    let steps = join_steps(group, interface, index);
    match group.ip {
        IpAddr::V4(_) => {
            assert(interface.ip is V4);
            assert(steps[1] is JoinV4);
        },
        IpAddr::V6(_) => {
            assert(steps[2] is JoinV6);
        },
    }
}

} // verus!
