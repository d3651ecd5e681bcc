//! Node information, health and peer requests.
use vstd::prelude::*;
use crate::error::ApiError;
use crate::text::{decimal, decimal_string};
use vstd::string::StringExecFns;

verus! {

/// Health of the server.
#[derive(Debug, Clone)]
pub struct HealthResponse {
    pub status: String,
    pub version: String,
    pub uptime_ms: u64,
}

/// What the node is and which features it offers.
#[derive(Debug, Clone)]
pub struct NodeInfo {
    pub protocol: String,
    pub version: String,
    pub features: Vec<String>,
}

/// The health answer of a running server of version `version`.
pub fn health(version: &str) -> (r: HealthResponse)
    ensures
        r.status@ == "ok"@,
        r.version@ == version@,
        r.uptime_ms == 0,
{
    HealthResponse { status: "ok".to_owned(), version: version.to_owned(), uptime_ms: 0 }
}

/// The features every node offers, in order.
pub open spec fn node_features() -> Seq<Seq<char>> {
    seq!["identity"@, "messaging"@, "social"@, "governance"@, "payments"@, "marketplace"@]
}

/// The information of a node of version `version`: the `nous` protocol and
/// its features.
pub fn node_info(version: &str) -> (r: NodeInfo)
    ensures
        r.protocol@ == "nous"@,
        r.version@ == version@,
        r.features@.len() == node_features().len(),
        forall|i: int| 0 <= i < r.features@.len() ==> #[trigger] r.features@[i]@ == node_features()[i],
{
    let mut features: Vec<String> = Vec::new();
    features.push("identity".to_owned());
    features.push("messaging".to_owned());
    features.push("social".to_owned());
    features.push("governance".to_owned());
    features.push("payments".to_owned());
    features.push("marketplace".to_owned());
    NodeInfo { protocol: "nous".to_owned(), version: version.to_owned(), features }
}

/// Health state of a subsystem.
#[derive(Debug, Clone, Copy, PartialEq, Eq, Structural)]
pub enum SubsystemHealth {
    /// Fully operational.
    Healthy,
    /// Operational but with warnings.
    Degraded,
    /// Not operational.
    Down,
}

/// Status of a single node subsystem.
#[derive(Debug, Clone)]
pub struct SubsystemStatus {
    /// Subsystem name (e.g., "networking", "identity").
    pub name: String,
    /// Current status.
    pub status: SubsystemHealth,
    /// Number of active entities managed by this subsystem.
    pub active_count: usize,
    /// Optional status message.
    pub message: Option<String>,
}

/// All subsystem statuses and the node's overall health.
#[derive(Debug, Clone)]
pub struct SubsystemsResponse {
    pub subsystems: Vec<SubsystemStatus>,
    pub overall: SubsystemHealth,
}

/// What each subsystem is managing right now.
#[derive(Debug, Clone, Copy)]
pub struct SubsystemCounts {
    pub peers: usize,
    pub identities: usize,
    pub channels: usize,
    pub daos: usize,
    pub wallets: usize,
    pub feed_events: usize,
    pub agents: usize,
    pub files: usize,
}

/// Some status in `s` is `h`.
pub open spec fn some_status(s: Seq<SubsystemStatus>, h: SubsystemHealth) -> bool {
    exists|i: int| 0 <= i < s.len() && #[trigger] s[i].status == h
}

/// The node's overall health: down when any subsystem is down, else
/// degraded when any is degraded, else healthy.
pub open spec fn overall_of(s: Seq<SubsystemStatus>) -> SubsystemHealth {
    if some_status(s, SubsystemHealth::Down) {
        SubsystemHealth::Down
    } else if some_status(s, SubsystemHealth::Degraded) {
        SubsystemHealth::Degraded
    } else {
        SubsystemHealth::Healthy
    }
}

/// The overall health of a set of subsystem statuses.
pub fn overall_health(subsystems: &[SubsystemStatus]) -> (r: SubsystemHealth)
    ensures
        r == overall_of(subsystems@),
{
    let mut down = false;
    let mut degraded = false;
    let n = subsystems.len();
    for i in 0..n
        invariant
            n == subsystems@.len(),
            down == some_status(subsystems@.take(i as int), SubsystemHealth::Down),
            degraded == some_status(subsystems@.take(i as int), SubsystemHealth::Degraded),
    {
        let st = subsystems[i].status;
        proof {
            let pre = subsystems@.take(i as int);
            let next = subsystems@.take(i + 1);
            assert(next[i as int] == subsystems@[i as int]);
            assert forall|h: SubsystemHealth| some_status(next, h) == (some_status(pre, h) || subsystems@[i as int].status == h) by {
                if some_status(pre, h) {
                    let k = choose|k: int| 0 <= k < pre.len() && #[trigger] pre[k].status == h;
                    assert(next[k] == pre[k]);
                }
                if some_status(next, h) {
                    let k = choose|k: int| 0 <= k < next.len() && #[trigger] next[k].status == h;
                    if k < i {
                        assert(pre[k] == next[k]);
                    }
                }
            }
        }
        match st {
            SubsystemHealth::Down => { down = true; },
            SubsystemHealth::Degraded => { degraded = true; },
            SubsystemHealth::Healthy => {},
        }
    }
    assert(subsystems@.take(n as int) =~= subsystems@);
    if down {
        SubsystemHealth::Down
    } else if degraded {
        SubsystemHealth::Degraded
    } else {
        SubsystemHealth::Healthy
    }
}

/// Healthy when there is something, degraded when there is nothing.
pub open spec fn presence_health(count: usize) -> SubsystemHealth {
    if count == 0 {
        SubsystemHealth::Degraded
    } else {
        SubsystemHealth::Healthy
    }
}

/// The status of one subsystem: its name, health, count, and message (the
/// count followed by `suffix`, when there is a suffix).
pub open spec fn status_is(
    s: SubsystemStatus,
    name: Seq<char>,
    health: SubsystemHealth,
    count: usize,
    suffix: Option<Seq<char>>,
) -> bool {
    &&& s.name@ == name
    &&& s.status == health
    &&& s.active_count == count
    &&& match suffix {
        Some(x) => s.message matches Some(m) && m@ == decimal(count as nat) + x,
        None => s.message is None,
    }
}

fn status_of(name: &str, health: SubsystemHealth, count: usize, suffix: Option<&str>) -> (r: SubsystemStatus)
    ensures
        status_is(r, name@, health, count, match suffix { Some(x) => Some(x@), None => None }),
{
    let message = match suffix {
        Some(x) => {
            let mut m = decimal_string(count);
            m.append(x);
            Some(m)
        },
        None => None,
    };
    SubsystemStatus { name: name.to_owned(), status: health, active_count: count, message }
}

/// The status report of the node's subsystems: networking and identity are
/// degraded while they have nothing (no peer, no identity), the others are
/// healthy; each reports its count.
pub fn subsystem_report(c: &SubsystemCounts) -> (r: SubsystemsResponse)
    ensures
        r.subsystems@.len() == 8,
        status_is(r.subsystems@[0], "networking"@, presence_health(c.peers), c.peers, Some(" connected peers"@)),
        status_is(r.subsystems@[1], "identity"@, presence_health(c.identities), c.identities, None),
        status_is(r.subsystems@[2], "messaging"@, SubsystemHealth::Healthy, c.channels, Some(" active channels"@)),
        status_is(r.subsystems@[3], "governance"@, SubsystemHealth::Healthy, c.daos, Some(" DAOs"@)),
        status_is(r.subsystems@[4], "payments"@, SubsystemHealth::Healthy, c.wallets, Some(" wallets"@)),
        status_is(r.subsystems@[5], "social"@, SubsystemHealth::Healthy, c.feed_events, Some(" events in feed"@)),
        status_is(r.subsystems@[6], "ai"@, SubsystemHealth::Healthy, c.agents, Some(" agents"@)),
        status_is(r.subsystems@[7], "storage"@, SubsystemHealth::Healthy, c.files, Some(" files"@)),
        r.overall == overall_of(r.subsystems@),
{
    let networking = if c.peers == 0 { SubsystemHealth::Degraded } else { SubsystemHealth::Healthy };
    let identity = if c.identities == 0 { SubsystemHealth::Degraded } else { SubsystemHealth::Healthy };
    let mut subsystems: Vec<SubsystemStatus> = Vec::new();
    subsystems.push(status_of("networking", networking, c.peers, Some(" connected peers")));
    subsystems.push(status_of("identity", identity, c.identities, None));
    subsystems.push(status_of("messaging", SubsystemHealth::Healthy, c.channels, Some(" active channels")));
    subsystems.push(status_of("governance", SubsystemHealth::Healthy, c.daos, Some(" DAOs")));
    subsystems.push(status_of("payments", SubsystemHealth::Healthy, c.wallets, Some(" wallets")));
    subsystems.push(status_of("social", SubsystemHealth::Healthy, c.feed_events, Some(" events in feed")));
    subsystems.push(status_of("ai", SubsystemHealth::Healthy, c.agents, Some(" agents")));
    subsystems.push(status_of("storage", SubsystemHealth::Healthy, c.files, Some(" files")));
    let overall = overall_health(subsystems.as_slice());
    SubsystemsResponse { subsystems, overall }
}

/// The node is degraded exactly when it has no peer or no identity; no
/// subsystem is ever reported down.
pub proof fn law_node_degraded_without_peers_or_identities(c: SubsystemCounts, r: SubsystemsResponse)
    requires
        r.subsystems@.len() == 8,
        status_is(r.subsystems@[0], "networking"@, presence_health(c.peers), c.peers, Some(" connected peers"@)),
        status_is(r.subsystems@[1], "identity"@, presence_health(c.identities), c.identities, None),
        status_is(r.subsystems@[2], "messaging"@, SubsystemHealth::Healthy, c.channels, Some(" active channels"@)),
        status_is(r.subsystems@[3], "governance"@, SubsystemHealth::Healthy, c.daos, Some(" DAOs"@)),
        status_is(r.subsystems@[4], "payments"@, SubsystemHealth::Healthy, c.wallets, Some(" wallets"@)),
        status_is(r.subsystems@[5], "social"@, SubsystemHealth::Healthy, c.feed_events, Some(" events in feed"@)),
        status_is(r.subsystems@[6], "ai"@, SubsystemHealth::Healthy, c.agents, Some(" agents"@)),
        status_is(r.subsystems@[7], "storage"@, SubsystemHealth::Healthy, c.files, Some(" files"@)),
        r.overall == overall_of(r.subsystems@),
    ensures
        r.overall != SubsystemHealth::Down,
        r.overall == SubsystemHealth::Degraded <==> (c.peers == 0 || c.identities == 0),
{
    let s = r.subsystems@;
    if some_status(s, SubsystemHealth::Down) {
        let k = choose|k: int| 0 <= k < s.len() && #[trigger] s[k].status == SubsystemHealth::Down;
        assert(false);
    }
    if c.peers == 0 {
        assert(s[0].status == SubsystemHealth::Degraded);
    } else if c.identities == 0 {
        assert(s[1].status == SubsystemHealth::Degraded);
    } else if some_status(s, SubsystemHealth::Degraded) {
        let k = choose|k: int| 0 <= k < s.len() && #[trigger] s[k].status == SubsystemHealth::Degraded;
        assert(false);
    }
}

/// A peer as the node sees it.
#[derive(Debug, Clone)]
pub struct PeerInfo {
    pub peer_id: String,
    pub multiaddr: String,
    pub latency_ms: Option<u64>,
    pub bytes_sent: u64,
    pub bytes_recv: u64,
    pub connected_at: String,
    pub protocols: Vec<String>,
}

/// The node's peers.
#[derive(Debug, Clone)]
pub struct PeersResponse {
    pub peers: Vec<PeerInfo>,
    pub count: usize,
}

/// A request to connect to a peer.
#[derive(Debug, Clone)]
pub struct ConnectPeerRequest {
    pub multiaddr: String,
}

impl ConnectPeerRequest {
    /// A peer address is required.
    pub fn validate(&self) -> (r: Result<(), ApiError>)
        ensures
            self.multiaddr@.len() == 0 <==> r is Err,
            r matches Err(e) ==> e.status == 400 && e.message@ == "multiaddr cannot be empty"@,
    {
        if self.multiaddr.as_str().is_empty() {
            Err(ApiError::bad_request("multiaddr cannot be empty"))
        } else {
            Ok(())
        }
    }
}

} // verus!
