//! What the desktop shell shows: the node's status and wallet balances.
use vstd::prelude::*;

verus! {

/// The node as the desktop shows it.
#[derive(Debug, Clone)]
pub struct NodeStatus {
    pub did: String,
    pub peers: u32,
    pub uptime_secs: u64,
    pub version: String,
    pub modules: Vec<ModuleStatus>,
}

/// One module of the node and whether it runs.
#[derive(Debug, Clone)]
pub struct ModuleStatus {
    pub name: String,
    pub status: String,
}

/// A token balance as the desktop shows it.
#[derive(Debug, Clone)]
pub struct WalletBalance {
    pub token: String,
    pub balance: String,
    pub usd_value: Option<String>,
}

/// The identity the desktop node runs as.
pub open spec fn desktop_did() -> Seq<char> {
    "did:key:z6MkhaXgBZDvotDkL5257faiztiGiC2QtKLGpbnnEGta2doK"@
}

/// The modules the desktop lists, with their states, in order.
pub open spec fn desktop_modules() -> Seq<(Seq<char>, Seq<char>)> {
    seq![
        ("Identity"@, "active"@),
        ("Messaging"@, "active"@),
        ("Governance"@, "active"@),
        ("Social"@, "active"@),
        ("Payments"@, "standby"@),
        ("Storage"@, "active"@),
        ("AI"@, "standby"@),
        ("Browser"@, "standby"@),
    ]
}

fn module(name: &str, status: &str) -> (r: ModuleStatus)
    ensures
        r.name@ == name@,
        r.status@ == status@,
{
    ModuleStatus { name: name.to_owned(), status: status.to_owned() }
}

/// The status of a freshly started desktop node of version `version`: no
/// peers yet, and the modules it ships with.
pub fn node_status(version: &str) -> (r: NodeStatus)
    ensures
        r.did@ == desktop_did(),
        r.peers == 0,
        r.uptime_secs == 0,
        r.version@ == version@,
        r.modules@.len() == desktop_modules().len(),
        forall|i: int| 0 <= i < r.modules@.len() ==> (#[trigger] r.modules@[i]).name@ == desktop_modules()[i].0
            && r.modules@[i].status@ == desktop_modules()[i].1,
{
    let mut modules: Vec<ModuleStatus> = Vec::new();
    modules.push(module("Identity", "active"));
    modules.push(module("Messaging", "active"));
    modules.push(module("Governance", "active"));
    modules.push(module("Social", "active"));
    modules.push(module("Payments", "standby"));
    modules.push(module("Storage", "active"));
    modules.push(module("AI", "standby"));
    modules.push(module("Browser", "standby"));
    NodeStatus {
        did: "did:key:z6MkhaXgBZDvotDkL5257faiztiGiC2QtKLGpbnnEGta2doK".to_owned(),
        peers: 0,
        uptime_secs: 0,
        version: version.to_owned(),
        modules,
    }
}

fn balance(token: &str, usd: Option<&str>) -> (r: WalletBalance)
    ensures
        r.token@ == token@,
        r.balance@ == "0.000"@,
        match usd {
            Some(u) => r.usd_value matches Some(v) && v@ == u@,
            None => r.usd_value is None,
        },
{
    WalletBalance {
        token: token.to_owned(),
        balance: "0.000".to_owned(),
        usd_value: match usd {
            Some(u) => Some(u.to_owned()),
            None => None,
        },
    }
}

/// The balances of a new wallet: nothing of ETH, NOUS and USDC (NOUS has
/// no dollar value).
pub fn wallet_balances() -> (r: Vec<WalletBalance>)
    ensures
        r@.len() == 3,
        r@[0].token@ == "ETH"@ && r@[0].balance@ == "0.000"@ && (r@[0].usd_value matches Some(v)
            && v@ == "$0.00"@),
        r@[1].token@ == "NOUS"@ && r@[1].balance@ == "0.000"@ && r@[1].usd_value is None,
        r@[2].token@ == "USDC"@ && r@[2].balance@ == "0.000"@ && (r@[2].usd_value matches Some(v)
            && v@ == "$0.00"@),
{
    let mut v: Vec<WalletBalance> = Vec::new();
    v.push(balance("ETH", Some("$0.00")));
    v.push(balance("NOUS", None));
    v.push(balance("USDC", Some("$0.00")));
    v
}

} // verus!
