//! Namespaces of the key-value store the API persists its state in.
use vstd::prelude::*;

verus! {

pub const DAOS: &'static str = "api:daos";
pub const PROPOSALS: &'static str = "api:proposals";
pub const TALLIES: &'static str = "api:tallies";
pub const PRIVATE_VOTES: &'static str = "api:private_votes";
pub const DELEGATIONS: &'static str = "api:delegations";
pub const EXECUTION_ENGINE: &'static str = "api:execution_engine";
pub const LISTINGS: &'static str = "api:listings";
pub const REVIEWS: &'static str = "api:reviews";
pub const ORDERS: &'static str = "api:orders";
pub const DISPUTES: &'static str = "api:disputes";
pub const OFFERS: &'static str = "api:offers";
pub const CHANNELS: &'static str = "api:channels";
pub const MESSAGES: &'static str = "api:messages";
pub const CREDENTIALS: &'static str = "api:credentials";
pub const WALLETS: &'static str = "api:wallets";
pub const TRANSACTIONS: &'static str = "api:transactions";
pub const ESCROWS: &'static str = "api:escrows";
pub const INVOICES: &'static str = "api:invoices";
pub const AGENTS: &'static str = "api:agents";
pub const CONVERSATIONS: &'static str = "api:conversations";
pub const IDENTITIES: &'static str = "api:identities";
pub const REPUTATIONS: &'static str = "api:reputations";
pub const FEED: &'static str = "api:feed";
pub const FOLLOW_GRAPH: &'static str = "api:follow_graph";
pub const FILE_STORE: &'static str = "api:file_store";

} // verus!
