//! Real-time events broadcast to connected clients.
use vstd::prelude::*;

verus! {

/// Real-time event broadcast across all connected clients.
#[derive(Debug, Clone)]
pub enum RealtimeEvent {
    /// New post in the social feed.
    NewPost { id: String, author: String, content: String },
    /// New message in a channel.
    NewMessage { channel_id: String, sender: String, content: String },
    /// Vote cast on a proposal.
    VoteCast { proposal_id: String, voter: String },
    /// New DAO created.
    DaoCreated { id: String, name: String },
    /// Proposal submitted.
    ProposalCreated { id: String, title: String, dao_id: String },
    /// Payment or transfer completed.
    Transfer { from: String, to: String, amount: String, token: String },
    /// Listing created or updated in marketplace.
    ListingUpdate { id: String, title: String },
    /// Order status changed.
    OrderUpdate { id: String, status: String },
    /// New dispute opened.
    DisputeOpened { id: String, order_id: String },
    /// Offer made on a listing.
    OfferMade { id: String, listing_id: String },
}

/// The name a Server-Sent Events stream gives an event: its kind in snake
/// case.
pub open spec fn event_name(e: RealtimeEvent) -> Seq<char> {
    match e {
        RealtimeEvent::NewPost { .. } => "new_post"@,
        RealtimeEvent::NewMessage { .. } => "new_message"@,
        RealtimeEvent::VoteCast { .. } => "vote_cast"@,
        RealtimeEvent::DaoCreated { .. } => "dao_created"@,
        RealtimeEvent::ProposalCreated { .. } => "proposal_created"@,
        RealtimeEvent::Transfer { .. } => "transfer"@,
        RealtimeEvent::ListingUpdate { .. } => "listing_update"@,
        RealtimeEvent::OrderUpdate { .. } => "order_update"@,
        RealtimeEvent::DisputeOpened { .. } => "dispute_opened"@,
        RealtimeEvent::OfferMade { .. } => "offer_made"@,
    }
}

impl RealtimeEvent {
    /// The event's name in a Server-Sent Events stream.
    pub fn sse_name(&self) -> (r: &'static str)
        ensures
            r@ == event_name(*self),
    {
        match self {
            RealtimeEvent::NewPost { .. } => "new_post",
            RealtimeEvent::NewMessage { .. } => "new_message",
            RealtimeEvent::VoteCast { .. } => "vote_cast",
            RealtimeEvent::DaoCreated { .. } => "dao_created",
            RealtimeEvent::ProposalCreated { .. } => "proposal_created",
            RealtimeEvent::Transfer { .. } => "transfer",
            RealtimeEvent::ListingUpdate { .. } => "listing_update",
            RealtimeEvent::OrderUpdate { .. } => "order_update",
            RealtimeEvent::DisputeOpened { .. } => "dispute_opened",
            RealtimeEvent::OfferMade { .. } => "offer_made",
        }
    }
}

} // verus!
