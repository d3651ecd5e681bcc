//! Listing, review, order, dispute and offer requests.
use vstd::prelude::*;
use crate::search::{lowercase, lowercase_text};
use crate::text::{chars_of, str_eq, string_from_range, trim, trim_range};

verus! {

/// A listing, its price as an amount of a token.
#[derive(Debug, Clone)]
pub struct ListingResponse {
    pub id: String,
    pub seller_did: String,
    pub title: String,
    pub description: String,
    pub category: String,
    pub price_token: String,
    pub price_amount: u128,
    pub quantity: u32,
    pub status: String,
    pub created_at: String,
    pub tags: Vec<String>,
    pub images: Vec<String>,
}

/// A list of listings.
#[derive(Debug, Clone)]
pub struct ListingListResponse {
    pub listings: Vec<ListingResponse>,
    pub count: usize,
}

/// A request to review a listing.
#[derive(Debug, Clone)]
pub struct CreateReviewRequest {
    pub listing_id: String,
    pub reviewer_did: String,
    pub seller_did: String,
    pub rating: u8,
    pub comment: String,
}

/// A review.
#[derive(Debug, Clone)]
pub struct ReviewResponse {
    pub id: String,
    pub listing_id: String,
    pub reviewer_did: String,
    pub seller_did: String,
    pub rating: u8,
    pub comment: String,
    pub timestamp: String,
    pub verified_purchase: bool,
}

/// A list of reviews.
#[derive(Debug, Clone)]
pub struct ReviewListResponse {
    pub reviews: Vec<ReviewResponse>,
    pub count: usize,
}

/// A search of listings.
#[derive(Debug, Clone)]
pub struct SearchQueryParams {
    pub text: Option<String>,
    pub category: Option<String>,
    pub min_price: Option<u128>,
    pub max_price: Option<u128>,
    pub token: Option<String>,
    pub seller_did: Option<String>,
    /// Tags separated by commas.
    pub tags: Option<String>,
    pub sort: Option<String>,
    pub limit: Option<usize>,
    pub offset: Option<usize>,
}

/// The pieces of `s` between commas, in order (one piece when there is no
/// comma, an empty one for empty `s`).
pub open spec fn comma_pieces(s: Seq<char>) -> Seq<Seq<char>>
    decreases s.len(),
{
    if s.len() == 0 {
        seq![Seq::empty()]
    } else {
        let p = comma_pieces(s.drop_last());
        if s.last() == ',' {
            p.push(Seq::empty())
        } else {
            p.update(p.len() - 1, p.last().push(s.last()))
        }
    }
}

/// The tags of a comma-separated list, each trimmed.
pub open spec fn tags_of(s: Seq<char>) -> Seq<Seq<char>> {
    comma_pieces(s).map_values(|p: Seq<char>| trim(p))
}

/// Splits a comma-separated list and trims each piece.
pub fn split_tags(s: &str) -> (r: Vec<String>)
    ensures
        r@.len() == tags_of(s@).len(),
        forall|i: int| 0 <= i < r@.len() ==> #[trigger] r@[i]@ == tags_of(s@)[i],
{
    let cs = chars_of(s);
    let mut out: Vec<String> = Vec::new();
    let mut start: usize = 0;
    let n = cs.len();
    let mut i: usize = 0;
    while i < n
        invariant
            n == cs@.len(),
            cs@ == s@,
            start <= i <= n,
            comma_pieces(cs@.take(i as int)).len() == out@.len() + 1,
            comma_pieces(cs@.take(i as int)).last() == cs@.subrange(start as int, i as int),
            forall|k: int| 0 <= k < out@.len() ==> #[trigger] out@[k]@ == trim(comma_pieces(cs@.take(i as int))[k]),
        decreases n - i,
    {
        let ghost before = comma_pieces(cs@.take(i as int));
        assert(cs@.take(i + 1).drop_last() =~= cs@.take(i as int));
        assert(cs@.take(i + 1).last() == cs@[i as int]);
        if cs[i] == ',' {
            let (a, b) = trim_range(&cs, start, i);
            out.push(string_from_range(&cs, a, b));
            start = i + 1;
            assert(cs@.subrange(start as int, i + 1) =~= Seq::<char>::empty());
        } else {
            assert(cs@.subrange(start as int, i + 1) =~= cs@.subrange(start as int, i as int).push(cs@[i as int]));
        }
        i += 1;
    }
    let (a, b) = trim_range(&cs, start, n);
    out.push(string_from_range(&cs, a, b));
    assert(cs@.take(n as int) =~= cs@);
    out
}

impl SearchQueryParams {
    /// The tags searched for, when any are given.
    pub fn tag_list(&self) -> (r: Option<Vec<String>>)
        ensures
            match self.tags {
                None => r is None,
                Some(t) => r matches Some(v) && v@.len() == tags_of(t@).len() && forall|i: int|
                    0 <= i < v@.len() ==> #[trigger] v@[i]@ == tags_of(t@)[i],
            },
    {
        match &self.tags {
            None => None,
            Some(t) => Some(split_tags(t.as_str())),
        }
    }

    /// The page asked for: the limit and the offset (from the start when
    /// none is given); no page without a limit.
    pub fn pagination(&self) -> (r: Option<(usize, usize)>)
        ensures
            r == match self.limit {
                Some(l) => Some((l, match self.offset { Some(o) => o, None => 0usize })),
                None => None::<(usize, usize)>,
            },
    {
        match self.limit {
            Some(l) => Some((l, match self.offset { Some(o) => o, None => 0 })),
            None => None,
        }
    }
}

/// A request to buy a listing outright.
#[derive(Debug, Clone)]
pub struct PurchaseRequest {
    pub buyer_did: String,
}

/// The outcome of a change.
#[derive(Debug, Clone)]
pub struct MutationResponse {
    pub success: bool,
    pub message: String,
}

/// A query of a seller's listings.
#[derive(Debug, Clone)]
pub struct SellerQuery {
    pub seller_did: String,
}

/// A query of reviews.
#[derive(Debug, Clone)]
pub struct ReviewQuery {
    pub listing_id: Option<String>,
    pub seller_did: Option<String>,
}

/// A request to order a listing.
#[derive(Debug, Clone)]
pub struct CreateOrderRequest {
    pub listing_id: String,
    pub buyer_did: String,
    pub quantity: Option<u32>,
}

impl CreateOrderRequest {
    /// The quantity ordered: one unless given.
    pub fn quantity_or_default(&self) -> (r: u32)
        ensures
            r == match self.quantity { Some(q) => q, None => 1u32 },
    {
        match self.quantity {
            Some(q) => q,
            None => 1,
        }
    }
}

/// An order.
#[derive(Debug, Clone)]
pub struct OrderResponse {
    pub id: String,
    pub listing_id: String,
    pub buyer_did: String,
    pub seller_did: String,
    pub token: String,
    pub amount: u128,
    pub quantity: u32,
    pub status: String,
    pub escrow_id: Option<String>,
    pub shipping: Option<ShippingResponse>,
    pub created_at: String,
    pub updated_at: String,
    pub completed_at: Option<String>,
}

/// How an order was shipped.
#[derive(Debug, Clone)]
pub struct ShippingResponse {
    pub carrier: String,
    pub tracking_id: String,
    pub shipped_at: String,
}

/// A list of orders.
#[derive(Debug, Clone)]
pub struct OrderListResponse {
    pub orders: Vec<OrderResponse>,
    pub count: usize,
}

/// A request to fund an order's escrow.
#[derive(Debug, Clone)]
pub struct FundEscrowRequest {
    pub escrow_id: String,
}

/// A request to mark an order shipped.
#[derive(Debug, Clone)]
pub struct ShipOrderRequest {
    pub seller_did: String,
    pub carrier: String,
    pub tracking_id: String,
}

/// Who asks for an action on an order.
#[derive(Debug, Clone)]
pub struct CallerRequest {
    pub caller_did: String,
}

/// A query of orders.
#[derive(Debug, Clone)]
pub struct OrderQuery {
    pub buyer_did: Option<String>,
    pub seller_did: Option<String>,
    pub status: Option<String>,
}

/// A request to open a dispute on an order.
#[derive(Debug, Clone)]
pub struct CreateDisputeRequest {
    pub order_id: String,
    pub initiator_did: String,
    pub respondent_did: String,
    pub reason: String,
    pub description: String,
}

/// A dispute.
#[derive(Debug, Clone)]
pub struct DisputeResponse {
    pub id: String,
    pub order_id: String,
    pub initiator_did: String,
    pub respondent_did: String,
    pub reason: String,
    pub description: String,
    pub evidence_count: usize,
    pub status: String,
    pub arbiter_did: Option<String>,
    pub resolution_note: Option<String>,
    pub created_at: String,
    pub resolved_at: Option<String>,
}

/// A list of disputes.
#[derive(Debug, Clone)]
pub struct DisputeListResponse {
    pub disputes: Vec<DisputeResponse>,
    pub count: usize,
}

/// Evidence added to a dispute.
#[derive(Debug, Clone)]
pub struct AddEvidenceRequest {
    pub submitted_by: String,
    pub description: String,
    pub attachments: Option<Vec<String>>,
}

/// A request to assign a dispute's arbiter.
#[derive(Debug, Clone)]
pub struct AssignArbiterRequest {
    pub arbiter_did: String,
}

/// A request to resolve a dispute.
#[derive(Debug, Clone)]
pub struct ResolveDisputeRequest {
    pub caller_did: String,
    pub note: String,
}

/// A query of disputes.
#[derive(Debug, Clone)]
pub struct DisputeQuery {
    pub order_id: Option<String>,
    pub status: Option<String>,
}

/// A request to make an offer on a listing.
#[derive(Debug, Clone)]
pub struct CreateOfferRequest {
    pub listing_id: String,
    pub buyer_did: String,
    pub amount: u128,
    pub token: String,
    pub duration_hours: Option<i64>,
    pub message: Option<String>,
}

impl CreateOfferRequest {
    /// How long the offer stands, in hours: 48 unless given.
    pub fn duration_or_default(&self) -> (r: i64)
        ensures
            r == match self.duration_hours { Some(h) => h, None => 48i64 },
    {
        match self.duration_hours {
            Some(h) => h,
            None => 48,
        }
    }
}

/// An offer.
#[derive(Debug, Clone)]
pub struct OfferResponse {
    pub id: String,
    pub listing_id: String,
    pub buyer_did: String,
    pub seller_did: String,
    pub token: String,
    pub amount: u128,
    pub message: Option<String>,
    pub status: String,
    pub counter_amount: Option<u128>,
    pub created_at: String,
    pub expires_at: String,
    pub responded_at: Option<String>,
}

/// A list of offers.
#[derive(Debug, Clone)]
pub struct OfferListResponse {
    pub offers: Vec<OfferResponse>,
    pub count: usize,
}

/// A seller's counter-offer.
#[derive(Debug, Clone)]
pub struct CounterOfferRequest {
    pub seller_did: String,
    pub counter_amount: u128,
}

/// A query of offers.
#[derive(Debug, Clone)]
pub struct OfferQuery {
    pub listing_id: Option<String>,
    pub buyer_did: Option<String>,
    pub seller_did: Option<String>,
    pub status: Option<String>,
}

// ── List filters ──────────────────────────────────────────────────────

/// `value` meets the optional criterion `wanted` (equality).
pub open spec fn passes(wanted: Option<Seq<char>>, value: Seq<char>) -> bool {
    match wanted {
        Some(w) => w == value,
        None => true,
    }
}

/// A status named `status` meets the optional criterion `wanted`: equal
/// once both are lower-cased.
pub open spec fn passes_status(wanted: Option<Seq<char>>, status: Seq<char>) -> bool {
    match wanted {
        Some(w) => lowercase_text(status) == lowercase_text(w),
        None => true,
    }
}

/// The plain view of an optional string.
pub open spec fn opt_view(o: Option<String>) -> Option<Seq<char>> {
    match o {
        Some(s) => Some(s@),
        None => None,
    }
}

fn passes_exec(wanted: &Option<String>, value: &str) -> (r: bool)
    ensures
        r == passes(opt_view(*wanted), value@),
{
    match wanted {
        Some(w) => str_eq(w.as_str(), value),
        None => true,
    }
}

fn passes_status_exec(wanted: &Option<String>, status: &str) -> (r: bool)
    ensures
        r == passes_status(opt_view(*wanted), status@),
{
    match wanted {
        Some(w) => {
            let a = lowercase(status);
            let b = lowercase(w.as_str());
            str_eq(a.as_str(), b.as_str())
        },
        None => true,
    }
}

impl ReviewQuery {
    /// Whether a review of listing `listing_id` for seller `seller_did`
    /// answers the query.
    pub fn selects(&self, listing_id: &str, seller_did: &str) -> (r: bool)
        ensures
            r == (passes(opt_view(self.listing_id), listing_id@) && passes(opt_view(self.seller_did), seller_did@)),
    {
        passes_exec(&self.listing_id, listing_id) && passes_exec(&self.seller_did, seller_did)
    }
}

impl OrderQuery {
    /// Whether an order between `buyer_did` and `seller_did`, whose status
    /// is named `status`, answers the query.
    pub fn selects(&self, buyer_did: &str, seller_did: &str, status: &str) -> (r: bool)
        ensures
            r == (passes(opt_view(self.buyer_did), buyer_did@) && passes(opt_view(self.seller_did), seller_did@)
                && passes_status(opt_view(self.status), status@)),
    {
        passes_exec(&self.buyer_did, buyer_did) && passes_exec(&self.seller_did, seller_did)
            && passes_status_exec(&self.status, status)
    }
}

impl OfferQuery {
    /// Whether an offer on `listing_id` between `buyer_did` and
    /// `seller_did`, whose status is named `status`, answers the query.
    pub fn selects(&self, listing_id: &str, buyer_did: &str, seller_did: &str, status: &str) -> (r: bool)
        ensures
            r == (passes(opt_view(self.listing_id), listing_id@) && passes(opt_view(self.buyer_did), buyer_did@)
                && passes(opt_view(self.seller_did), seller_did@) && passes_status(opt_view(self.status), status@)),
    {
        passes_exec(&self.listing_id, listing_id) && passes_exec(&self.buyer_did, buyer_did)
            && passes_exec(&self.seller_did, seller_did) && passes_status_exec(&self.status, status)
    }
}

impl DisputeQuery {
    /// Whether a dispute over `order_id`, whose status is named `status`,
    /// answers the query.
    pub fn selects(&self, order_id: &str, status: &str) -> (r: bool)
        ensures
            r == (passes(opt_view(self.order_id), order_id@) && passes_status(opt_view(self.status), status@)),
    {
        passes_exec(&self.order_id, order_id) && passes_status_exec(&self.status, status)
    }
}

} // verus!
