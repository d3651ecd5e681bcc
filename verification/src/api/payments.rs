//! Wallet, transfer, escrow and invoice requests.
use vstd::prelude::*;
use crate::api::social::{page_limit, page_size, refused_as, require_field};
use crate::error::ApiError;
use crate::text::str_eq;

verus! {

/// A request to open a wallet.
#[derive(Debug, Clone)]
pub struct CreateWalletRequest {
    pub did: String,
}

impl CreateWalletRequest {
    /// The owner's DID is required.
    pub fn validate(&self) -> (r: Result<(), ApiError>)
        ensures
            refused_as(r, if self.did@.len() == 0 { Some("did is required"@) } else { None }),
    {
        require_field(self.did.as_str(), "did is required")
    }
}

/// A wallet and its balances.
#[derive(Debug, Clone)]
pub struct WalletResponse {
    pub did: String,
    pub balances: Vec<BalanceEntry>,
    pub nonce: u64,
    pub created_at: String,
}

/// One token balance, as decimal text.
#[derive(Debug, Clone)]
pub struct BalanceEntry {
    pub token: String,
    pub amount: String,
}

/// The refusal of an amount to move: zero is not an amount.
pub open spec fn amount_refusal(amount: u128) -> Option<Seq<char>> {
    if amount == 0 {
        Some("amount must be positive"@)
    } else {
        None
    }
}

fn check_amount(amount: u128) -> (r: Result<(), ApiError>)
    ensures
        refused_as(r, amount_refusal(amount)),
{
    if amount == 0 {
        Err(ApiError::bad_request("amount must be positive"))
    } else {
        Ok(())
    }
}

/// A request to credit a wallet.
#[derive(Debug, Clone)]
pub struct CreditRequest {
    pub token: String,
    pub amount: u128,
}

impl CreditRequest {
    /// The amount must be positive.
    pub fn validate(&self) -> (r: Result<(), ApiError>)
        ensures
            refused_as(r, amount_refusal(self.amount)),
    {
        check_amount(self.amount)
    }
}

/// A request to debit a wallet.
#[derive(Debug, Clone)]
pub struct DebitRequest {
    pub token: String,
    pub amount: u128,
}

impl DebitRequest {
    /// The amount must be positive.
    pub fn validate(&self) -> (r: Result<(), ApiError>)
        ensures
            refused_as(r, amount_refusal(self.amount)),
    {
        check_amount(self.amount)
    }
}

/// A request to transfer tokens between wallets.
#[derive(Debug, Clone)]
pub struct TransferRequest {
    pub from_did: String,
    pub to_did: String,
    pub token: String,
    pub amount: u128,
    pub memo: Option<String>,
}

/// A transaction, amounts as decimal text.
#[derive(Debug, Clone)]
pub struct TransactionResponse {
    pub id: String,
    pub from_did: String,
    pub to_did: String,
    pub token: String,
    pub amount: String,
    pub fee: String,
    pub memo: Option<String>,
    pub status: String,
    pub timestamp: String,
}

/// A request to open an escrow.
#[derive(Debug, Clone)]
pub struct CreateEscrowRequest {
    pub buyer_did: String,
    pub seller_did: String,
    pub arbiter_did: Option<String>,
    pub token: String,
    pub amount: u128,
    pub description: String,
    pub duration_hours: i64,
    pub conditions: Option<Vec<String>>,
}

/// An escrow, its amount as decimal text.
#[derive(Debug, Clone)]
pub struct EscrowResponse {
    pub id: String,
    pub buyer_did: String,
    pub seller_did: String,
    pub arbiter_did: Option<String>,
    pub token: String,
    pub amount: String,
    pub status: String,
    pub description: String,
    pub conditions: Vec<String>,
    pub created_at: String,
    pub expires_at: String,
}

/// Who asks for an action on an escrow.
#[derive(Debug, Clone)]
pub struct EscrowActionRequest {
    pub caller_did: String,
}

/// A request to issue an invoice.
#[derive(Debug, Clone)]
pub struct CreateInvoiceRequest {
    pub from_did: String,
    pub to_did: String,
    pub token: String,
    pub days_until_due: i64,
    pub memo: Option<String>,
    pub items: Vec<LineItemRequest>,
}

/// The refusal of an invoice, if any: it needs an item, and a due date in
/// the future.
pub open spec fn invoice_refusal(items: nat, days_until_due: i64) -> Option<Seq<char>> {
    if items == 0 {
        Some("invoice must have at least one item"@)
    } else if days_until_due <= 0 {
        Some("days_until_due must be positive"@)
    } else {
        None
    }
}

impl CreateInvoiceRequest {
    /// An invoice needs at least one item and a positive number of days
    /// until it is due.
    pub fn validate(&self) -> (r: Result<(), ApiError>)
        ensures
            refused_as(r, invoice_refusal(self.items@.len(), self.days_until_due)),
    {
        if self.items.len() == 0 {
            return Err(ApiError::bad_request("invoice must have at least one item"));
        }
        if self.days_until_due <= 0 {
            return Err(ApiError::bad_request("days_until_due must be positive"));
        }
        Ok(())
    }
}

/// One line of an invoice request.
#[derive(Debug, Clone)]
pub struct LineItemRequest {
    pub description: String,
    pub quantity: u32,
    pub unit_price: u128,
}

/// An invoice, amounts as decimal text.
#[derive(Debug, Clone)]
pub struct InvoiceResponse {
    pub id: String,
    pub from_did: String,
    pub to_did: String,
    pub token: String,
    pub total: String,
    pub status: String,
    pub memo: Option<String>,
    pub items: Vec<LineItemResponse>,
    pub created_at: String,
    pub due_at: String,
    pub paid_at: Option<String>,
}

/// One line of an invoice, amounts as decimal text.
#[derive(Debug, Clone)]
pub struct LineItemResponse {
    pub description: String,
    pub quantity: u32,
    pub unit_price: String,
    pub total: String,
}

/// A query of an identity's invoices, as sender, receiver, or either.
#[derive(Debug, Clone)]
pub struct InvoiceQuery {
    pub did: String,
    pub role: Option<String>,
}

/// An invoice from `from` to `to` answers a query by `did` in `role`: as
/// `sender` it must be from `did`, as `receiver` to `did`, and otherwise
/// (including no role) either.
pub open spec fn invoice_selected(did: Seq<char>, role: Option<Seq<char>>, from: Seq<char>, to: Seq<char>) -> bool {
    match role {
        Some(r) => if r == "sender"@ {
            from == did
        } else if r == "receiver"@ {
            to == did
        } else {
            from == did || to == did
        },
        None => from == did || to == did,
    }
}

impl InvoiceQuery {
    /// Whether an invoice from `from_did` to `to_did` answers the query.
    pub fn selects(&self, from_did: &str, to_did: &str) -> (r: bool)
        ensures
            r == invoice_selected(
                self.did@,
                match self.role { Some(x) => Some(x@), None => None },
                from_did@,
                to_did@,
            ),
    {
        let by_sender = str_eq(from_did, self.did.as_str());
        let by_receiver = str_eq(to_did, self.did.as_str());
        match &self.role {
            Some(role) => {
                if str_eq(role.as_str(), "sender") {
                    by_sender
                } else if str_eq(role.as_str(), "receiver") {
                    by_receiver
                } else {
                    by_sender || by_receiver
                }
            },
            None => by_sender || by_receiver,
        }
    }
}

/// A query of a wallet's transactions.
#[derive(Debug, Clone)]
pub struct TransactionQuery {
    pub limit: Option<usize>,
}

impl TransactionQuery {
    /// The number of transactions to answer.
    pub fn page_limit(&self) -> (r: usize)
        ensures
            r == page_size(self.limit),
    {
        page_limit(self.limit)
    }
}

} // verus!
