//! Channel and message requests.
use vstd::prelude::*;
use crate::api::social::{check_content, content_refusal, page_limit, page_size, refused_as};
use crate::error::ApiError;
use crate::text::str_eq;

verus! {

/// A request to open a channel: direct (with a peer), group or public
/// (with a name).
#[derive(Debug, Clone)]
pub struct CreateChannelRequest {
    pub creator_did: String,
    pub kind: String,
    pub name: Option<String>,
    pub peer_did: Option<String>,
    pub members: Option<Vec<String>>,
}

/// The channel a request asks for.
#[derive(Debug, Clone)]
pub enum ChannelPlan {
    Direct { peer_did: String },
    Group { name: String, members: Vec<String> },
    Public { name: String },
}

impl CreateChannelRequest {
    /// The channel asked for: a direct channel needs a peer, a group or
    /// public one a name; a group's members default to none.
    pub fn plan(&self) -> (r: Result<ChannelPlan, ApiError>)
        ensures
            self.kind@ == "direct"@ ==> match self.peer_did {
                Some(p) => r matches Ok(ChannelPlan::Direct { peer_did }) && peer_did@ == p@,
                None => r matches Err(e) && e.status == 400 && e.message@ == "peer_did required for direct channels"@,
            },
            self.kind@ == "group"@ ==> match self.name {
                Some(nm) => r matches Ok(ChannelPlan::Group { name, members }) && name@ == nm@
                    && members@ == match self.members { Some(m) => m@, None => Seq::<String>::empty() },
                None => r matches Err(e) && e.status == 400 && e.message@ == "name required for group channels"@,
            },
            self.kind@ == "public"@ ==> match self.name {
                Some(nm) => r matches Ok(ChannelPlan::Public { name }) && name@ == nm@,
                None => r matches Err(e) && e.status == 400 && e.message@ == "name required for public channels"@,
            },
            self.kind@ != "direct"@ && self.kind@ != "group"@ && self.kind@ != "public"@ ==> (r matches Err(e)
                && e.status == 400 && e.message@ == "kind must be direct, group, or public"@),
    {
        proof {
            reveal_strlit("direct");
            reveal_strlit("group");
            reveal_strlit("public");
            assert("direct"@.len() != "group"@.len());
            assert("direct"@[0] != "public"@[0]);
            assert("group"@.len() != "public"@.len());
        }
        let kind = self.kind.as_str();
        if str_eq(kind, "direct") {
            match &self.peer_did {
                Some(p) => Ok(ChannelPlan::Direct { peer_did: p.clone() }),
                None => Err(ApiError::bad_request("peer_did required for direct channels")),
            }
        } else if str_eq(kind, "group") {
            match &self.name {
                Some(nm) => {
                    let members = match &self.members {
                        Some(m) => m.clone(),
                        None => Vec::new(),
                    };
                    Ok(ChannelPlan::Group { name: nm.clone(), members })
                },
                None => Err(ApiError::bad_request("name required for group channels")),
            }
        } else if str_eq(kind, "public") {
            match &self.name {
                Some(nm) => Ok(ChannelPlan::Public { name: nm.clone() }),
                None => Err(ApiError::bad_request("name required for public channels")),
            }
        } else {
            Err(ApiError::bad_request("kind must be direct, group, or public"))
        }
    }
}

/// A channel.
#[derive(Debug, Clone)]
pub struct ChannelResponse {
    pub id: String,
    pub kind: String,
    pub name: Option<String>,
    pub members: Vec<String>,
    pub created_at: String,
}

/// A request to send a message to a channel.
#[derive(Debug, Clone)]
pub struct SendMessageRequest {
    pub channel_id: String,
    pub sender_did: String,
    pub content: String,
    pub reply_to: Option<String>,
}

impl SendMessageRequest {
    /// The message's text must be non-empty and at most 10 000 bytes.
    pub fn validate(&self) -> (r: Result<(), ApiError>)
        ensures
            refused_as(r, content_refusal(self.content@)),
    {
        check_content(self.content.as_str())
    }
}

/// A message of a channel.
#[derive(Debug, Clone)]
pub struct MessageResponse {
    pub id: String,
    pub channel_id: String,
    pub sender: String,
    pub content: String,
    pub reply_to: Option<String>,
    pub timestamp: String,
}

/// A query of an identity's channels.
#[derive(Debug, Clone)]
pub struct ChannelQuery {
    pub did: String,
}

/// A query of a channel's messages, newest first, optionally before a
/// given message.
#[derive(Debug, Clone)]
pub struct MessageQuery {
    pub limit: Option<usize>,
    pub before: Option<String>,
}

/// The position of the newest of `ids` equal to `id`.
pub open spec fn newest_position(ids: Seq<Seq<char>>, id: Seq<char>) -> Option<int>
    decreases ids.len(),
{
    if ids.len() == 0 {
        None
    } else if ids.last() == id {
        Some(ids.len() - 1)
    } else {
        newest_position(ids.drop_last(), id)
    }
}

/// The messages a query answers, as the range `[start, end)` of positions
/// in a channel's messages (oldest first) of ids `ids`: the `limit` newest,
/// or, with `before`, the `limit` newest older than the newest message of
/// that id (none when there is no such message).
pub open spec fn message_window(ids: Seq<Seq<char>>, limit: usize, before: Option<Seq<char>>) -> (int, int) {
    let end: int = match before {
        None => ids.len() as int,
        Some(b) => match newest_position(ids, b) {
            Some(p) => p,
            None => 0,
        },
    };
    let count: int = if (limit as int) < end { limit as int } else { end };
    (end - count, end)
}

impl MessageQuery {
    /// The range of a channel's messages (oldest first, of ids `ids`) that
    /// the query answers.
    pub fn window(&self, ids: &[String]) -> (r: (usize, usize))
        ensures
            (r.0 as int, r.1 as int) == message_window(
                crate::prompt::strings_view(ids@),
                page_size(self.limit),
                match self.before { Some(b) => Some(b@), None => None },
            ),
    {
        let limit = page_limit(self.limit);
        let ghost v = crate::prompt::strings_view(ids@);
        let end: usize = match &self.before {
            None => ids.len(),
            Some(b) => {
                let mut k = ids.len();
                let mut found: Option<usize> = None;
                assert(v.take(k as int) =~= v);
                while k > 0
                    invariant_except_break
                        found is None,
                    invariant
                        k <= ids@.len(),
                        v == crate::prompt::strings_view(ids@),
                        newest_position(v, b@) == newest_position(v.take(k as int), b@),
                    ensures
                        match found {
                            Some(p) => newest_position(v, b@) == Some(p as int),
                            None => newest_position(v, b@) is None,
                        },
                    decreases k,
                {
                    assert(v.take(k as int).drop_last() =~= v.take(k - 1));
                    assert(v.take(k as int).last() == ids@[k - 1]@);
                    if str_eq(ids[k - 1].as_str(), b.as_str()) {
                        found = Some(k - 1);
                        break;
                    }
                    k -= 1;
                }
                if k == 0 {
                    assert(v.take(0) =~= Seq::<Seq<char>>::empty());
                }
                match found {
                    Some(p) => p,
                    None => 0,
                }
            },
        };
        let count = if limit < end { limit } else { end };
        (end - count, end)
    }

    /// The number of messages to answer.
    pub fn page_limit(&self) -> (r: usize)
        ensures
            r == page_size(self.limit),
    {
        page_limit(self.limit)
    }
}

/// A request to add a member to a channel.
#[derive(Debug, Clone)]
pub struct AddMemberRequest {
    pub did: String,
}

} // verus!
