//! Conversations between a user and an agent.
//!
//! Message ids are random and timestamps come from the clock; both are
//! plain values here (a string and microseconds since the Unix epoch, UTC).
use vstd::prelude::*;
use crate::text::byte_len;

verus! {

/// Who wrote a message.
#[derive(Debug, Clone, Copy, PartialEq, Eq, Structural)]
pub enum Role {
    System,
    User,
    Assistant,
    ToolCall,
    Tool,
}

/// A message of a conversation.
#[derive(Debug, Clone)]
pub struct Message {
    pub id: String,
    pub role: Role,
    pub content: String,
    /// Microseconds since the Unix epoch, UTC.
    pub timestamp: i64,
    pub tool_call_id: Option<String>,
    pub metadata: Vec<(String, String)>,
}

/// A lowercase hexadecimal digit.
pub open spec fn is_lower_hex(c: char) -> bool {
    ('0' <= c && c <= '9') || ('a' <= c && c <= 'f')
}

/// The text of a random (version 4, RFC 4122 variant) UUID in hyphenated
/// form: 36 characters, hyphens at 8, 13, 18 and 23, lowercase hexadecimal
/// digits elsewhere, the version digit `4` at 14 and a variant digit `8`,
/// `9`, `a` or `b` at 19.
pub open spec fn is_uuid_v4_text(s: Seq<char>) -> bool {
    &&& s.len() == 36
    &&& forall|i: int|
        0 <= i < 36 ==> if i == 8 || i == 13 || i == 18 || i == 23 {
            #[trigger] s[i] == '-'
        } else {
            is_lower_hex(s[i])
        }
    &&& s[14] == '4'
    &&& (s[19] == '8' || s[19] == '9' || s[19] == 'a' || s[19] == 'b')
}

/// Wrapper of `uuid::Uuid::new_v4` rendered with `to_string`: a fresh random
/// identifier.  `new_v4` sets the version nibble to 4 and the variant bits to
/// `10`, and `Display` writes the hyphenated lowercase form; the digits
/// themselves are random and not stated.
#[verifier::external_body]
pub(crate) fn new_uuid() -> (r: String)
    ensures
        is_uuid_v4_text(r@),
{
    uuid::Uuid::new_v4().to_string()
}

/// Wrapper of `chrono::Utc::now`, as microseconds since the Unix epoch.
/// The reading is the clock's.  `Utc::now` refuses a clock before the epoch
/// and builds its value with `DateTime::from_timestamp`, so the reading is
/// not negative and `DateTime::from_timestamp_micros` accepts it back (same
/// seconds, fewer nanoseconds).
#[verifier::external_body]
pub(crate) fn now_micros() -> (r: i64)
    ensures
        r >= 0,
        crate::api::ai::rfc3339_of_micros(r) is Some,
{
    chrono::Utc::now().timestamp_micros()
}

/// Estimated tokens of a text: a quarter of its UTF-8 byte length.
pub open spec fn token_estimate_of(content: Seq<char>) -> nat {
    byte_len(content) / 4
}

/// Byte length of a string, which is what `str::len` returns.
pub fn str_byte_len(s: &str) -> (r: usize)
    ensures
        r == byte_len(s@),
{
    proof {
        crate::text::lemma_byte_len_is_utf8_len(s@);
    }
    let bytes = s.as_bytes();
    bytes.len()
}

impl Message {
    fn make(role: Role, content: &str, tool_call_id: Option<String>) -> (r: Self)
        ensures
            r.role == role,
            r.content@ == content@,
            r.tool_call_id == tool_call_id,
            r.metadata@.len() == 0,
            is_uuid_v4_text(r.id@),
    {
        Message {
            id: new_uuid(),
            role,
            content: content.to_owned(),
            timestamp: now_micros(),
            tool_call_id,
            metadata: Vec::new(),
        }
    }

    /// A system message.
    pub fn system(content: &str) -> (r: Self)
        ensures
            r.role == Role::System,
            r.content@ == content@,
            r.tool_call_id is None,
            r.metadata@.len() == 0,
            is_uuid_v4_text(r.id@),
    {
        Self::make(Role::System, content, None)
    }

    /// A user message.
    pub fn user(content: &str) -> (r: Self)
        ensures
            r.role == Role::User,
            r.content@ == content@,
            r.tool_call_id is None,
            r.metadata@.len() == 0,
            is_uuid_v4_text(r.id@),
    {
        Self::make(Role::User, content, None)
    }

    /// An assistant message.
    pub fn assistant(content: &str) -> (r: Self)
        ensures
            r.role == Role::Assistant,
            r.content@ == content@,
            r.tool_call_id is None,
            r.metadata@.len() == 0,
            is_uuid_v4_text(r.id@),
    {
        Self::make(Role::Assistant, content, None)
    }

    /// The answer of the tool call `call_id`.
    pub fn tool_result(content: &str, call_id: &str) -> (r: Self)
        ensures
            r.role == Role::Tool,
            r.content@ == content@,
            r.tool_call_id matches Some(c) && c@ == call_id@,
            r.metadata@.len() == 0,
            is_uuid_v4_text(r.id@),
    {
        Self::make(Role::Tool, content, Some(call_id.to_owned()))
    }

    /// Estimated tokens of the message: a quarter of its UTF-8 bytes.
    pub fn token_estimate(&self) -> (r: usize)
        ensures
            r == token_estimate_of(self.content@),
    {
        str_byte_len(self.content.as_str()) / 4
    }
}

/// A conversation: the messages exchanged with one agent.
#[derive(Debug, Clone)]
pub struct Conversation {
    pub id: String,
    pub agent_id: String,
    pub messages: Vec<Message>,
    /// Microseconds since the Unix epoch, UTC.
    pub created_at: i64,
    /// Microseconds since the Unix epoch, UTC.
    pub updated_at: i64,
}

/// Sum of the token estimates of `msgs`.
pub open spec fn total_tokens(msgs: Seq<Message>) -> nat
    decreases msgs.len(),
{
    if msgs.len() == 0 {
        0
    } else {
        total_tokens(msgs.drop_last()) + token_estimate_of(msgs.last().content@)
    }
}

/// Positions of the messages of role `System`, in order, among the first `n`.
pub open spec fn system_positions(msgs: Seq<Message>, n: int) -> Seq<int>
    decreases n,
{
    if n <= 0 {
        seq![]
    } else if msgs[n - 1].role == Role::System {
        system_positions(msgs, n - 1).push(n - 1)
    } else {
        system_positions(msgs, n - 1)
    }
}

/// Sum of the token estimates at the given positions.
pub open spec fn tokens_at(msgs: Seq<Message>, ps: Seq<int>) -> nat
    decreases ps.len(),
{
    if ps.len() == 0 {
        0
    } else {
        tokens_at(msgs, ps.drop_last()) + token_estimate_of(msgs[ps.last()].content@)
    }
}

/// Positions of the most recent non-system messages that still fit, newest
/// first, scanning down from position `j - 1` with `total` tokens used.
pub open spec fn recent_positions(msgs: Seq<Message>, j: int, total: int, max: int) -> Seq<int>
    decreases j,
{
    if j <= 0 {
        seq![]
    } else if msgs[j - 1].role == Role::System {
        recent_positions(msgs, j - 1, total, max)
    } else {
        let est = token_estimate_of(msgs[j - 1].content@) as int;
        if total + est > max {
            seq![]
        } else {
            seq![j - 1] + recent_positions(msgs, j - 1, total + est, max)
        }
    }
}

/// The positions kept by `truncate_to_tokens`, before ordering by time:
/// every system message, then the newest others that fit in `max` tokens.
pub open spec fn kept_positions(msgs: Seq<Message>, max: int) -> Seq<int> {
    let sys = system_positions(msgs, msgs.len() as int);
    sys + recent_positions(msgs, msgs.len() as int, tokens_at(msgs, sys) as int, max)
}

/// `perm` is a permutation of `0..m`.
pub open spec fn is_permutation(perm: Seq<int>, m: int) -> bool {
    &&& perm.len() == m
    &&& forall|i: int| 0 <= i < m ==> 0 <= #[trigger] perm[i] < m
    &&& forall|i: int, j: int| 0 <= i < j < m ==> perm[i] != perm[j]
}

/// `perm` orders the positions `pre` by message timestamp, keeping the order
/// of `pre` among equal timestamps (a stable sort).
pub open spec fn stable_by_time(msgs: Seq<Message>, pre: Seq<int>, perm: Seq<int>) -> bool {
    &&& is_permutation(perm, pre.len() as int)
    &&& forall|i: int, j: int|
        #![trigger perm[i], perm[j]]
        0 <= i < j < perm.len() ==> time_order(msgs, pre, perm[i], perm[j])
}

/// Position `p` of `pre` comes before position `q`: its message is older,
/// or as old and earlier in `pre`.
pub open spec fn time_order(msgs: Seq<Message>, pre: Seq<int>, p: int, q: int) -> bool {
    let a = msgs[pre[p]].timestamp;
    let b = msgs[pre[q]].timestamp;
    a < b || (a == b && p < q)
}

/// The messages behind a list of references.
pub open spec fn deref_all<'a>(v: Seq<&'a Message>) -> Seq<Message> {
    v.map_values(|m: &'a Message| *m)
}

impl Conversation {
    /// An empty conversation with agent `agent_id`.
    pub fn new(agent_id: &str) -> (r: Self)
        ensures
            r.agent_id@ == agent_id@,
            r.messages@.len() == 0,
            is_uuid_v4_text(r.id@),
    {
        Conversation {
            id: new_uuid(),
            agent_id: agent_id.to_owned(),
            messages: Vec::new(),
            created_at: now_micros(),
            updated_at: now_micros(),
        }
    }

    /// Appends a message and records the time of the change.
    pub fn add_message(&mut self, message: Message)
        ensures
            final(self).messages@ == old(self).messages@.push(message),
            final(self).id == old(self).id,
            final(self).agent_id == old(self).agent_id,
            final(self).created_at == old(self).created_at,
    {
        self.updated_at = now_micros();
        self.messages.push(message);
    }

    /// The number of messages.
    pub fn len(&self) -> (r: usize)
        ensures
            r == self.messages@.len(),
    {
        self.messages.len()
    }

    /// Whether there is no message.
    pub fn is_empty(&self) -> (r: bool)
        ensures
            r == (self.messages@.len() == 0),
    {
        self.messages.len() == 0
    }

    /// The newest message.
    pub fn last_message(&self) -> (r: Option<&Message>)
        ensures
            match r {
                Some(m) => self.messages@.len() > 0 && *m == self.messages@.last(),
                None => self.messages@.len() == 0,
            },
    {
        if self.messages.len() == 0 {
            None
        } else {
            Some(&self.messages[self.messages.len() - 1])
        }
    }

    /// The messages of the given role, in order.
    pub fn messages_by_role(&self, role: Role) -> (r: Vec<&Message>)
        ensures
            deref_all(r@) == self.messages@.filter(|m: Message| m.role == role),
    {
        let mut r: Vec<&Message> = Vec::new();
        let mut i: usize = 0;
        while i < self.messages.len()
            invariant
                i <= self.messages@.len(),
                deref_all(r@) == self.messages@.take(i as int).filter(|m: Message| m.role == role),
            decreases self.messages.len() - i,
        {
            let ghost before = r@;
            assert(deref_all(before.push(&self.messages@[i as int])) =~= deref_all(before).push(self.messages@[i as int]));
            assert(self.messages@.take(i + 1).drop_last() =~= self.messages@.take(i as int));
            reveal_with_fuel(Seq::filter, 1);
            if self.messages[i].role == role {
                r.push(&self.messages[i]);
            }
            i += 1;
        }
        assert(self.messages@.take(self.messages@.len() as int) =~= self.messages@);
        r
    }

    /// Sum of the token estimates of all messages.
    pub fn total_tokens_estimate(&self) -> (r: usize)
        requires
            total_tokens(self.messages@) <= usize::MAX,
        ensures
            r == total_tokens(self.messages@),
    {
        let mut total: usize = 0;
        let mut i: usize = 0;
        assert(self.messages@.take(0) =~= Seq::<Message>::empty());
        while i < self.messages.len()
            invariant
                i <= self.messages@.len(),
                total_tokens(self.messages@) <= usize::MAX,
                total == total_tokens(self.messages@.take(i as int)),
            decreases self.messages.len() - i,
        {
            assert(self.messages@.take(i + 1).drop_last() =~= self.messages@.take(i as int));
            proof {
                lemma_total_tokens_take(self.messages@, i + 1);
            }
            total = total + self.messages[i].token_estimate();
            i += 1;
        }
        assert(self.messages@.take(self.messages@.len() as int) =~= self.messages@);
        total
    }

    /// The messages to send when the context holds `max_tokens`: every
    /// system message, then the most recent other messages while they fit,
    /// all ordered by timestamp (ties keep that order).
    pub fn truncate_to_tokens(&self, max_tokens: usize) -> (r: Vec<&Message>)
        requires
            total_tokens(self.messages@) <= usize::MAX,
        ensures
            exists|perm: Seq<int>|
                stable_by_time(
                    self.messages@,
                    kept_positions(self.messages@, max_tokens as int),
                    perm,
                ) && r@.len() == perm.len() && forall|i: int|
                    0 <= i < perm.len() ==> #[trigger] r@[i] == self.messages@[kept_positions(
                        self.messages@,
                        max_tokens as int,
                    )[perm[i]]],
    {
        let ghost msgs = self.messages@;
        let n = self.messages.len();
        let mut pre: Vec<usize> = Vec::new();
        let mut total: usize = 0;
        let mut i: usize = 0;
        while i < n
            invariant
                msgs == self.messages@,
                n == msgs.len(),
                i <= n,
                total_tokens(msgs) <= usize::MAX,
                forall|k: int| 0 <= k < pre@.len() ==> #[trigger] pre@[k] < i,
                pre@.map_values(|p: usize| p as int) == system_positions(msgs, i as int),
                total == tokens_at(msgs, system_positions(msgs, i as int)),
                total <= total_tokens(msgs.take(i as int)),
            decreases n - i,
        {
            proof {
                lemma_total_tokens_take(msgs, i + 1);
                lemma_total_tokens_take(msgs, n as int);
                assert(msgs.take(n as int) =~= msgs);
                assert(msgs.take(i + 1).drop_last() =~= msgs.take(i as int));
            }
            if self.messages[i].role == Role::System {
                let ghost old_pre = pre@;
                total = total + self.messages[i].token_estimate();
                pre.push(i);
                proof {
                    assert(pre@.map_values(|p: usize| p as int) =~= old_pre.map_values(
                        |p: usize| p as int,
                    ).push(i as int));
                    let sp = system_positions(msgs, i + 1);
                    assert(sp.drop_last() =~= system_positions(msgs, i as int));
                }
            }
            i += 1;
        }
        let ghost sys = system_positions(msgs, n as int);
        let mut j: usize = n;
        while j > 0
            invariant
                msgs == self.messages@,
                n == msgs.len(),
                j <= n,
                pre@.map_values(|p: usize| p as int) + recent_positions(
                    msgs,
                    j as int,
                    total as int,
                    max_tokens as int,
                ) == kept_positions(msgs, max_tokens as int),
                forall|k: int| 0 <= k < pre@.len() ==> #[trigger] pre@[k] < n,
            ensures
                pre@.map_values(|p: usize| p as int) == kept_positions(msgs, max_tokens as int),
                forall|k: int| 0 <= k < pre@.len() ==> #[trigger] pre@[k] < n,
            decreases j,
        {
            let m = &self.messages[j - 1];
            if m.role == Role::System {
                j -= 1;
            } else {
                let est = m.token_estimate();
                if est > max_tokens || total > max_tokens - est {
                    assert(recent_positions(msgs, j as int, total as int, max_tokens as int)
                        =~= Seq::<int>::empty());
                    assert(pre@.map_values(|p: usize| p as int) =~= pre@.map_values(|p: usize| p as int) + Seq::<int>::empty());
                    break;
                }
                let ghost old_pre = pre@;
                pre.push(j - 1);
                assert(pre@.map_values(|p: usize| p as int) =~= old_pre.map_values(
                    |p: usize| p as int,
                ).push(j - 1));
                assert(old_pre.map_values(|p: usize| p as int).push(j - 1) + recent_positions(
                    msgs,
                    j - 1,
                    total + est,
                    max_tokens as int,
                ) =~= old_pre.map_values(|p: usize| p as int) + recent_positions(
                    msgs,
                    j as int,
                    total as int,
                    max_tokens as int,
                ));
                total = total + est;
                j -= 1;
            }
        }
        let ghost kept = kept_positions(msgs, max_tokens as int);
        let order = Self::stable_order(&self.messages, &pre);
        let mut r: Vec<&Message> = Vec::new();
        let mut k: usize = 0;
        while k < order.len()
            invariant
                msgs == self.messages@,
                kept == pre@.map_values(|p: usize| p as int),
                forall|q: int| 0 <= q < pre@.len() ==> #[trigger] pre@[q] < msgs.len(),
                k <= order@.len(),
                order@.len() == pre@.len(),
                forall|q: int| 0 <= q < order@.len() ==> #[trigger] order@[q] < pre@.len(),
                r@.len() == k,
                forall|q: int| 0 <= q < k ==> #[trigger] r@[q] == msgs[kept[order@[q] as int]],
            decreases order.len() - k,
        {
            r.push(&self.messages[pre[order[k]]]);
            k += 1;
        }
        let ghost perm = order@.map_values(|p: usize| p as int);
        assert(stable_by_time(msgs, kept, perm));
        assert(forall|q: int| 0 <= q < perm.len() ==> #[trigger] r@[q] == msgs[kept[perm[q]]]);
        r
    }

    /// Positions into `pre` sorted by (timestamp, position): a stable sort
    /// of `pre` by message time.
    fn stable_order(msgs: &Vec<Message>, pre: &Vec<usize>) -> (order: Vec<usize>)
        requires
            forall|q: int| 0 <= q < pre@.len() ==> #[trigger] pre@[q] < msgs@.len(),
        ensures
            stable_by_time(msgs@, pre@.map_values(|p: usize| p as int), order@.map_values(|p: usize| p as int)),
            forall|q: int| 0 <= q < order@.len() ==> #[trigger] order@[q] < pre@.len(),
            order@.len() == pre@.len(),
    {
        let ghost pv = pre@.map_values(|p: usize| p as int);
        let mut order: Vec<usize> = Vec::new();
        let mut p: usize = 0;
        while p < pre.len()
            invariant
                pv == pre@.map_values(|p: usize| p as int),
                forall|q: int| 0 <= q < pre@.len() ==> #[trigger] pre@[q] < msgs@.len(),
                p <= pre@.len(),
                order@.len() == p,
                forall|q: int| 0 <= q < p ==> #[trigger] order@[q] < p,
                forall|a: int, b: int| 0 <= a < b < p ==> order@[a] != order@[b],
                forall|a: int, b: int|
                    0 <= a < b < p ==> time_order(msgs@, pv, order@[a] as int, order@[b] as int),
            decreases pre.len() - p,
        {
            let t = msgs[pre[p]].timestamp;
            let mut pos: usize = order.len();
            while pos > 0 && msgs[pre[order[pos - 1]]].timestamp > t
                invariant
                    pv == pre@.map_values(|p: usize| p as int),
                    forall|q: int| 0 <= q < pre@.len() ==> #[trigger] pre@[q] < msgs@.len(),
                    p < pre@.len(),
                    t == msgs@[pre@[p as int] as int].timestamp,
                    pos <= order@.len(),
                    order@.len() == p,
                    forall|q: int| 0 <= q < p ==> #[trigger] order@[q] < p,
                    forall|q: int| pos <= q < p ==> msgs@[pre@[order@[q] as int] as int].timestamp > t,
                decreases pos,
            {
                pos -= 1;
            }
            let ghost old_order = order@;
            order.insert(pos, p);
            assert(order@ =~= old_order.subrange(0, pos as int).push(p).add(
                old_order.subrange(pos as int, old_order.len() as int),
            ));
            assert forall|a: int, b: int| 0 <= a < b < p + 1 implies time_order(
                msgs@,
                pv,
                order@[a] as int,
                order@[b] as int,
            ) by {
                if b < pos {
                    assert(order@[a] == old_order[a] && order@[b] == old_order[b]);
                } else if b == pos {
                    assert(order@[a] == old_order[a]);
                    assert(order@[a] < p);
                    if pos > 0 {
                        if a < pos - 1 {
                            assert(time_order(msgs@, pv, old_order[a] as int, old_order[pos - 1] as int));
                        }
                    }
                } else if a < pos {
                    assert(order@[a] == old_order[a] && order@[b] == old_order[b - 1]);
                } else if a == pos {
                    assert(order@[b] == old_order[b - 1]);
                } else {
                    assert(order@[a] == old_order[a - 1] && order@[b] == old_order[b - 1]);
                }
            }
            assert forall|a: int, b: int| 0 <= a < b < p + 1 implies order@[a] != order@[b] by {
                if a < pos && b < pos {
                    assert(order@[a] == old_order[a] && order@[b] == old_order[b]);
                } else if a < pos && b > pos {
                    assert(order@[a] == old_order[a] && order@[b] == old_order[b - 1]);
                } else if a > pos {
                    assert(order@[a] == old_order[a - 1] && order@[b] == old_order[b - 1]);
                } else if a == pos {
                    assert(order@[b] == old_order[b - 1]);
                } else {
                    assert(order@[a] == old_order[a]);
                }
            }
            assert forall|q: int| 0 <= q < p + 1 implies #[trigger] order@[q] < p + 1 by {
                if q < pos {
                    assert(order@[q] == old_order[q]);
                } else if q > pos {
                    assert(order@[q] == old_order[q - 1]);
                }
            }
            p += 1;
        }
        let ghost ov = order@.map_values(|p: usize| p as int);
        assert(is_permutation(ov, pv.len() as int)) by {
            assert forall|i: int, j: int| 0 <= i < j < pv.len() implies ov[i] != ov[j] by {
                assert(order@[i] != order@[j]);
            }
        }
        assert forall|i: int, j: int| 0 <= i < j < ov.len() implies time_order(msgs@, pv, ov[i], ov[j]) by {
            assert(time_order(msgs@, pv, order@[i] as int, order@[j] as int));
        }
        order
    }
}

proof fn lemma_total_tokens_take(msgs: Seq<Message>, i: int)
    requires
        0 <= i <= msgs.len(),
    ensures
        total_tokens(msgs.take(i)) <= total_tokens(msgs),
        i > 0 ==> total_tokens(msgs.take(i)) == total_tokens(msgs.take(i - 1))
            + token_estimate_of(msgs[i - 1].content@),
    decreases msgs.len() - i,
{
    if i > 0 {
        assert(msgs.take(i).drop_last() =~= msgs.take(i - 1));
    }
    if i < msgs.len() {
        lemma_total_tokens_take(msgs, i + 1);
    } else {
        assert(msgs.take(i) =~= msgs);
    }
}

proof fn lemma_system_positions_contain(msgs: Seq<Message>, n: int, i: int)
    requires
        0 <= i < n <= msgs.len(),
        msgs[i].role == Role::System,
    ensures
        system_positions(msgs, n).contains(i),
    decreases n,
{
    if i < n - 1 {
        lemma_system_positions_contain(msgs, n - 1, i);
        let prev = system_positions(msgs, n - 1);
        let k = choose|k: int| 0 <= k < prev.len() && prev[k] == i;
        if msgs[n - 1].role == Role::System {
            assert(prev.push(n - 1)[k] == i);
        }
    } else {
        assert(system_positions(msgs, n).last() == i);
    }
}

proof fn lemma_tokens_at_concat(msgs: Seq<Message>, a: Seq<int>, b: Seq<int>)
    ensures
        tokens_at(msgs, a + b) == tokens_at(msgs, a) + tokens_at(msgs, b),
    decreases b.len(),
{
    if b.len() == 0 {
        assert(a + b =~= a);
    } else {
        lemma_tokens_at_concat(msgs, a, b.drop_last());
        assert((a + b).drop_last() =~= a + b.drop_last());
    }
}

proof fn lemma_recent_fits(msgs: Seq<Message>, j: int, total: int, max: int)
    requires
        j <= msgs.len(),
    ensures
        recent_positions(msgs, j, total, max).len() > 0 ==> total + tokens_at(
            msgs,
            recent_positions(msgs, j, total, max),
        ) <= max,
    decreases j,
{
    if j > 0 {
        lemma_recent_fits(msgs, j - 1, total, max);
        if msgs[j - 1].role != Role::System {
            let est = token_estimate_of(msgs[j - 1].content@) as int;
            if total + est <= max {
                let rest = recent_positions(msgs, j - 1, total + est, max);
                lemma_recent_fits(msgs, j - 1, total + est, max);
                lemma_tokens_at_concat(msgs, seq![j - 1], rest);
                assert(seq![j - 1].drop_last() =~= Seq::<int>::empty());
                assert(tokens_at(msgs, Seq::<int>::empty()) == 0);
                assert(tokens_at(msgs, seq![j - 1]) == est);
                if rest.len() == 0 {
                    assert(seq![j - 1] + rest =~= seq![j - 1]);
                }
            }
        }
    }
}

/// Truncation always keeps every system message, and keeps other messages
/// only while the whole stays within the token budget: either the kept
/// messages fit, or only the system messages are kept.
pub proof fn law_truncation_keeps_system_messages(msgs: Seq<Message>, max: int)
    ensures
        forall|i: int|
            0 <= i < msgs.len() && (#[trigger] msgs[i]).role == Role::System ==> kept_positions(
                msgs,
                max,
            ).contains(i),
        tokens_at(msgs, kept_positions(msgs, max)) <= max || kept_positions(msgs, max)
            == system_positions(msgs, msgs.len() as int),
{
    let sys = system_positions(msgs, msgs.len() as int);
    let recent = recent_positions(msgs, msgs.len() as int, tokens_at(msgs, sys) as int, max);
    assert forall|i: int|
        0 <= i < msgs.len() && (#[trigger] msgs[i]).role == Role::System implies kept_positions(
            msgs,
            max,
        ).contains(i) by {
        lemma_system_positions_contain(msgs, msgs.len() as int, i);
        let k = choose|k: int| 0 <= k < sys.len() && sys[k] == i;
        assert((sys + recent)[k] == i);
    }
    lemma_recent_fits(msgs, msgs.len() as int, tokens_at(msgs, sys) as int, max);
    lemma_tokens_at_concat(msgs, sys, recent);
    if recent.len() == 0 {
        assert(sys + recent =~= sys);
    }
}


/// Positions of the non-system messages among the first `j`, newest first.
pub open spec fn others_newest_first(msgs: Seq<Message>, j: int) -> Seq<int>
    decreases j,
{
    if j <= 0 {
        seq![]
    } else if msgs[j - 1].role == Role::System {
        others_newest_first(msgs, j - 1)
    } else {
        seq![j - 1] + others_newest_first(msgs, j - 1)
    }
}

proof fn lemma_recent_is_longest(msgs: Seq<Message>, j: int, total: int, max: int)
    requires
        j <= msgs.len(),
    ensures
        ({
            let r = recent_positions(msgs, j, total, max);
            let o = others_newest_first(msgs, j);
            &&& r.len() <= o.len()
            &&& r == o.take(r.len() as int)
            &&& r.len() == o.len() || total + tokens_at(msgs, r) + token_estimate_of(msgs[o[r.len() as int]].content@) > max
        }),
    decreases j,
{
    if j > 0 {
        let o = others_newest_first(msgs, j);
        let o1 = others_newest_first(msgs, j - 1);
        if msgs[j - 1].role == Role::System {
            lemma_recent_is_longest(msgs, j - 1, total, max);
        } else {
            let est = token_estimate_of(msgs[j - 1].content@) as int;
            assert(o == seq![j - 1] + o1);
            assert(o[0] == j - 1);
            if total + est > max {
                assert(tokens_at(msgs, Seq::<int>::empty()) == 0);
                assert(o.take(0) =~= Seq::<int>::empty());
            } else {
                let rest = recent_positions(msgs, j - 1, total + est, max);
                lemma_recent_is_longest(msgs, j - 1, total + est, max);
                let r = seq![j - 1] + rest;
                assert(r =~= o.take(rest.len() + 1int));
                lemma_tokens_at_concat(msgs, seq![j - 1], rest);
                assert(seq![j - 1].drop_last() =~= Seq::<int>::empty());
                assert(tokens_at(msgs, Seq::<int>::empty()) == 0);
                assert(seq![j - 1].last() == j - 1);
                assert(tokens_at(msgs, seq![j - 1]) == est);
                if rest.len() < o1.len() {
                    assert(o[r.len() as int] == o1[rest.len() as int]);
                }
            }
        }
    }
}

/// Truncation keeps every system message and, beside them, the longest
/// suffix of the other messages that fits the budget: the kept others are
/// the newest ones (listed newest first), they fit with the system messages
/// unless none is kept, and every longer suffix would exceed the budget.
pub proof fn law_truncation_keeps_longest_suffix(msgs: Seq<Message>, max: int)
    ensures
        ({
            let sys = system_positions(msgs, msgs.len() as int);
            let others = others_newest_first(msgs, msgs.len() as int);
            let kept = kept_positions(msgs, max);
            let recent = kept.skip(sys.len() as int);
            &&& kept == sys + recent
            &&& recent.len() <= others.len()
            &&& recent == others.take(recent.len() as int)
            &&& recent.len() > 0 ==> tokens_at(msgs, kept) <= max
            &&& forall|l: int|
                recent.len() < l <= others.len() ==> tokens_at(msgs, sys) + tokens_at(
                    msgs,
                    #[trigger] others.take(l),
                ) > max
        }),
{
    let sys = system_positions(msgs, msgs.len() as int);
    let others = others_newest_first(msgs, msgs.len() as int);
    let recent = recent_positions(msgs, msgs.len() as int, tokens_at(msgs, sys) as int, max);
    let kept = kept_positions(msgs, max);
    assert(kept.skip(sys.len() as int) =~= recent);
    lemma_recent_is_longest(msgs, msgs.len() as int, tokens_at(msgs, sys) as int, max);
    lemma_recent_fits(msgs, msgs.len() as int, tokens_at(msgs, sys) as int, max);
    lemma_tokens_at_concat(msgs, sys, recent);
    let n = recent.len() as int;
    assert forall|l: int| n < l <= others.len() implies tokens_at(msgs, sys) + tokens_at(msgs, #[trigger] others.take(l)) > max by {
        let next = seq![others[n]];
        let tail = others.subrange(n + 1, l);
        assert(others.take(l) =~= recent + next + tail);
        lemma_tokens_at_concat(msgs, recent + next, tail);
        lemma_tokens_at_concat(msgs, recent, next);
        assert(next.drop_last() =~= Seq::<int>::empty());
        assert(tokens_at(msgs, Seq::<int>::empty()) == 0);
        assert(tokens_at(msgs, next) == token_estimate_of(msgs[others[n]].content@));
    }
}

} // verus!
