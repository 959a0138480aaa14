//! Request/response correlation for the RPC transport: id allocation, the
//! pending-call table, and delivery of parsed response envelopes to exactly
//! the call that issued the matching id.
use vstd::prelude::*;

use crate::framing::{encode_request_line, request_line};

verus! {

/// What a response envelope carried: the `result` value or the `error`
/// value, as JSON text.
#[derive(Debug)]
pub enum RpcOutcome {
    Success(String),
    Failure(String),
}

/// One parsed response envelope.
#[derive(Debug)]
pub struct RpcReply {
    pub id: u64,
    pub outcome: RpcOutcome,
}

/// The mathematical shape of an outcome: whether it failed, and its payload
/// text.
pub open spec fn outcome_abs(o: RpcOutcome) -> (bool, Seq<char>) {
    match o {
        RpcOutcome::Success(s) => (false, s@),
        RpcOutcome::Failure(s) => (true, s@),
    }
}

/// The mathematical shape of a parsed envelope.
pub open spec fn reply_abs(r: Option<RpcReply>) -> Option<(u64, bool, Seq<char>)> {
    match r {
        Some(rep) => Some(
            (
                rep.id,
                outcome_abs(rep.outcome).0,
                outcome_abs(rep.outcome).1,
            ),
        ),
        None => None,
    }
}

/// What one frame's bytes parse to as a response envelope: the id, whether it
/// is an error, and the payload text — or nothing, for a frame that is not a
/// response envelope. Malformed frames are dropped, never fatal.
pub uninterp spec fn envelope_of(bytes: Seq<u8>) -> Option<(u64, bool, Seq<char>)>;

/// Relies on `serde_json::from_slice` and `serde_json::Value`'s accessors:
/// what a frame parses to is a function of its bytes alone. A frame parses to
/// a reply when it is a JSON object with an unsigned integer `id`; a non-null
/// `error` member makes it a failure carrying that value's text, anything
/// else a success carrying the `result` value's text.
#[verifier::external_body]
pub(crate) fn parse_envelope(bytes: &[u8]) -> (r: Option<RpcReply>)
    ensures
        reply_abs(r) == envelope_of(bytes@),
{
    let v: serde_json::Value = serde_json::from_slice(bytes).ok()?;
    let id = v.get("id")?.as_u64()?;
    let outcome = match v.get("error") {
        Some(e) if !e.is_null() => RpcOutcome::Failure(e.to_string()),
        _ => match v.get("result") {
            Some(res) => RpcOutcome::Success(res.to_string()),
            None => RpcOutcome::Success(serde_json::Value::Null.to_string()),
        },
    };
    Some(RpcReply { id, outcome })
}

/// The map a delivered-reply list denotes, keyed by id.
pub open spec fn replies_map(s: Seq<RpcReply>) -> Map<u64, (bool, Seq<char>)>
    decreases s.len(),
{
    if s.len() == 0 {
        Map::empty()
    } else {
        replies_map(s.drop_last()).insert(s.last().id, outcome_abs(s.last().outcome))
    }
}

/// No id occurs twice.
pub open spec fn unique_ids(s: Seq<RpcReply>) -> bool {
    forall|i: int, j: int| 0 <= i < j < s.len() ==> s[i].id != s[j].id
}

proof fn lemma_replies_map_domain(s: Seq<RpcReply>, k: u64)
    ensures
        replies_map(s).contains_key(k) <==> exists|i: int| 0 <= i < s.len() && s[i].id == k,
    decreases s.len(),
{
    if s.len() > 0 {
        lemma_replies_map_domain(s.drop_last(), k);
        if replies_map(s).contains_key(k) {
            if s.last().id == k {
                assert(s[s.len() - 1].id == k);
            } else {
                let i = choose|i: int| 0 <= i < s.drop_last().len() && s.drop_last()[i].id == k;
                assert(s[i].id == k);
            }
        }
        if exists|i: int| 0 <= i < s.len() && s[i].id == k {
            let i = choose|i: int| 0 <= i < s.len() && s[i].id == k;
            if i < s.len() - 1 {
                assert(s.drop_last()[i].id == k);
            }
        }
    }
}

proof fn lemma_replies_map_lookup(s: Seq<RpcReply>, j: int)
    requires
        unique_ids(s),
        0 <= j < s.len(),
    ensures
        replies_map(s).contains_key(s[j].id),
        replies_map(s)[s[j].id] == outcome_abs(s[j].outcome),
    decreases s.len(),
{
    if j == s.len() - 1 {
    } else {
        assert(s.drop_last()[j] == s[j]);
        lemma_replies_map_lookup(s.drop_last(), j);
        assert(s.last().id != s[j].id);
    }
}

proof fn lemma_replies_map_remove(s: Seq<RpcReply>, j: int)
    requires
        unique_ids(s),
        0 <= j < s.len(),
    ensures
        replies_map(s.remove(j)) == replies_map(s).remove(s[j].id),
    decreases s.len(),
{
    lemma_replies_map_domain(s.drop_last(), s[j].id);
    if j == s.len() - 1 {
        assert(s.remove(j) =~= s.drop_last());
        assert(!replies_map(s.drop_last()).contains_key(s[j].id));
        assert(replies_map(s.drop_last()) =~= replies_map(s).remove(s[j].id));
    } else {
        assert(s.remove(j).drop_last() =~= s.drop_last().remove(j));
        assert(s.remove(j).last() == s.last());
        assert(s.drop_last()[j] == s[j]);
        lemma_replies_map_remove(s.drop_last(), j);
        assert(s.last().id != s[j].id);
        assert(replies_map(s.drop_last()).remove(s[j].id).insert(
            s.last().id,
            outcome_abs(s.last().outcome),
        ) =~= replies_map(s.drop_last()).insert(
            s.last().id,
            outcome_abs(s.last().outcome),
        ).remove(s[j].id));
    }
}

/// The pending-request table and id allocator of one transport. Ids are
/// allocated monotonically and never reused while outstanding; a delivered
/// reply completes exactly the entry with its id; unsolicited ids are
/// dropped. Scoped to one transport instance, never shared across
/// transports.
#[derive(Debug)]
pub struct Correlator {
    next_id: u64,
    pending: Vec<u64>,
    completed: Vec<RpcReply>,
}

impl Correlator {
    /// The ids of the in-flight calls.
    pub closed spec fn pending_set(&self) -> Set<u64> {
        self.pending@.to_set()
    }

    /// The replies delivered and not yet picked up, keyed by id.
    pub closed spec fn completed_map(&self) -> Map<u64, (bool, Seq<char>)> {
        replies_map(self.completed@)
    }

    /// The id the next call will get.
    pub closed spec fn next_id_spec(&self) -> u64 {
        self.next_id
    }

    /// Ids are unique within and across the two tables, and all lie below the
    /// allocator's next id.
    pub closed spec fn wf(&self) -> bool {
        &&& forall|i: int, j: int|
            0 <= i < j < self.pending@.len() ==> self.pending@[i] != self.pending@[j]
        &&& unique_ids(self.completed@)
        &&& forall|i: int| 0 <= i < self.pending@.len() ==> self.pending@[i] < self.next_id
        &&& forall|i: int| 0 <= i < self.completed@.len() ==> self.completed@[i].id < self.next_id
        &&& forall|i: int, j: int|
            0 <= i < self.pending@.len() && 0 <= j < self.completed@.len() ==> self.pending@[i]
                != self.completed@[j].id
    }

    /// A fresh correlator: ids start at one, nothing in flight.
    pub fn new() -> (r: Correlator)
        ensures
            r.wf(),
            r.pending_set() == Set::<u64>::empty(),
            r.completed_map() == Map::<u64, (bool, Seq<char>)>::empty(),
            r.next_id_spec() == 1,
    {
        let r = Correlator { next_id: 1, pending: Vec::new(), completed: Vec::new() };
        proof {
            assert(r.pending@.to_set() =~= Set::<u64>::empty());
        }
        r
    }

    /// Allocates the next id and registers it as in flight. The id is fresh:
    /// it was neither pending nor completed before.
    pub fn begin_call(&mut self) -> (id: u64)
        requires
            old(self).wf(),
            old(self).next_id_spec() < u64::MAX,
        ensures
            final(self).wf(),
            id == old(self).next_id_spec(),
            final(self).next_id_spec() == old(self).next_id_spec() + 1,
            !old(self).pending_set().contains(id),
            !old(self).completed_map().contains_key(id),
            final(self).pending_set() == old(self).pending_set().insert(id),
            final(self).completed_map() == old(self).completed_map(),
    {
        let id = self.next_id;
        self.next_id = self.next_id + 1;
        let ghost before = self.pending@;
        self.pending.push(id);
        proof {
            if old(self).pending_set().contains(id) {
                let i = choose|i: int| 0 <= i < before.len() && before[i] == id;
                assert(before[i] < id);
            }
            lemma_replies_map_domain(self.completed@, id);
            assert(self.pending@.to_set() =~= before.to_set().insert(id)) by {
                assert forall|x: u64| self.pending@.to_set().contains(x) implies before.to_set().insert(
                    id,
                ).contains(x) by {
                    let i = choose|i: int| 0 <= i < self.pending@.len() && self.pending@[i] == x;
                    if i < before.len() {
                        assert(before[i] == x);
                    }
                }
                assert forall|x: u64| before.to_set().insert(id).contains(x) implies self.pending@.to_set().contains(
                    x,
                ) by {
                    if x == id {
                        assert(self.pending@[before.len() as int] == x);
                    } else {
                        let i = choose|i: int| 0 <= i < before.len() && before[i] == x;
                        assert(self.pending@[i] == x);
                    }
                }
            }
        }
        id
    }

    /// Allocates an id and builds the framed request line for it, in one
    /// step, as a call issues its envelope.
    pub fn call_line(&mut self, method: &str, params: &Option<String>) -> (r: (u64, String))
        requires
            old(self).wf(),
            old(self).next_id_spec() < u64::MAX,
        ensures
            final(self).wf(),
            r.0 == old(self).next_id_spec(),
            final(self).next_id_spec() == old(self).next_id_spec() + 1,
            !old(self).pending_set().contains(r.0),
            !old(self).completed_map().contains_key(r.0),
            final(self).pending_set() == old(self).pending_set().insert(r.0),
            final(self).completed_map() == old(self).completed_map(),
            r.1@ == request_line(
                r.0 as nat,
                method@,
                match params {
                    Some(p) => Some(p@),
                    None => None,
                },
            ),
    {
        let id = self.begin_call();
        let line = encode_request_line(id, method, params);
        (id, line)
    }

    /// Withdraws an in-flight id, as a timed-out call does. The transport
    /// stays usable; a reply that later arrives for this id will be dropped.
    pub fn cancel(&mut self, id: u64)
        requires
            old(self).wf(),
        ensures
            final(self).wf(),
            final(self).pending_set() == old(self).pending_set().remove(id),
            final(self).completed_map() == old(self).completed_map(),
            final(self).next_id_spec() == old(self).next_id_spec(),
    {
        let ghost before = self.pending@;
        let n = self.pending.len();
        let mut i: usize = 0;
        while i < n
            invariant
                i <= n,
                n == self.pending@.len(),
                self.pending@ == before,
                *self == *old(self),
                old(self).wf(),
                forall|l: int| 0 <= l < i ==> before[l] != id,
            decreases n - i,
        {
            if self.pending[i] == id {
                self.pending.remove(i);
                proof {
                    lemma_unique_remove_to_set(before, i as int);
                }
                return ;
            }
            i = i + 1;
        }
        proof {
            assert(!before.to_set().contains(id));
            assert(before.to_set().remove(id) =~= before.to_set());
        }
    }

    /// Hands a parsed reply to the table. A reply whose id is in flight
    /// completes exactly that entry; any other reply is dropped with no
    /// effect, and the result says which happened.
    pub fn deliver(&mut self, reply: RpcReply) -> (delivered: bool)
        requires
            old(self).wf(),
        ensures
            final(self).wf(),
            final(self).next_id_spec() == old(self).next_id_spec(),
            old(self).pending_set().contains(reply.id) ==> delivered && final(self).pending_set()
                == old(self).pending_set().remove(reply.id) && final(self).completed_map() == old(
                self,
            ).completed_map().insert(reply.id, outcome_abs(reply.outcome)),
            !old(self).pending_set().contains(reply.id) ==> !delivered && final(self).pending_set()
                == old(self).pending_set() && final(self).completed_map() == old(self).completed_map(),
    {
        let ghost before = self.pending@;
        let ghost done_before = self.completed@;
        let n = self.pending.len();
        let mut i: usize = 0;
        while i < n
            invariant
                i <= n,
                n == self.pending@.len(),
                self.pending@ == before,
                self.completed@ == done_before,
                *self == *old(self),
                old(self).wf(),
                forall|l: int| 0 <= l < i ==> before[l] != reply.id,
            decreases n - i,
        {
            if self.pending[i] == reply.id {
                self.pending.remove(i);
                proof {
                    lemma_unique_remove_to_set(before, i as int);
                }
                let ghost id = reply.id;
                self.completed.push(reply);
                proof {
                    assert(self.completed@.drop_last() =~= done_before);
                    if exists|l: int| 0 <= l < done_before.len() && done_before[l].id == id {
                        let l = choose|l: int|
                            0 <= l < done_before.len() && done_before[l].id == id;
                        assert(before[i as int] != done_before[l].id);
                    }
                }
                return true;
            }
            i = i + 1;
        }
        proof {
            assert(!before.to_set().contains(reply.id));
        }
        false
    }

    /// Feeds one raw frame from the read path. A frame that parses as a
    /// response envelope is delivered by id; a malformed frame is silently
    /// dropped, fatal to nothing.
    pub fn on_frame(&mut self, frame: &[u8]) -> (delivered: bool)
        requires
            old(self).wf(),
        ensures
            final(self).wf(),
            final(self).next_id_spec() == old(self).next_id_spec(),
            match envelope_of(frame@) {
                Some((id, is_err, payload)) => {
                    &&& old(self).pending_set().contains(id) ==> delivered
                        && final(self).pending_set() == old(self).pending_set().remove(id)
                        && final(self).completed_map() == old(self).completed_map().insert(
                        id,
                        (is_err, payload),
                    )
                    &&& !old(self).pending_set().contains(id) ==> !delivered
                        && final(self).pending_set() == old(self).pending_set()
                        && final(self).completed_map() == old(self).completed_map()
                },
                None => !delivered && final(self).pending_set() == old(self).pending_set()
                    && final(self).completed_map() == old(self).completed_map(),
            },
    {
        match parse_envelope(frame) {
            Some(rep) => self.deliver(rep),
            None => false,
        }
    }

    /// Picks up the delivered reply for one id, if it has arrived. Exactly
    /// the outcome delivered under that id comes back, and the entry is
    /// removed: a reply is consumed at most once.
    pub fn take(&mut self, id: u64) -> (r: Option<RpcOutcome>)
        requires
            old(self).wf(),
        ensures
            final(self).wf(),
            final(self).next_id_spec() == old(self).next_id_spec(),
            final(self).pending_set() == old(self).pending_set(),
            match r {
                Some(o) => old(self).completed_map().contains_key(id) && outcome_abs(o) == old(
                    self,
                ).completed_map()[id] && final(self).completed_map() == old(
                    self,
                ).completed_map().remove(id),
                None => !old(self).completed_map().contains_key(id) && final(self).completed_map()
                    == old(self).completed_map(),
            },
    {
        let ghost done_before = self.completed@;
        let n = self.completed.len();
        let mut i: usize = 0;
        while i < n
            invariant
                i <= n,
                n == self.completed@.len(),
                self.completed@ == done_before,
                *self == *old(self),
                old(self).wf(),
                forall|l: int| 0 <= l < i ==> done_before[l].id != id,
            decreases n - i,
        {
            if self.completed[i].id == id {
                proof {
                    lemma_replies_map_lookup(done_before, i as int);
                    lemma_replies_map_remove(done_before, i as int);
                }
                let rep = self.completed.remove(i);
                return Some(rep.outcome);
            }
            i = i + 1;
        }
        proof {
            lemma_replies_map_domain(done_before, id);
        }
        None
    }
}

/// Removing one element of a duplicate-free sequence removes exactly it from
/// the element set, and keeps the rest duplicate-free.
proof fn lemma_unique_remove_to_set(s: Seq<u64>, j: int)
    requires
        0 <= j < s.len(),
        forall|i: int, k: int| 0 <= i < k < s.len() ==> s[i] != s[k],
    ensures
        s.remove(j).to_set() == s.to_set().remove(s[j]),
        forall|i: int, k: int| 0 <= i < k < s.remove(j).len() ==> s.remove(j)[i] != s.remove(j)[k],
{
    let r = s.remove(j);
    assert forall|x: u64| r.to_set().contains(x) implies s.to_set().remove(s[j]).contains(x) by {
        let i = choose|i: int| 0 <= i < r.len() && r[i] == x;
        if i < j {
            assert(s[i] == x);
        } else {
            assert(s[i + 1] == x);
        }
    }
    assert forall|x: u64| s.to_set().remove(s[j]).contains(x) implies r.to_set().contains(x) by {
        let i = choose|i: int| 0 <= i < s.len() && s[i] == x;
        if i < j {
            assert(r[i] == x);
        } else {
            assert(i != j);
            assert(r[i - 1] == x);
        }
    }
    assert(r.to_set() =~= s.to_set().remove(s[j]));
}

/// Concurrent calls complete independently: with two distinct outstanding
/// ids, delivering the second reply and then the first leaves each caller's
/// pickup exactly its own outcome, whatever the arrival order.
pub proof fn lemma_out_of_order_delivery(
    delivered: Map<u64, (bool, Seq<char>)>,
    id_a: u64,
    id_b: u64,
    outcome_a: (bool, Seq<char>),
    outcome_b: (bool, Seq<char>),
)
    requires
        id_a != id_b,
    ensures
        delivered.insert(id_b, outcome_b).insert(id_a, outcome_a)[id_a] == outcome_a,
        delivered.insert(id_b, outcome_b).insert(id_a, outcome_a)[id_b] == outcome_b,
        delivered.insert(id_a, outcome_a).insert(id_b, outcome_b)[id_a] == outcome_a,
        delivered.insert(id_a, outcome_a).insert(id_b, outcome_b)[id_b] == outcome_b,
{
}

} // verus!
