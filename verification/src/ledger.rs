//! The idempotency ledger: the serialization point for duplicate publish
//! requests.
//!
//! A row is keyed by `(caller identity, idempotency key)`. `begin` atomically
//! claims the key for this invocation or reports its existing state, so of
//! two requests sharing a key exactly one can ever see `Fresh`; `complete`
//! stores the final outcome, which every later `begin` with that key gets
//! back. A row whose run failed before `complete` stays in progress, so a
//! retry resumes instead of silently succeeding. The ledger is viewed as a
//! map from the key pair to the row's state.

use vstd::prelude::*;

verus! {

/// The acknowledgement a finished publish run produces: how many confirmed
/// subscribers were delivered and how many were skipped.
#[derive(Clone, Copy, PartialEq, Eq, Structural, Debug)]
pub struct PublishAck {
    pub delivered: u64,
    pub skipped: u64,
}

/// The state a ledger row is in.
#[derive(Clone, Copy, PartialEq, Eq, Structural, Debug)]
pub enum LedgerState {
    /// Claimed, outcome not yet recorded.
    InProgress,
    /// Finished with this outcome.
    Completed(PublishAck),
}

/// What `begin` reports to its caller.
#[derive(Clone, Copy, PartialEq, Eq, Structural, Debug)]
pub enum LedgerClaim {
    /// The key was free and is now claimed by this caller.
    Fresh,
    /// Another invocation claimed the key and has not completed.
    InProgress,
    /// A finished invocation already recorded this outcome.
    Completed(PublishAck),
}

/// One stored row.
struct LedgerEntry {
    caller: String,
    key: String,
    state: LedgerState,
}

/// The key pair of a row.
spec fn pair_of(e: LedgerEntry) -> (Seq<char>, Seq<char>) {
    (e.caller@, e.key@)
}

/// The map a sequence of rows stands for.
spec fn ledger_map(s: Seq<LedgerEntry>) -> Map<(Seq<char>, Seq<char>), LedgerState>
    decreases s.len(),
{
    if s.len() == 0 {
        Map::empty()
    } else {
        ledger_map(s.drop_last()).insert(pair_of(s.last()), s.last().state)
    }
}

/// Stored key pairs are pairwise distinct.
spec fn unique_pairs(s: Seq<LedgerEntry>) -> bool {
    forall|i: int, j: int|
        #![trigger s[i], s[j]]
        0 <= i < j < s.len() ==> pair_of(s[i]) != pair_of(s[j])
}

/// A pair is in the map exactly when some row holds it.
proof fn lemma_ledger_map_dom(s: Seq<LedgerEntry>, p: (Seq<char>, Seq<char>))
    ensures
        ledger_map(s).contains_key(p) <==> exists|i: int|
            0 <= i < s.len() && pair_of(#[trigger] s[i]) == p,
    decreases s.len(),
{
    if s.len() > 0 {
        let sl = s.drop_last();
        lemma_ledger_map_dom(sl, p);
        if pair_of(s.last()) == p {
            assert(pair_of(#[trigger] s[s.len() - 1]) == p);
        } else {
            if exists|i: int| 0 <= i < s.len() && pair_of(#[trigger] s[i]) == p {
                let i = choose|i: int| 0 <= i < s.len() && pair_of(#[trigger] s[i]) == p;
                assert(sl[i] == s[i]);
            }
            if ledger_map(sl).contains_key(p) {
                let i = choose|i: int| 0 <= i < sl.len() && pair_of(#[trigger] sl[i]) == p;
                assert(pair_of(#[trigger] s[i]) == p);
            }
        }
    }
}

/// With distinct pairs, each row decides the map at its pair.
proof fn lemma_ledger_map_at(s: Seq<LedgerEntry>, i: int)
    requires
        unique_pairs(s),
        0 <= i < s.len(),
    ensures
        ledger_map(s).contains_key(pair_of(s[i])),
        ledger_map(s)[pair_of(s[i])] == s[i].state,
    decreases s.len(),
{
    let sl = s.drop_last();
    if i == s.len() - 1 {
    } else {
        assert(sl[i] == s[i]);
        lemma_ledger_map_at(sl, i);
        assert(pair_of(s[i]) != pair_of(s.last()));
    }
}

/// Overwriting one row's state updates the map at its pair alone.
proof fn lemma_ledger_map_update(s: Seq<LedgerEntry>, i: int, e2: LedgerEntry)
    requires
        unique_pairs(s),
        0 <= i < s.len(),
        pair_of(e2) == pair_of(s[i]),
    ensures
        ledger_map(s.update(i, e2)) =~= ledger_map(s).insert(pair_of(s[i]), e2.state),
    decreases s.len(),
{
    let s2 = s.update(i, e2);
    let sl = s.drop_last();
    if i == s.len() - 1 {
        assert(s2.drop_last() =~= sl);
        assert(s2.last() == e2);
    } else {
        assert(s2.drop_last() =~= sl.update(i, e2));
        assert(s2.last() == s.last());
        assert(sl[i] == s[i]);
        lemma_ledger_map_update(sl, i, e2);
        assert(pair_of(s.last()) != pair_of(s[i]));
    }
}

/// The store of idempotency rows.
pub struct IdempotencyLedger {
    entries: Vec<LedgerEntry>,
}

impl View for IdempotencyLedger {
    type V = Map<(Seq<char>, Seq<char>), LedgerState>;

    closed spec fn view(&self) -> Map<(Seq<char>, Seq<char>), LedgerState> {
        ledger_map(self.entries@)
    }
}

impl IdempotencyLedger {
    /// The stored key pairs are pairwise distinct.
    pub closed spec fn wf(self) -> bool {
        unique_pairs(self.entries@)
    }

    /// An empty ledger.
    pub fn new() -> (l: IdempotencyLedger)
        ensures
            l@ =~= Map::<(Seq<char>, Seq<char>), LedgerState>::empty(),
            l.wf(),
    {
        IdempotencyLedger { entries: Vec::new() }
    }

    /// The index of the row with this key pair, if any.
    fn find(&self, caller: &String, key: &String) -> (r: Option<usize>)
        ensures
            match r {
                Some(i) => i < self.entries@.len() && pair_of(self.entries@[i as int]) == (
                    caller@,
                    key@,
                ),
                None => !self@.contains_key((caller@, key@)),
            },
    {
        let n = self.entries.len();
        for i in 0..n
            invariant
                n == self.entries@.len(),
                forall|j: int|
                    0 <= j < i ==> pair_of(#[trigger] self.entries@[j]) != (caller@, key@),
        {
            if self.entries[i].caller.eq(caller) && self.entries[i].key.eq(key) {
                return Some(i);
            }
        }
        proof {
            lemma_ledger_map_dom(self.entries@, (caller@, key@));
        }
        None
    }

    /// Atomically claims the key pair for this invocation, or reports the
    /// state an earlier invocation left it in. Exactly one of any set of
    /// invocations sharing a key pair can receive `Fresh`.
    pub fn begin(&mut self, caller: &String, key: &String) -> (r: LedgerClaim)
        requires
            old(self).wf(),
        ensures
            final(self).wf(),
            !old(self)@.contains_key((caller@, key@)) ==> {
                &&& r == LedgerClaim::Fresh
                &&& final(self)@ =~= old(self)@.insert((caller@, key@), LedgerState::InProgress)
            },
            old(self)@.contains_key((caller@, key@)) && old(self)@[(caller@, key@)]
                == LedgerState::InProgress ==> {
                &&& r == LedgerClaim::InProgress
                &&& final(self)@ =~= old(self)@
            },
            (old(self)@.contains_key((caller@, key@)) && old(self)@[(caller@, key@)] is Completed)
                ==> {
                &&& r == LedgerClaim::Completed(old(self)@[(caller@, key@)]->Completed_0)
                &&& final(self)@ =~= old(self)@
            },
    {
        match self.find(caller, key) {
            Some(i) => {
                proof {
                    lemma_ledger_map_at(self.entries@, i as int);
                }
                match self.entries[i].state {
                    LedgerState::InProgress => LedgerClaim::InProgress,
                    LedgerState::Completed(a) => LedgerClaim::Completed(a),
                }
            },
            None => {
                let ghost prev = self.entries@;
                self.entries.push(
                    LedgerEntry {
                        caller: caller.clone(),
                        key: key.clone(),
                        state: LedgerState::InProgress,
                    },
                );
                proof {
                    assert(self.entries@.drop_last() =~= prev);
                    lemma_ledger_map_dom(prev, pair_of(self.entries@.last()));
                    assert forall|i: int, j: int|
                        #![trigger self.entries@[i], self.entries@[j]]
                        0 <= i < j < self.entries@.len() implies pair_of(self.entries@[i])
                        != pair_of(self.entries@[j]) by {
                        if j < prev.len() {
                            assert(pair_of(prev[i]) != pair_of(prev[j]));
                        } else {
                            assert(pair_of(#[trigger] prev[i]) == pair_of(self.entries@[i]));
                        }
                    }
                }
                LedgerClaim::Fresh
            },
        }
    }

    /// Records the final outcome of the invocation that claimed this key
    /// pair; every later `begin` with the pair gets `Completed(ack)` back.
    pub fn complete(&mut self, caller: &String, key: &String, ack: PublishAck)
        requires
            old(self).wf(),
            old(self)@.contains_key((caller@, key@)),
            old(self)@[(caller@, key@)] == LedgerState::InProgress,
        ensures
            final(self).wf(),
            final(self)@ =~= old(self)@.insert((caller@, key@), LedgerState::Completed(ack)),
    {
        match self.find(caller, key) {
            Some(i) => {
                let row = LedgerEntry {
                    caller: self.entries[i].caller.clone(),
                    key: self.entries[i].key.clone(),
                    state: LedgerState::Completed(ack),
                };
                let ghost prev = self.entries@;
                let ghost gi = i as int;
                self.entries.set(i, row);
                proof {
                    lemma_ledger_map_update(prev, gi, self.entries@[gi]);
                    assert forall|a: int, b: int|
                        #![trigger self.entries@[a], self.entries@[b]]
                        0 <= a < b < self.entries@.len() implies pair_of(self.entries@[a])
                        != pair_of(self.entries@[b]) by {
                        assert(pair_of(prev[a]) != pair_of(prev[b]));
                    }
                }
            },
            None => {
                proof {
                    assert(false);
                }
            },
        }
    }
}

} // verus!
