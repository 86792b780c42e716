//! Properties that tie the workflows together, each proved over the spec
//! functions the workflow contracts are stated with.

use vstd::prelude::*;

use crate::directory::confirm_record;
use crate::directory::confirmed_candidates;
use crate::directory::rows_wf;
use crate::directory::MailCandidate;
use crate::directory::SubscriberRecord;
use crate::directory::SubscriberStatus;
use crate::email::email_accepted;
use crate::ledger::LedgerState;
use crate::ledger::PublishAck;
use crate::publish::deliverable;
use crate::publish::deliveries;
use crate::publish::n_sendable;
use crate::publish::FormData;
use crate::transport::addr_in;
use crate::transport::SentMail;

verus! {

/// How many of the messages go to the address `e`.
pub open spec fn count_to(mails: Seq<SentMail>, e: Seq<char>) -> nat
    decreases mails.len(),
{
    if mails.len() == 0 {
        0
    } else {
        count_to(mails.drop_last(), e) + if mails.last().to == e {
            1nat
        } else {
            0
        }
    }
}

/// Candidate addresses are pairwise distinct.
pub open spec fn cands_distinct(cands: Seq<MailCandidate>) -> bool {
    forall|i: int, j: int|
        #![trigger cands[i], cands[j]]
        0 <= i < j < cands.len() ==> cands[i].email != cands[j].email
}

/// A newly submitted subscriber is still pending, so the confirmed listing
/// after the submit is the listing before it: until its token is presented,
/// the new subscriber is excluded.
pub proof fn lemma_pending_subscriber_not_listed(
    rows: Seq<SubscriberRecord>,
    email: Seq<char>,
    name: Seq<char>,
)
    ensures
        confirmed_candidates(
            rows.push(
                SubscriberRecord {
                    id: rows.len() as int,
                    email: email,
                    name: name,
                    status: SubscriberStatus::PendingConfirmation,
                },
            ),
        ) =~= confirmed_candidates(rows),
{
    let rec = SubscriberRecord {
        id: rows.len() as int,
        email: email,
        name: name,
        status: SubscriberStatus::PendingConfirmation,
    };
    let rows1 = rows.push(rec);
    assert(rows1.drop_last() =~= rows);
    assert(rows1.last() == rec);
}

/// Once the new subscriber is confirmed with its token, the listing is the
/// old listing plus exactly that subscriber.
pub proof fn lemma_confirmed_subscriber_listed(
    rows: Seq<SubscriberRecord>,
    email: Seq<char>,
    name: Seq<char>,
)
    ensures
        ({
            let rows1 = rows.push(
                SubscriberRecord {
                    id: rows.len() as int,
                    email: email,
                    name: name,
                    status: SubscriberStatus::PendingConfirmation,
                },
            );
            let rows2 = confirm_record(rows1, rows.len() as int);
            confirmed_candidates(rows2) =~= confirmed_candidates(rows).push(
                MailCandidate { email: email, valid: email_accepted(email) },
            )
        }),
{
    let rows1 = rows.push(
        SubscriberRecord {
            id: rows.len() as int,
            email: email,
            name: name,
            status: SubscriberStatus::PendingConfirmation,
        },
    );
    let rows2 = confirm_record(rows1, rows.len() as int);
    assert(rows2.drop_last() =~= rows);
    assert(rows2.last() == SubscriberRecord {
        id: rows.len() as int,
        email: email,
        name: name,
        status: SubscriberStatus::Confirmed,
    });
}

/// Confirming is idempotent: one confirmation leaves the subscriber
/// confirmed, and confirming again changes nothing. The `confirm` workflow
/// itself succeeds whenever the token resolves, whatever the status, so the
/// second call is also no error.
pub proof fn lemma_confirm_idempotent(rows: Seq<SubscriberRecord>, id: int)
    requires
        0 <= id < rows.len(),
    ensures
        confirm_record(rows, id)[id].status == SubscriberStatus::Confirmed,
        confirm_record(confirm_record(rows, id), id) =~= confirm_record(rows, id),
{
}

/// Every candidate address is the address of some directory row.
proof fn lemma_candidate_emails(rows: Seq<SubscriberRecord>, k: int)
    requires
        0 <= k < confirmed_candidates(rows).len(),
    ensures
        exists|i: int|
            0 <= i < rows.len() && (#[trigger] rows[i]).email == confirmed_candidates(rows)[k].email,
    decreases rows.len(),
{
    let cc = confirmed_candidates(rows);
    let sl = rows.drop_last();
    let ccl = confirmed_candidates(sl);
    if rows.last().status == SubscriberStatus::Confirmed && k == ccl.len() {
        assert((#[trigger] rows[rows.len() - 1]).email == cc[k].email);
    } else {
        lemma_candidate_emails(sl, k);
        let i = choose|i: int| 0 <= i < sl.len() && (#[trigger] sl[i]).email == ccl[k].email;
        assert((#[trigger] rows[i]).email == cc[k].email);
    }
}

/// A well-formed directory yields candidates with pairwise distinct
/// addresses.
pub proof fn lemma_candidates_distinct(rows: Seq<SubscriberRecord>)
    requires
        rows_wf(rows),
    ensures
        cands_distinct(confirmed_candidates(rows)),
    decreases rows.len(),
{
    if rows.len() > 0 {
        let sl = rows.drop_last();
        assert forall|i: int| 0 <= i < sl.len() implies (#[trigger] sl[i]).id == i by {
            assert(rows[i].id == i);
        }
        assert forall|i: int, j: int|
            #![trigger sl[i], sl[j]]
            0 <= i < j < sl.len() implies sl[i].email != sl[j].email by {
            assert(rows[i].email != rows[j].email);
        }
        lemma_candidates_distinct(sl);
        let cc = confirmed_candidates(rows);
        let ccl = confirmed_candidates(sl);
        if rows.last().status == SubscriberStatus::Confirmed {
            assert forall|i: int, j: int|
                #![trigger cc[i], cc[j]]
                0 <= i < j < cc.len() implies cc[i].email != cc[j].email by {
                if j < ccl.len() {
                    assert(ccl[i].email != ccl[j].email);
                } else {
                    lemma_candidate_emails(sl, i);
                    let t = choose|t: int|
                        0 <= t < sl.len() && (#[trigger] sl[t]).email == ccl[i].email;
                    assert(rows[t] == sl[t]);
                    assert(rows[t].email != rows[rows.len() - 1].email);
                }
            }
        }
    }
}

/// One run mails each address at most once, and each deliverable
/// candidate's address exactly once. A completed run stores its outcome, so
/// a replayed publish adds no message at all: in aggregate over both calls,
/// each confirmed subscriber's address is mailed exactly once.
pub proof fn lemma_publish_sends_each_once(
    cands: Seq<MailCandidate>,
    rejected: Seq<Seq<char>>,
    issue: FormData,
    e: Seq<char>,
)
    requires
        cands_distinct(cands),
    ensures
        count_to(deliveries(cands, rejected, issue), e) == (
        if exists|i: int|
            0 <= i < cands.len() && (#[trigger] cands[i]).email == e && deliverable(
                cands[i],
                rejected,
            ) {
            1nat
        } else {
            0nat
        }),
    decreases cands.len(),
{
    if cands.len() > 0 {
        let sl = cands.drop_last();
        assert forall|i: int, j: int|
            #![trigger sl[i], sl[j]]
            0 <= i < j < sl.len() implies sl[i].email != sl[j].email by {
            assert(cands[i].email != cands[j].email);
        }
        lemma_publish_sends_each_once(sl, rejected, issue, e);
        let d = deliveries(cands, rejected, issue);
        let dl = deliveries(sl, rejected, issue);
        let last = cands.last();
        if deliverable(last, rejected) {
            assert(d.drop_last() =~= dl);
        }
        if last.email == e && deliverable(last, rejected) {
            if exists|i: int|
                0 <= i < sl.len() && (#[trigger] sl[i]).email == e && deliverable(sl[i], rejected) {
                let i = choose|i: int|
                    0 <= i < sl.len() && (#[trigger] sl[i]).email == e && deliverable(
                        sl[i],
                        rejected,
                    );
                assert(cands[i] == sl[i]);
                assert(cands[i].email != cands[cands.len() - 1].email);
                assert(false);
            }
            assert((#[trigger] cands[cands.len() - 1]).email == e && deliverable(
                cands[cands.len() - 1],
                rejected,
            ));
        } else {
            if exists|i: int|
                0 <= i < cands.len() && (#[trigger] cands[i]).email == e && deliverable(
                    cands[i],
                    rejected,
                ) {
                let i = choose|i: int|
                    0 <= i < cands.len() && (#[trigger] cands[i]).email == e && deliverable(
                        cands[i],
                        rejected,
                    );
                assert(i < sl.len());
                assert((#[trigger] sl[i]).email == e && deliverable(sl[i], rejected));
            }
            if exists|i: int|
                0 <= i < sl.len() && (#[trigger] sl[i]).email == e && deliverable(sl[i], rejected) {
                let i = choose|i: int|
                    0 <= i < sl.len() && (#[trigger] sl[i]).email == e && deliverable(
                        sl[i],
                        rejected,
                    );
                assert((#[trigger] cands[i]).email == e && deliverable(cands[i], rejected));
            }
        }
    }
}

/// Over a well-formed directory, one publish run mails an address exactly
/// once when it belongs to a deliverable confirmed subscriber and never
/// otherwise; since a replayed key adds no message, the aggregate over a
/// publish and its replay is the same single message per subscriber.
pub proof fn lemma_delivery_exactly_once_per_subscriber(
    rows: Seq<SubscriberRecord>,
    rejected: Seq<Seq<char>>,
    issue: FormData,
    e: Seq<char>,
)
    requires
        rows_wf(rows),
    ensures
        ({
            let cands = confirmed_candidates(rows);
            count_to(deliveries(cands, rejected, issue), e) == (
            if exists|i: int|
                0 <= i < cands.len() && (#[trigger] cands[i]).email == e && deliverable(
                    cands[i],
                    rejected,
                ) {
                1nat
            } else {
                0nat
            })
        }),
{
    lemma_candidates_distinct(rows);
    lemma_publish_sends_each_once(confirmed_candidates(rows), rejected, issue, e);
}

/// Partial failure is isolated: with no recipient refused, a run delivers
/// to exactly the candidates whose stored address is still valid, however
/// many unparseable addresses stand among them — those are skipped, and by
/// the publish contract the run still reports success.
pub proof fn lemma_invalid_rows_isolated(cands: Seq<MailCandidate>, issue: FormData)
    ensures
        deliveries(cands, Seq::<Seq<char>>::empty(), issue).len() == n_sendable(cands),
    decreases cands.len(),
{
    if cands.len() > 0 {
        lemma_invalid_rows_isolated(cands.drop_last(), issue);
        assert(!addr_in(Seq::<Seq<char>>::empty(), cands.last().email));
    }
}

/// A directory holding only pending subscribers yields no candidate: a
/// publish run over it contacts nobody.
pub proof fn lemma_unconfirmed_not_contacted(rows: Seq<SubscriberRecord>)
    requires
        forall|i: int|
            0 <= i < rows.len() ==> (#[trigger] rows[i]).status
                == SubscriberStatus::PendingConfirmation,
    ensures
        confirmed_candidates(rows) =~= Seq::<MailCandidate>::empty(),
    decreases rows.len(),
{
    if rows.len() > 0 {
        let sl = rows.drop_last();
        assert forall|i: int|
            0 <= i < sl.len() implies (#[trigger] sl[i]).status
            == SubscriberStatus::PendingConfirmation by {
            assert(rows[i].status == SubscriberStatus::PendingConfirmation);
        }
        lemma_unconfirmed_not_contacted(sl);
        assert(rows[rows.len() - 1].status == SubscriberStatus::PendingConfirmation);
    }
}

/// The ledger is the serialization point of concurrent publishes: claiming
/// a key pair puts it into the ledger, so of any set of invocations sharing
/// the pair only the first can be answered `Fresh` — every later claim sees
/// the pair present.
pub proof fn lemma_single_fresh_claim(
    l: Map<(Seq<char>, Seq<char>), LedgerState>,
    pair: (Seq<char>, Seq<char>),
    st: LedgerState,
)
    ensures
        l.insert(pair, st).contains_key(pair),
{
}

/// After a completed run, the ledger pins its outcome: a second publish
/// with the same pair takes the contract's completed case, sends nothing,
/// and returns the very acknowledgement the first run recorded — both
/// callers observe the identical success outcome.
pub proof fn lemma_replay_returns_first_outcome(
    l: Map<(Seq<char>, Seq<char>), LedgerState>,
    pair: (Seq<char>, Seq<char>),
    ack: PublishAck,
)
    ensures
        ({
            let l1 = l.insert(pair, LedgerState::Completed(ack));
            &&& l1.contains_key(pair)
            &&& l1[pair] is Completed
            &&& l1[pair]->Completed_0 == ack
        }),
{
}

} // verus!
