//! The newsletter delivery pipeline.
//!
//! `publish` delivers one issue to every confirmed subscriber, under an
//! idempotency key: a key whose outcome is already recorded is answered from
//! the ledger with no message sent, a key still in progress is resumed. A
//! subscriber whose stored address fails re-validation, or whom the endpoint
//! refuses, is skipped without failing the run; an unreachable endpoint
//! fails the run and leaves the key unfinished, so a retry resumes it.

use vstd::prelude::*;

use crate::directory::candidate_of;
use crate::directory::candidates_of;
use crate::directory::confirmed_candidates;
use crate::directory::MailCandidate;
use crate::directory::SubscriberDirectory;
use crate::ledger::IdempotencyLedger;
use crate::ledger::LedgerClaim;
use crate::ledger::LedgerState;
use crate::ledger::PublishAck;
use crate::transport::addr_in;
use crate::transport::EmailTransport;
use crate::transport::SentMail;
use crate::transport::TransportError;

verus! {

/// The newsletter issue form: a title and the two bodies, all required.
pub struct FormData {
    pub title: String,
    pub text_content: String,
    pub html_content: String,
}

/// How `publish` can fail.
#[derive(Clone, Copy, PartialEq, Eq, Structural, Debug)]
pub enum PublishError {
    /// A required issue field is empty.
    ValidationError,
    /// The caller's identity could not be established; raised by the
    /// authentication layer in front of the pipeline.
    AuthError,
    /// The sending endpoint was unreachable: the run is aborted and its
    /// idempotency key is left unfinished so that a retry resumes it.
    DeliveryError,
    /// An invariant violation.
    UnexpectedError,
}

impl PublishError {
    /// The response class each failure maps to: user-correctable input is a
    /// client error, a missing identity asks for authentication, and
    /// downstream or internal failures are server errors.
    pub fn status_code(&self) -> (c: u16)
        ensures
            *self == PublishError::ValidationError ==> c == 400,
            *self == PublishError::AuthError ==> c == 401,
            *self == PublishError::DeliveryError ==> c == 500,
            *self == PublishError::UnexpectedError ==> c == 500,
    {
        match self {
            PublishError::ValidationError => 400,
            PublishError::AuthError => 401,
            PublishError::DeliveryError => 500,
            PublishError::UnexpectedError => 500,
        }
    }
}

/// Whether an issue has all required fields.
pub open spec fn issue_wf(issue: FormData) -> bool {
    issue.title@.len() > 0 && issue.text_content@.len() > 0 && issue.html_content@.len() > 0
}

/// The message an issue produces for one recipient.
pub open spec fn issue_mail(issue: FormData, to: Seq<char>) -> SentMail {
    SentMail {
        to: to,
        subject: issue.title@,
        html: issue.html_content@,
        text: issue.text_content@,
    }
}

/// Whether this candidate gets a message: its stored address is still valid
/// and the endpoint does not refuse it.
pub open spec fn deliverable(c: MailCandidate, rejected: Seq<Seq<char>>) -> bool {
    c.valid && !addr_in(rejected, c.email)
}

/// The messages one delivery run appends: one per deliverable candidate, in
/// directory order.
pub open spec fn deliveries(
    cands: Seq<MailCandidate>,
    rejected: Seq<Seq<char>>,
    issue: FormData,
) -> Seq<SentMail>
    decreases cands.len(),
{
    if cands.len() == 0 {
        Seq::empty()
    } else {
        let init = deliveries(cands.drop_last(), rejected, issue);
        if deliverable(cands.last(), rejected) {
            init.push(issue_mail(issue, cands.last().email))
        } else {
            init
        }
    }
}

/// How many candidates hold a valid address.
pub open spec fn n_sendable(cands: Seq<MailCandidate>) -> nat
    decreases cands.len(),
{
    if cands.len() == 0 {
        0
    } else {
        n_sendable(cands.drop_last()) + if cands.last().valid {
            1nat
        } else {
            0
        }
    }
}

/// The acknowledgement a full run over `cands` produces: every deliverable
/// candidate delivered, the rest skipped.
pub open spec fn run_ack(
    cands: Seq<MailCandidate>,
    rejected: Seq<Seq<char>>,
    issue: FormData,
) -> PublishAck {
    PublishAck {
        delivered: deliveries(cands, rejected, issue).len() as u64,
        skipped: (cands.len() - deliveries(cands, rejected, issue).len()) as u64,
    }
}

/// A candidate with a valid address makes the whole sequence sendable.
proof fn lemma_n_sendable_pos(cands: Seq<MailCandidate>, i: int)
    requires
        0 <= i < cands.len(),
        cands[i].valid,
    ensures
        n_sendable(cands) > 0,
    decreases cands.len(),
{
    if i < cands.len() - 1 {
        assert(cands.drop_last()[i] == cands[i]);
        lemma_n_sendable_pos(cands.drop_last(), i);
    }
}

/// Delivery of one issue to every confirmed subscriber, at most once per
/// idempotency key.
///
/// With all issue fields present, a key pair whose outcome is recorded is
/// answered from the ledger and nothing is sent. Otherwise the run delivers
/// to every confirmed subscriber whose re-validated address the endpoint
/// accepts, skips the rest, and records its acknowledgement under the key.
/// If the endpoint is unreachable and there was someone to mail, nothing is
/// sent, the key stays unfinished and the run fails with `DeliveryError`.
pub fn publish(
    dir: &SubscriberDirectory,
    ledger: &mut IdempotencyLedger,
    transport: &mut EmailTransport,
    issue: &FormData,
    idempotency_key: &String,
    caller: &String,
) -> (r: Result<PublishAck, PublishError>)
    requires
        old(ledger).wf(),
    ensures
        final(ledger).wf(),
        final(transport).spec_online() == old(transport).spec_online(),
        final(transport).spec_rejected() =~= old(transport).spec_rejected(),
        !issue_wf(*issue) ==> {
            &&& r matches Err(e) && e == PublishError::ValidationError
            &&& final(ledger)@ =~= old(ledger)@
            &&& final(transport)@ =~= old(transport)@
        },
        (issue_wf(*issue) && old(ledger)@.contains_key((caller@, idempotency_key@)) && old(
            ledger,
        )@[(caller@, idempotency_key@)] is Completed) ==> {
            &&& r matches Ok(a) && a == old(ledger)@[(caller@, idempotency_key@)]->Completed_0
            &&& final(ledger)@ =~= old(ledger)@
            &&& final(transport)@ =~= old(transport)@
        },
        (issue_wf(*issue) && !(old(ledger)@.contains_key((caller@, idempotency_key@)) && old(
            ledger,
        )@[(caller@, idempotency_key@)] is Completed)) ==> ({
            let cands = confirmed_candidates(dir@);
            let rej = old(transport).spec_rejected();
            let pair = (caller@, idempotency_key@);
            if old(transport).spec_online() || n_sendable(cands) == 0 {
                &&& r matches Ok(a) && a == run_ack(cands, rej, *issue)
                &&& final(transport)@ =~= old(transport)@ + deliveries(cands, rej, *issue)
                &&& final(ledger)@ =~= old(ledger)@.insert(
                    pair,
                    LedgerState::Completed(run_ack(cands, rej, *issue)),
                )
            } else {
                &&& r matches Err(e) && e == PublishError::DeliveryError
                &&& final(transport)@ =~= old(transport)@
                &&& final(ledger)@ =~= old(ledger)@.insert(pair, LedgerState::InProgress)
            }
        }),
{
    if issue.title.as_str().is_empty() || issue.text_content.as_str().is_empty()
        || issue.html_content.as_str().is_empty() {
        return Err(PublishError::ValidationError);
    }
    let ghost pair = (caller@, idempotency_key@);
    let claim = ledger.begin(caller, idempotency_key);
    if let LedgerClaim::Completed(a) = claim {
        return Ok(a);
    }
    proof {
        assert(ledger@ =~= old(ledger)@.insert(pair, LedgerState::InProgress));
    }
    let ghost cands = confirmed_candidates(dir@);
    let ghost rej = transport.spec_rejected();
    let entries = dir.list_confirmed();
    proof {
        assert(cands.len() == candidates_of(entries@).len());
    }
    let n = entries.len();
    let mut delivered: u64 = 0;
    proof {
        assert(cands.take(0) =~= Seq::<MailCandidate>::empty());
    }
    for i in 0..n
        invariant
            n == entries@.len(),
            candidates_of(entries@) =~= cands,
            cands == confirmed_candidates(dir@),
            cands.len() == n,
            issue_wf(*issue),
            pair == (caller@, idempotency_key@),
            !(old(ledger)@.contains_key(pair) && old(ledger)@[pair] is Completed),
            ledger.wf(),
            ledger@ =~= old(ledger)@.insert(pair, LedgerState::InProgress),
            transport.spec_online() == old(transport).spec_online(),
            transport.spec_rejected() =~= rej,
            rej =~= old(transport).spec_rejected(),
            transport@ =~= old(transport)@ + deliveries(cands.take(i as int), rej, *issue),
            delivered == deliveries(cands.take(i as int), rej, *issue).len(),
            delivered <= i,
            !old(transport).spec_online() ==> n_sendable(cands.take(i as int)) == 0,
            !old(transport).spec_online() ==> deliveries(cands.take(i as int), rej, *issue)
                =~= Seq::<SentMail>::empty(),
    {
        proof {
            assert(candidate_of(entries@[i as int]) == cands[i as int]);
        }
        match &entries[i] {
            Ok(c) => {
                match transport.send(c.email.as_string(), &issue.title, &issue.html_content, &issue.text_content) {
                    Ok(()) => {
                        delivered = delivered + 1;
                    },
                    Err(TransportError::Unreachable) => {
                        proof {
                            lemma_n_sendable_pos(cands, i as int);
                        }
                        return Err(PublishError::DeliveryError);
                    },
                    Err(TransportError::RecipientRejected) => {},
                }
            },
            Err(_) => {},
        }
        proof {
            assert(cands.take(i + 1).drop_last() =~= cands.take(i as int));
            assert(cands.take(i + 1).last() == cands[i as int]);
            assert(transport@ =~= old(transport)@ + deliveries(cands.take(i + 1), rej, *issue));
        }
    }
    proof {
        assert(cands.take(n as int) =~= cands);
    }
    let ack = PublishAck { delivered, skipped: (n as u64) - delivered };
    ledger.complete(caller, idempotency_key, ack);
    proof {
        assert(ledger@ =~= old(ledger)@.insert(pair, LedgerState::Completed(ack)));
    }
    Ok(ack)
}

} // verus!
