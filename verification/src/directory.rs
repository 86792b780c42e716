//! The subscriber directory: the store of subscriber records and their
//! confirmation status.
//!
//! A record's position in the directory is its identifier; records are never
//! removed, so identifiers are stable. The directory enforces that stored
//! email addresses are pairwise distinct. Reading the confirmed subscribers
//! re-validates every stored address, so that a record holding a malformed
//! address (legacy data the format rule no longer accepts) is reported and
//! skipped instead of poisoning the whole listing.

use vstd::prelude::*;

use crate::email::email_accepted;
use crate::email::SubscriberEmail;

verus! {

/// The lifecycle of a subscriber: pending until the emailed confirmation
/// token is presented, confirmed afterwards, never back.
#[derive(Clone, Copy, PartialEq, Eq, Structural, Debug)]
pub enum SubscriberStatus {
    PendingConfirmation,
    Confirmed,
}

/// One stored subscriber.
pub struct Subscriber {
    /// Position of the record in the directory.
    pub id: u64,
    /// Stored address; validated on insertion, re-checked when listed.
    pub email: String,
    /// Non-empty display name.
    pub name: String,
    pub status: SubscriberStatus,
}

/// What a stored subscriber looks like in contracts.
pub ghost struct SubscriberRecord {
    pub id: int,
    pub email: Seq<char>,
    pub name: Seq<char>,
    pub status: SubscriberStatus,
}

/// The record a subscriber row stands for.
pub open spec fn record_of(s: Subscriber) -> SubscriberRecord {
    SubscriberRecord { id: s.id as int, email: s.email@, name: s.name@, status: s.status }
}

/// A display name must be non-empty.
pub open spec fn name_ok(n: Seq<char>) -> bool {
    n.len() > 0
}

/// How an operation on the directory can fail.
#[derive(Clone, Copy, PartialEq, Eq, Structural, Debug)]
pub enum DirectoryError {
    /// The email or the name fails its format rule.
    ValidationError,
    /// The email is already present.
    DuplicateError,
    /// No record has the given identifier.
    NotFoundError,
}

/// A confirmed subscriber as the delivery pipeline sees it: only the
/// (re-validated) address is needed to send an issue.
pub struct ConfirmedSubscriber {
    pub email: SubscriberEmail,
}

/// The store of subscriber records.
pub struct SubscriberDirectory {
    rows: Vec<Subscriber>,
}

impl View for SubscriberDirectory {
    type V = Seq<SubscriberRecord>;

    closed spec fn view(&self) -> Seq<SubscriberRecord> {
        self.rows@.map_values(|s: Subscriber| record_of(s))
    }
}

/// The rows with the given subscriber set to `Confirmed`, all else unchanged.
pub open spec fn confirm_record(rows: Seq<SubscriberRecord>, id: int) -> Seq<SubscriberRecord> {
    rows.update(
        id,
        SubscriberRecord {
            id: rows[id].id,
            email: rows[id].email,
            name: rows[id].name,
            status: SubscriberStatus::Confirmed,
        },
    )
}

/// Identifiers are positions and stored addresses are pairwise distinct.
pub open spec fn rows_wf(rows: Seq<SubscriberRecord>) -> bool {
    &&& forall|i: int| 0 <= i < rows.len() ==> (#[trigger] rows[i]).id == i
    &&& forall|i: int, j: int|
        #![trigger rows[i], rows[j]]
        0 <= i < j < rows.len() ==> rows[i].email != rows[j].email
}

/// Whether some record of `rows` stores the address `e`.
pub open spec fn rows_have_email(rows: Seq<SubscriberRecord>, e: Seq<char>) -> bool {
    exists|i: int| 0 <= i < rows.len() && (#[trigger] rows[i]).email == e
}

/// Appending a record with a fresh address and the next identifier keeps the
/// directory well-formed.
pub proof fn lemma_push_keeps_wf(rows: Seq<SubscriberRecord>, rec: SubscriberRecord)
    requires
        rows_wf(rows),
        rec.id == rows.len(),
        !rows_have_email(rows, rec.email),
    ensures
        rows_wf(rows.push(rec)),
{
    let r2 = rows.push(rec);
    assert forall|i: int| 0 <= i < r2.len() implies (#[trigger] r2[i]).id == i by {
        if i < rows.len() {
            assert(rows[i].id == i);
        }
    }
    assert forall|i: int, j: int|
        #![trigger r2[i], r2[j]]
        0 <= i < j < r2.len() implies r2[i].email != r2[j].email by {
        if j < rows.len() {
            assert(rows[i].email != rows[j].email);
        } else {
            assert(!(rows[i].email == rec.email));
        }
    }
}

/// One confirmed subscriber as the listing reports it: the address, and
/// whether it still passes the format rule.
pub ghost struct MailCandidate {
    pub email: Seq<char>,
    pub valid: bool,
}

/// What one listing entry stands for.
pub open spec fn candidate_of(e: Result<ConfirmedSubscriber, String>) -> MailCandidate {
    match e {
        Ok(c) => MailCandidate { email: c.email@, valid: true },
        Err(s) => MailCandidate { email: s@, valid: false },
    }
}

/// What a whole listing stands for.
pub open spec fn candidates_of(entries: Seq<Result<ConfirmedSubscriber, String>>) -> Seq<
    MailCandidate,
> {
    entries.map_values(|e: Result<ConfirmedSubscriber, String>| candidate_of(e))
}

/// The confirmed subscribers of `rows` in directory order, each with the
/// verdict of re-validating its stored address.
pub open spec fn confirmed_candidates(rows: Seq<SubscriberRecord>) -> Seq<MailCandidate>
    decreases rows.len(),
{
    if rows.len() == 0 {
        Seq::empty()
    } else {
        let init = confirmed_candidates(rows.drop_last());
        let last = rows.last();
        if last.status == SubscriberStatus::Confirmed {
            init.push(MailCandidate { email: last.email, valid: email_accepted(last.email) })
        } else {
            init
        }
    }
}

/// Confirming a subscriber keeps the directory well-formed.
pub proof fn lemma_confirm_keeps_wf(rows: Seq<SubscriberRecord>, id: int)
    requires
        rows_wf(rows),
        0 <= id < rows.len(),
    ensures
        rows_wf(confirm_record(rows, id)),
{
    let r2 = confirm_record(rows, id);
    assert forall|i: int| 0 <= i < r2.len() implies (#[trigger] r2[i]).id == i by {
        assert(rows[i].id == i);
    }
    assert forall|i: int, j: int|
        #![trigger r2[i], r2[j]]
        0 <= i < j < r2.len() implies r2[i].email != r2[j].email by {
        assert(rows[i].email != rows[j].email);
    }
}

impl SubscriberDirectory {
    /// Identifiers are positions and stored addresses are pairwise distinct.
    pub open spec fn wf(self) -> bool {
        rows_wf(self@)
    }

    /// Whether some record stores the given address.
    pub open spec fn has_email(self, e: Seq<char>) -> bool {
        rows_have_email(self@, e)
    }

    /// An empty directory.
    pub fn new() -> (d: SubscriberDirectory)
        ensures
            d@ =~= Seq::<SubscriberRecord>::empty(),
            d.wf(),
    {
        let d = SubscriberDirectory { rows: Vec::new() };
        proof {
            assert(d@ =~= Seq::<SubscriberRecord>::empty());
        }
        d
    }

    /// How many records the directory holds.
    pub fn len(&self) -> (n: usize)
        ensures
            n == self@.len(),
    {
        self.rows.len()
    }

    /// The status of the record with the given identifier, if any.
    pub fn status_of(&self, id: u64) -> (r: Option<SubscriberStatus>)
        ensures
            id < self@.len() ==> r == Some(self@[id as int].status),
            id >= self@.len() ==> r is None,
    {
        if id < self.rows.len() as u64 {
            Some(self.rows[id as usize].status)
        } else {
            None
        }
    }

    /// Whether the given address is already stored; the duplicate check.
    pub fn contains_email(&self, email: &String) -> (r: bool)
        ensures
            r == self.has_email(email@),
    {
        let n = self.rows.len();
        for i in 0..n
            invariant
                n == self@.len(),
                forall|j: int| 0 <= j < i ==> (#[trigger] self@[j]).email != email@,
        {
            if self.rows[i].email.eq(email) {
                proof {
                    assert(self@[i as int].email == email@);
                }
                return true;
            }
        }
        false
    }

    /// Stores a new pending subscriber and hands back its identifier.
    ///
    /// Rejects a malformed address or an empty name with `ValidationError`
    /// and an address already present with `DuplicateError`; in both cases
    /// the directory is untouched.
    pub fn insert_pending(&mut self, email: String, name: String) -> (r: Result<
        u64,
        DirectoryError,
    >)
        requires
            old(self).wf(),
        ensures
            final(self).wf(),
            !(email_accepted(email@) && name_ok(name@)) ==> {
                &&& r matches Err(e) && e == DirectoryError::ValidationError
                &&& final(self)@ =~= old(self)@
            },
            email_accepted(email@) && name_ok(name@) && old(self).has_email(email@) ==> {
                &&& r matches Err(e) && e == DirectoryError::DuplicateError
                &&& final(self)@ =~= old(self)@
            },
            email_accepted(email@) && name_ok(name@) && !old(self).has_email(email@) ==> {
                &&& r matches Ok(id) && id == old(self)@.len()
                &&& final(self)@ =~= old(self)@.push(
                    SubscriberRecord {
                        id: old(self)@.len() as int,
                        email: email@,
                        name: name@,
                        status: SubscriberStatus::PendingConfirmation,
                    },
                )
            },
    {
        if name.as_str().is_empty() {
            return Err(DirectoryError::ValidationError);
        }
        if !crate::email::check_email(&email) {
            return Err(DirectoryError::ValidationError);
        }
        if self.contains_email(&email) {
            return Err(DirectoryError::DuplicateError);
        }
        let id = self.rows.len() as u64;
        let row = Subscriber { id, email, name, status: SubscriberStatus::PendingConfirmation };
        let ghost rec = record_of(row);
        self.rows.push(row);
        proof {
            assert(self@ =~= old(self)@.push(rec));
            lemma_push_keeps_wf(old(self)@, rec);
        }
        Ok(id)
    }

    /// Marks the record with the given identifier as confirmed.
    ///
    /// Idempotent: confirming an already confirmed subscriber is a no-op
    /// success. An unknown identifier yields `NotFoundError`.
    pub fn confirm(&mut self, id: u64) -> (r: Result<(), DirectoryError>)
        requires
            old(self).wf(),
        ensures
            final(self).wf(),
            id < old(self)@.len() ==> {
                &&& r matches Ok(u) && u == ()
                &&& final(self)@ =~= confirm_record(old(self)@, id as int)
            },
            id >= old(self)@.len() ==> {
                &&& r matches Err(e) && e == DirectoryError::NotFoundError
                &&& final(self)@ =~= old(self)@
            },
    {
        if id >= self.rows.len() as u64 {
            return Err(DirectoryError::NotFoundError);
        }
        let i = id as usize;
        let row = Subscriber {
            id: self.rows[i].id,
            email: self.rows[i].email.clone(),
            name: self.rows[i].name.clone(),
            status: SubscriberStatus::Confirmed,
        };
        self.rows.set(i, row);
        proof {
            assert(self@ =~= confirm_record(old(self)@, id as int));
            lemma_confirm_keeps_wf(old(self)@, id as int);
        }
        Ok(())
    }

    /// Lists the confirmed subscribers in directory order, re-validating
    /// every stored address at read time.
    ///
    /// A record whose address still passes the format rule becomes an `Ok`
    /// entry; one whose address the rule now refuses becomes an `Err` entry
    /// carrying the offending address, so that a caller can warn and skip it
    /// instead of aborting the whole listing.
    pub fn list_confirmed(&self) -> (r: Vec<Result<ConfirmedSubscriber, String>>)
        ensures
            candidates_of(r@) =~= confirmed_candidates(self@),
    {
        let mut out: Vec<Result<ConfirmedSubscriber, String>> = Vec::new();
        let n = self.rows.len();
        proof {
            assert(self@.take(0) =~= Seq::<SubscriberRecord>::empty());
        }
        for i in 0..n
            invariant
                n == self@.len(),
                candidates_of(out@) =~= confirmed_candidates(self@.take(i as int)),
        {
            let ghost prev = out@;
            if self.rows[i].status == SubscriberStatus::Confirmed {
                let addr = self.rows[i].email.clone();
                proof {
                    assert(self@[i as int].email == addr@);
                }
                match SubscriberEmail::parse(addr) {
                    Ok(em) => out.push(Ok(ConfirmedSubscriber { email: em })),
                    Err(s) => out.push(Err(s)),
                }
            }
            proof {
                assert(self@.take(i + 1).drop_last() =~= self@.take(i as int));
                assert(self@.take(i + 1).last() == self@[i as int]);
                assert(candidates_of(out@) =~= confirmed_candidates(self@.take(i + 1)));
            }
        }
        proof {
            assert(self@.take(n as int) =~= self@);
        }
        out
    }

    /// Stores a row as it stands, without validating the address: the way
    /// legacy data enters the directory. The name must be non-empty and the
    /// address must not be present yet; the address may be one the format
    /// rule refuses, which `list_confirmed` will later report and skip.
    pub fn insert_record(&mut self, email: String, name: String, status: SubscriberStatus) -> (r:
        Result<u64, DirectoryError>)
        requires
            old(self).wf(),
        ensures
            final(self).wf(),
            !name_ok(name@) ==> {
                &&& r matches Err(e) && e == DirectoryError::ValidationError
                &&& final(self)@ =~= old(self)@
            },
            name_ok(name@) && old(self).has_email(email@) ==> {
                &&& r matches Err(e) && e == DirectoryError::DuplicateError
                &&& final(self)@ =~= old(self)@
            },
            name_ok(name@) && !old(self).has_email(email@) ==> {
                &&& r matches Ok(id) && id == old(self)@.len()
                &&& final(self)@ =~= old(self)@.push(
                    SubscriberRecord {
                        id: old(self)@.len() as int,
                        email: email@,
                        name: name@,
                        status: status,
                    },
                )
            },
    {
        if name.as_str().is_empty() {
            return Err(DirectoryError::ValidationError);
        }
        if self.contains_email(&email) {
            return Err(DirectoryError::DuplicateError);
        }
        let id = self.rows.len() as u64;
        let row = Subscriber { id, email, name, status };
        let ghost rec = record_of(row);
        self.rows.push(row);
        proof {
            assert(self@ =~= old(self)@.push(rec));
            lemma_push_keeps_wf(old(self)@, rec);
        }
        Ok(id)
    }
}

} // verus!
