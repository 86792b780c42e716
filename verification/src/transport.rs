//! The outbound email capability as the pipeline observes it.
//!
//! `EmailTransport` stands for the remote sending endpoint: it records every
//! message it accepts, in order, and can be set up to be unreachable (every
//! attempt fails) or to refuse particular recipients (only those attempts
//! fail). The recorded trace is what the delivery contracts speak about, so
//! "who was mailed, and how often" is a proved property, not a log entry.

use vstd::prelude::*;

verus! {

/// One accepted message, as contracts see it.
pub ghost struct SentMail {
    pub to: Seq<char>,
    pub subject: Seq<char>,
    pub html: Seq<char>,
    pub text: Seq<char>,
}

/// One accepted message.
pub struct SentEmail {
    pub to: String,
    pub subject: String,
    pub html: String,
    pub text: String,
}

/// The message a stored entry stands for.
pub open spec fn mail_view(e: SentEmail) -> SentMail {
    SentMail { to: e.to@, subject: e.subject@, html: e.html@, text: e.text@ }
}

/// Whether `e` is one of the addresses in `rejected`.
pub open spec fn addr_in(rejected: Seq<Seq<char>>, e: Seq<char>) -> bool {
    exists|i: int| 0 <= i < rejected.len() && #[trigger] rejected[i] == e
}

/// Why a send attempt failed.
#[derive(Clone, Copy, PartialEq, Eq, Structural, Debug)]
pub enum TransportError {
    /// The endpoint is down: a systemic failure, every attempt fails.
    Unreachable,
    /// The endpoint refused this recipient; other attempts may still succeed.
    RecipientRejected,
}

/// The sending endpoint: a trace of accepted messages plus the failure
/// behaviour it was set up with.
pub struct EmailTransport {
    online: bool,
    rejected: Vec<String>,
    sent: Vec<SentEmail>,
}

impl View for EmailTransport {
    type V = Seq<SentMail>;

    closed spec fn view(&self) -> Seq<SentMail> {
        self.sent@.map_values(|e: SentEmail| mail_view(e))
    }
}

impl EmailTransport {
    /// Whether the endpoint is reachable at all.
    pub closed spec fn spec_online(self) -> bool {
        self.online
    }

    /// The recipients the endpoint refuses.
    pub closed spec fn spec_rejected(self) -> Seq<Seq<char>> {
        self.rejected@.map_values(|s: String| s@)
    }

    /// Whether the endpoint refuses the recipient `e`.
    pub open spec fn rejects(self, e: Seq<char>) -> bool {
        addr_in(self.spec_rejected(), e)
    }

    /// An endpoint with an empty trace that refuses nobody.
    pub fn new(online: bool) -> (t: EmailTransport)
        ensures
            t.spec_online() == online,
            t.spec_rejected() =~= Seq::<Seq<char>>::empty(),
            t@ =~= Seq::<SentMail>::empty(),
    {
        let t = EmailTransport { online, rejected: Vec::new(), sent: Vec::new() };
        proof {
            assert(t.spec_rejected() =~= Seq::<Seq<char>>::empty());
            assert(t@ =~= Seq::<SentMail>::empty());
        }
        t
    }

    /// Brings the endpoint up or down; the trace and the refused recipients
    /// are untouched.
    pub fn set_online(&mut self, online: bool)
        ensures
            final(self).spec_online() == online,
            final(self).spec_rejected() =~= old(self).spec_rejected(),
            final(self)@ =~= old(self)@,
    {
        self.online = online;
    }

    /// Makes the endpoint refuse the given recipient from now on.
    pub fn refuse_recipient(&mut self, addr: String)
        ensures
            final(self).spec_online() == old(self).spec_online(),
            final(self).spec_rejected() =~= old(self).spec_rejected().push(addr@),
            final(self)@ =~= old(self)@,
    {
        self.rejected.push(addr);
        proof {
            assert(self.spec_rejected() =~= old(self).spec_rejected().push(
                self.rejected@.last()@,
            ));
            assert(self@ =~= old(self)@);
        }
    }

    /// How many messages the endpoint has accepted.
    pub fn sent_count(&self) -> (n: usize)
        ensures
            n == self@.len(),
    {
        self.sent.len()
    }

    /// The `i`-th accepted message, oldest first.
    pub fn sent_at(&self, i: usize) -> (e: &SentEmail)
        requires
            i < self@.len(),
        ensures
            mail_view(*e) == self@[i as int],
    {
        &self.sent[i]
    }

    /// One delivery attempt: fails on an unreachable endpoint or a refused
    /// recipient, otherwise appends exactly this message to the trace.
    pub fn send(&mut self, to: &String, subject: &String, html: &String, text: &String) -> (r:
        Result<(), TransportError>)
        ensures
            final(self).spec_online() == old(self).spec_online(),
            final(self).spec_rejected() =~= old(self).spec_rejected(),
            !old(self).spec_online() ==> {
                &&& r matches Err(e) && e == TransportError::Unreachable
                &&& final(self)@ =~= old(self)@
            },
            old(self).spec_online() && old(self).rejects(to@) ==> {
                &&& r matches Err(e) && e == TransportError::RecipientRejected
                &&& final(self)@ =~= old(self)@
            },
            old(self).spec_online() && !old(self).rejects(to@) ==> {
                &&& r matches Ok(u) && u == ()
                &&& final(self)@ =~= old(self)@.push(
                    SentMail { to: to@, subject: subject@, html: html@, text: text@ },
                )
            },
    {
        if !self.online {
            return Err(TransportError::Unreachable);
        }
        let n = self.rejected.len();
        for i in 0..n
            invariant
                self == old(self),
                self.spec_online(),
                n == self.spec_rejected().len(),
                forall|j: int| 0 <= j < i ==> #[trigger] self.spec_rejected()[j] != to@,
        {
            if self.rejected[i].eq(to) {
                proof {
                    assert(self.spec_rejected()[i as int] == to@);
                }
                return Err(TransportError::RecipientRejected);
            }
        }
        self.sent.push(
            SentEmail { to: to.clone(), subject: subject.clone(), html: html.clone(), text: text.clone() },
        );
        proof {
            assert(self@ =~= old(self)@.push(
                SentMail { to: to@, subject: subject@, html: html@, text: text@ },
            ));
            assert(self.spec_rejected() =~= old(self).spec_rejected());
        }
        Ok(())
    }
}

} // verus!
