//! The subscription workflow: intake of a new subscriber and confirmation of
//! a pending one.
//!
//! `submit` validates the form, stores the subscriber as pending, issues a
//! confirmation token and sends the confirmation email; it succeeds only
//! once the transport has accepted that email. `confirm` resolves a
//! presented token and marks its subscriber confirmed; presenting the same
//! token again is a no-op success.

use vstd::prelude::*;

use crate::directory::confirm_record;
use crate::directory::DirectoryError;
use crate::directory::SubscriberDirectory;
use crate::directory::SubscriberRecord;
use crate::directory::SubscriberStatus;
use crate::directory::name_ok;
use crate::email::check_email;
use crate::email::email_accepted;
use crate::token::TokenStore;
use crate::transport::EmailTransport;
use crate::transport::SentMail;

verus! {

/// The subscription form: a display name and an email address.
pub struct Subsriber {
    pub name: String,
    pub email: String,
}

/// The query parameters of a confirmation link.
pub struct Parameters {
    pub subscription_token: String,
}

/// How `submit` can fail.
#[derive(Clone, Copy, PartialEq, Eq, Structural, Debug)]
pub enum SubscribeError {
    /// The email or the name fails its format rule.
    ValidationError,
    /// The email is already subscribed.
    DuplicateError,
    /// The confirmation email could not be sent; the subscriber stays
    /// pending and the issued token stays valid.
    TransportError,
    /// A freshly drawn token collided with a bound one.
    UnexpectedError,
}

/// How `confirm` can fail.
#[derive(Clone, Copy, PartialEq, Eq, Structural, Debug)]
pub enum ConfirmError {
    /// The presented token is bound to nobody.
    InvalidTokenError,
}

/// Whether a form passes validation.
pub open spec fn submit_ok(form: Subsriber) -> bool {
    name_ok(form.name@) && email_accepted(form.email@)
}

/// The subject line of every confirmation email.
pub open spec fn confirm_subject() -> Seq<char> {
    "Welcome!"@
}

/// The confirmation link up to the token.
pub open spec fn confirm_link_prefix() -> Seq<char> {
    "/subscriptions/confirm?subscription_token="@
}

/// The confirmation email for a subscriber: both bodies hold the link that
/// embeds the token.
pub open spec fn confirmation_mail(to: Seq<char>, token: Seq<char>) -> SentMail {
    SentMail {
        to: to,
        subject: confirm_subject(),
        html: confirm_link_prefix() + token,
        text: confirm_link_prefix() + token,
    }
}

/// Builds the confirmation link embedding the given token.
fn confirmation_link(token: &String) -> (r: String)
    ensures
        r@ == confirm_link_prefix() + token@,
{
    let mut s = String::from_str("/subscriptions/confirm?subscription_token=");
    s.append(token.as_str());
    s
}

/// Intake of one subscription attempt.
///
/// On a malformed form or a duplicate address nothing is stored or sent. On
/// a valid fresh address the subscriber is stored pending and a token is
/// issued; success is returned exactly when the transport then accepts the
/// confirmation email. On a transport failure the stored row and the token
/// survive, so the subscriber can still be confirmed later; the failed
/// attempt is reported to the caller. The unexpected-error outcome is owed
/// only to a token collision, so on a store holding no 72-character token
/// it cannot occur and success is forced whenever the transport accepts.
pub fn submit(
    dir: &mut SubscriberDirectory,
    tokens: &mut TokenStore,
    transport: &mut EmailTransport,
    form: &Subsriber,
) -> (r: Result<u64, SubscribeError>)
    requires
        old(dir).wf(),
        old(tokens).wf(),
        old(tokens).bound_within(old(dir)@.len() as int),
    ensures
        final(dir).wf(),
        final(tokens).wf(),
        final(tokens).bound_within(final(dir)@.len() as int),
        final(transport).spec_online() == old(transport).spec_online(),
        final(transport).spec_rejected() =~= old(transport).spec_rejected(),
        !submit_ok(*form) ==> {
            &&& r matches Err(e) && e == SubscribeError::ValidationError
            &&& final(dir)@ =~= old(dir)@
            &&& final(tokens)@ =~= old(tokens)@
            &&& final(transport)@ =~= old(transport)@
        },
        submit_ok(*form) && old(dir).has_email(form.email@) ==> {
            &&& r matches Err(e) && e == SubscribeError::DuplicateError
            &&& final(dir)@ =~= old(dir)@
            &&& final(tokens)@ =~= old(tokens)@
            &&& final(transport)@ =~= old(transport)@
        },
        submit_ok(*form) && !old(dir).has_email(form.email@) ==> {
            &&& final(dir)@ =~= old(dir)@.push(
                SubscriberRecord {
                    id: old(dir)@.len() as int,
                    email: form.email@,
                    name: form.name@,
                    status: SubscriberStatus::PendingConfirmation,
                },
            )
            &&& (r matches Ok(id) ==> {
                &&& id == old(dir)@.len()
                &&& old(transport).spec_online()
                &&& !old(transport).rejects(form.email@)
                &&& exists|t: Seq<char>|
                    {
                        &&& !old(tokens)@.contains_key(t)
                        &&& final(tokens)@ == old(tokens)@.insert(t, id)
                        &&& final(transport)@ == old(transport)@.push(
                            confirmation_mail(form.email@, t),
                        )
                    }
            })
            &&& (r matches Err(e) ==> (e == SubscribeError::TransportError || e
                == SubscribeError::UnexpectedError))
            &&& (r == Err::<u64, SubscribeError>(SubscribeError::TransportError) ==> {
                &&& !(old(transport).spec_online() && !old(transport).rejects(form.email@))
                &&& final(transport)@ =~= old(transport)@
                &&& exists|t: Seq<char>|
                    {
                        &&& !old(tokens)@.contains_key(t)
                        &&& final(tokens)@ == old(tokens)@.insert(t, old(dir)@.len() as u64)
                    }
            })
            &&& (r == Err::<u64, SubscribeError>(SubscribeError::UnexpectedError) ==> {
                &&& final(tokens)@ =~= old(tokens)@
                &&& final(transport)@ =~= old(transport)@
                &&& exists|t: Seq<char>| #[trigger] old(tokens)@.contains_key(t) && t.len() == 72
            })
        },
{
    if form.name.as_str().is_empty() {
        return Err(SubscribeError::ValidationError);
    }
    if !check_email(&form.email) {
        return Err(SubscribeError::ValidationError);
    }
    let id = match dir.insert_pending(form.email.clone(), form.name.clone()) {
        Ok(id) => id,
        Err(DirectoryError::DuplicateError) => {
            return Err(SubscribeError::DuplicateError);
        },
        Err(_) => {
            proof {
                assert(false);
            }
            return Err(SubscribeError::ValidationError);
        },
    };
    let token = match tokens.issue(id) {
        Ok(t) => t,
        Err(_) => {
            return Err(SubscribeError::UnexpectedError);
        },
    };
    proof {
        assert forall|t: Seq<char>| #[trigger] tokens@.contains_key(t) implies tokens@[t] < dir@.len() by {
            if t != token@ {
                assert(old(tokens)@.contains_key(t));
            }
        }
    }
    let link = confirmation_link(&token);
    let subject = String::from_str("Welcome!");
    match transport.send(&form.email, &subject, &link, &link) {
        Ok(()) => {
            proof {
                assert(subject@ == confirm_subject());
                assert(link@ == confirm_link_prefix() + token@);
                assert(transport@ == old(transport)@.push(
                    confirmation_mail(form.email@, token@),
                ));
            }
            Ok(id)
        },
        Err(_) => Err(SubscribeError::TransportError),
    }
}

/// Confirmation of a subscription via its emailed token.
///
/// An unresolvable token is rejected and changes nothing. A resolvable one
/// marks its subscriber confirmed and succeeds however often it is
/// presented: confirming an already confirmed subscriber is a no-op success.
pub fn confirm(dir: &mut SubscriberDirectory, tokens: &TokenStore, params: &Parameters) -> (r:
    Result<(), ConfirmError>)
    requires
        old(dir).wf(),
        tokens.wf(),
        tokens.bound_within(old(dir)@.len() as int),
    ensures
        final(dir).wf(),
        tokens@.contains_key(params.subscription_token@) ==> {
            &&& r matches Ok(u) && u == ()
            &&& final(dir)@ =~= confirm_record(
                old(dir)@,
                tokens@[params.subscription_token@] as int,
            )
        },
        !tokens@.contains_key(params.subscription_token@) ==> {
            &&& r matches Err(e) && e == ConfirmError::InvalidTokenError
            &&& final(dir)@ =~= old(dir)@
        },
{
    let id = match tokens.resolve(&params.subscription_token) {
        Ok(id) => id,
        Err(_) => {
            return Err(ConfirmError::InvalidTokenError);
        },
    };
    match dir.confirm(id) {
        Ok(()) => Ok(()),
        Err(_) => {
            proof {
                assert(false);
            }
            Err(ConfirmError::InvalidTokenError)
        },
    }
}

} // verus!
