//! Validated subscriber email addresses.
//!
//! An address is accepted or rejected by the `validator` crate's email rule;
//! the verdict is a function of the characters alone, named here by the
//! uninterpreted `email_accepted`, so that every contract downstream can say
//! exactly which addresses flow where without restating the rule itself.

use vstd::prelude::*;

verus! {

/// The verdict of the email format rule on a string of characters.
pub uninterp spec fn email_accepted(s: Seq<char>) -> bool;

/// Relies on validator::validate_email for the email format rule; an empty
/// string is rejected (the rule splits the string at '@' and refuses an
/// empty user or domain part, so a string without '@' never passes).
#[verifier::external_body]
pub(crate) fn check_email(s: &String) -> (r: bool)
    ensures
        r == email_accepted(s@),
        s@.len() == 0 ==> !r,
        !s@.contains('@') ==> !r,
{
    validator::validate_email(s.as_str())
}

/// A subscriber email address that has passed the format rule.
pub struct SubscriberEmail {
    address: String,
}

impl SubscriberEmail {
    /// The characters of the address.
    pub closed spec fn view(self) -> Seq<char> {
        self.address@
    }

    /// Every value of this type holds an accepted address.
    pub closed spec fn wf(self) -> bool {
        email_accepted(self.address@)
    }

    /// Accepts exactly the strings that pass the email format rule and
    /// returns the rejected string itself otherwise.
    pub fn parse(s: String) -> (r: Result<Self, String>)
        ensures
            email_accepted(s@) ==> (r matches Ok(e) && e@ == s@ && e.wf()),
            !email_accepted(s@) ==> (r matches Err(msg) && msg@ == s@),
    {
        if check_email(&s) {
            Ok(SubscriberEmail { address: s })
        } else {
            Err(s)
        }
    }

    /// The address as a string slice.
    pub fn as_str(&self) -> (r: &str)
        ensures
            r@ == self@,
    {
        self.address.as_str()
    }

    /// The address as a string.
    pub fn as_string(&self) -> (r: &String)
        ensures
            r@ == self@,
    {
        &self.address
    }
}

} // verus!
