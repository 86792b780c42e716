//! A mailing-list core: subscriber lifecycle, confirmation tokens, and an
//! idempotent newsletter-delivery pipeline.
//!
//! Visitors subscribe with an email address and a display name; a subscriber
//! starts out pending and becomes confirmed when the emailed confirmation
//! token is presented. An operator publishes a newsletter issue to every
//! confirmed subscriber; an idempotency ledger guarantees that replaying the
//! same publish request does not send the issue twice.

pub mod directory;
pub mod email;
pub mod laws;
pub mod ledger;
pub mod publish;
pub mod subscription;
pub mod token;
pub mod transport;
