use newsletter::directory::SubscriberDirectory;
use newsletter::directory::SubscriberStatus;
use newsletter::subscription::submit;
use newsletter::subscription::SubscribeError;
use newsletter::subscription::Subsriber;
use newsletter::token::TokenStore;
use newsletter::transport::EmailTransport;

fn form(name: &str, email: &str) -> Subsriber {
    Subsriber { name: name.to_string(), email: email.to_string() }
}

#[test]
fn subscribe_valid_form_stores_pending_subscriber() {
    let mut dir = SubscriberDirectory::new();
    let mut tokens = TokenStore::new();
    let mut transport = EmailTransport::new(true);

    let id = submit(&mut dir, &mut tokens, &mut transport, &form("le guin", "ursula@gmail.com"))
        .unwrap();

    assert_eq!(id, 0);
    assert_eq!(dir.len(), 1);
    assert_eq!(dir.status_of(id), Some(SubscriberStatus::PendingConfirmation));
}

#[test]
fn subscribe_sends_one_confirmation_email() {
    let mut dir = SubscriberDirectory::new();
    let mut tokens = TokenStore::new();
    let mut transport = EmailTransport::new(true);

    submit(&mut dir, &mut tokens, &mut transport, &form("le guin", "ursula@gmail.com")).unwrap();

    assert_eq!(transport.sent_count(), 1);
    let mail = transport.sent_at(0);
    assert_eq!(mail.to, "ursula@gmail.com");
    assert_eq!(mail.subject, "Welcome!");
    assert!(mail.html.starts_with("/subscriptions/confirm?subscription_token="));
    assert_eq!(mail.html, mail.text);
}

#[test]
fn subscribe_empty_email_is_rejected_and_nothing_stored() {
    let mut dir = SubscriberDirectory::new();
    let mut tokens = TokenStore::new();
    let mut transport = EmailTransport::new(true);

    let r = submit(&mut dir, &mut tokens, &mut transport, &form("le guin", ""));

    assert_eq!(r, Err(SubscribeError::ValidationError));
    assert_eq!(dir.len(), 0);
    assert_eq!(transport.sent_count(), 0);
}

#[test]
fn subscribe_empty_name_is_rejected_and_nothing_stored() {
    let mut dir = SubscriberDirectory::new();
    let mut tokens = TokenStore::new();
    let mut transport = EmailTransport::new(true);

    let r = submit(&mut dir, &mut tokens, &mut transport, &form("", "ursula@gmail.com"));

    assert_eq!(r, Err(SubscribeError::ValidationError));
    assert_eq!(dir.len(), 0);
    assert_eq!(transport.sent_count(), 0);
}

#[test]
fn subscribe_malformed_email_is_rejected_and_nothing_stored() {
    let mut dir = SubscriberDirectory::new();
    let mut tokens = TokenStore::new();
    let mut transport = EmailTransport::new(true);

    let r = submit(&mut dir, &mut tokens, &mut transport, &form("ursula", "not_an_email"));

    assert_eq!(r, Err(SubscribeError::ValidationError));
    assert_eq!(dir.len(), 0);
    assert_eq!(transport.sent_count(), 0);
}

#[test]
fn subscribe_duplicate_email_is_rejected() {
    let mut dir = SubscriberDirectory::new();
    let mut tokens = TokenStore::new();
    let mut transport = EmailTransport::new(true);

    submit(&mut dir, &mut tokens, &mut transport, &form("le guin", "ursula@gmail.com")).unwrap();
    let r = submit(&mut dir, &mut tokens, &mut transport, &form("other", "ursula@gmail.com"));

    assert_eq!(r, Err(SubscribeError::DuplicateError));
    assert_eq!(dir.len(), 1);
    assert_eq!(transport.sent_count(), 1);
}

#[test]
fn subscribe_transport_failure_keeps_subscriber_pending() {
    let mut dir = SubscriberDirectory::new();
    let mut tokens = TokenStore::new();
    let mut transport = EmailTransport::new(false);

    let r = submit(&mut dir, &mut tokens, &mut transport, &form("le guin", "ursula@gmail.com"));

    assert_eq!(r, Err(SubscribeError::TransportError));
    assert_eq!(dir.len(), 1);
    assert_eq!(dir.status_of(0), Some(SubscriberStatus::PendingConfirmation));
    assert_eq!(transport.sent_count(), 0);
}

#[test]
fn new_subscriber_is_not_listed_before_confirmation() {
    let mut dir = SubscriberDirectory::new();
    let mut tokens = TokenStore::new();
    let mut transport = EmailTransport::new(true);

    submit(&mut dir, &mut tokens, &mut transport, &form("le guin", "ursula@gmail.com")).unwrap();

    assert!(dir.list_confirmed().is_empty());
}
