use newsletter::directory::SubscriberDirectory;
use newsletter::directory::SubscriberStatus;
use newsletter::ledger::IdempotencyLedger;
use newsletter::ledger::PublishAck;
use newsletter::publish::publish;
use newsletter::publish::FormData;
use newsletter::publish::PublishError;
use newsletter::subscription::confirm;
use newsletter::subscription::submit;
use newsletter::subscription::Parameters;
use newsletter::subscription::Subsriber;
use newsletter::token::TokenStore;
use newsletter::transport::EmailTransport;

fn issue() -> FormData {
    FormData {
        title: "Newsletter title".to_string(),
        text_content: "Newsletter body as plain text".to_string(),
        html_content: "<p>Newsletter body as html</p>".to_string(),
    }
}

struct World {
    dir: SubscriberDirectory,
    tokens: TokenStore,
    ledger: IdempotencyLedger,
    transport: EmailTransport,
}

fn world() -> World {
    World {
        dir: SubscriberDirectory::new(),
        tokens: TokenStore::new(),
        ledger: IdempotencyLedger::new(),
        transport: EmailTransport::new(true),
    }
}

/// Submits the subscriber and, when `confirmed`, walks its emailed link.
fn add_subscriber(w: &mut World, name: &str, email: &str, confirmed: bool) {
    let before = w.transport.sent_count();
    submit(&mut w.dir, &mut w.tokens, &mut w.transport, &Subsriber {
        name: name.to_string(),
        email: email.to_string(),
    })
    .unwrap();
    if confirmed {
        let link = &w.transport.sent_at(before).text;
        let token = link.strip_prefix("/subscriptions/confirm?subscription_token=").unwrap();
        confirm(&mut w.dir, &w.tokens, &Parameters { subscription_token: token.to_string() })
            .unwrap();
    }
}

#[test]
fn should_not_send_newsletter_to_unconfirmed_subscribers() {
    let mut w = world();
    add_subscriber(&mut w, "le guin", "ursula@gmail.com", false);
    let before = w.transport.sent_count();

    let ack = publish(
        &w.dir,
        &mut w.ledger,
        &mut w.transport,
        &issue(),
        &"key-1".to_string(),
        &"operator".to_string(),
    )
    .unwrap();

    assert_eq!(ack, PublishAck { delivered: 0, skipped: 0 });
    assert_eq!(w.transport.sent_count(), before);
}

#[test]
fn should_send_newsletter_to_confirmed_subscribers() {
    let mut w = world();
    add_subscriber(&mut w, "le guin", "ursula@gmail.com", true);
    add_subscriber(&mut w, "genly", "genly@winter.org", true);
    let before = w.transport.sent_count();

    let ack = publish(
        &w.dir,
        &mut w.ledger,
        &mut w.transport,
        &issue(),
        &"key-1".to_string(),
        &"operator".to_string(),
    )
    .unwrap();

    assert_eq!(ack, PublishAck { delivered: 2, skipped: 0 });
    assert_eq!(w.transport.sent_count(), before + 2);
    let first = w.transport.sent_at(before);
    assert_eq!(first.to, "ursula@gmail.com");
    assert_eq!(first.subject, "Newsletter title");
    assert_eq!(first.html, "<p>Newsletter body as html</p>");
    assert_eq!(first.text, "Newsletter body as plain text");
    assert_eq!(w.transport.sent_at(before + 1).to, "genly@winter.org");
}

#[test]
fn should_be_idempotent_when_creating_newsletter() {
    let mut w = world();
    add_subscriber(&mut w, "le guin", "ursula@gmail.com", true);

    let first = publish(
        &w.dir,
        &mut w.ledger,
        &mut w.transport,
        &issue(),
        &"key-1".to_string(),
        &"operator".to_string(),
    )
    .unwrap();
    let after_first = w.transport.sent_count();

    let second = publish(
        &w.dir,
        &mut w.ledger,
        &mut w.transport,
        &issue(),
        &"key-1".to_string(),
        &"operator".to_string(),
    )
    .unwrap();

    assert_eq!(second, first);
    assert_eq!(w.transport.sent_count(), after_first);
}

#[test]
fn fresh_key_delivers_again() {
    let mut w = world();
    add_subscriber(&mut w, "le guin", "ursula@gmail.com", true);

    publish(
        &w.dir,
        &mut w.ledger,
        &mut w.transport,
        &issue(),
        &"key-1".to_string(),
        &"operator".to_string(),
    )
    .unwrap();
    let after_first = w.transport.sent_count();

    publish(
        &w.dir,
        &mut w.ledger,
        &mut w.transport,
        &issue(),
        &"key-2".to_string(),
        &"operator".to_string(),
    )
    .unwrap();

    assert_eq!(w.transport.sent_count(), after_first + 1);
}

#[test]
fn unparseable_stored_email_is_skipped_not_fatal() {
    let mut w = world();
    add_subscriber(&mut w, "le guin", "ursula@gmail.com", true);
    add_subscriber(&mut w, "genly", "genly@winter.org", true);
    w.dir.insert_record(
        "legacy-bad-address".to_string(),
        "old-timer".to_string(),
        SubscriberStatus::Confirmed,
    )
    .unwrap();
    let before = w.transport.sent_count();

    let ack = publish(
        &w.dir,
        &mut w.ledger,
        &mut w.transport,
        &issue(),
        &"key-1".to_string(),
        &"operator".to_string(),
    )
    .unwrap();

    assert_eq!(ack, PublishAck { delivered: 2, skipped: 1 });
    assert_eq!(w.transport.sent_count(), before + 2);
}

#[test]
fn refused_recipient_is_skipped_not_fatal() {
    let mut w = world();
    add_subscriber(&mut w, "le guin", "ursula@gmail.com", true);
    add_subscriber(&mut w, "genly", "genly@winter.org", true);
    w.transport.refuse_recipient("ursula@gmail.com".to_string());
    let before = w.transport.sent_count();

    let ack = publish(
        &w.dir,
        &mut w.ledger,
        &mut w.transport,
        &issue(),
        &"key-1".to_string(),
        &"operator".to_string(),
    )
    .unwrap();

    assert_eq!(ack, PublishAck { delivered: 1, skipped: 1 });
    assert_eq!(w.transport.sent_count(), before + 1);
    assert_eq!(w.transport.sent_at(before).to, "genly@winter.org");
}

#[test]
fn unreachable_transport_fails_publish_and_a_retry_resumes() {
    let mut w = world();
    add_subscriber(&mut w, "le guin", "ursula@gmail.com", true);
    let before = w.transport.sent_count();
    w.transport.set_online(false);

    let r = publish(
        &w.dir,
        &mut w.ledger,
        &mut w.transport,
        &issue(),
        &"key-1".to_string(),
        &"operator".to_string(),
    );

    assert_eq!(r, Err(PublishError::DeliveryError));
    assert_eq!(w.transport.sent_count(), before);

    w.transport.set_online(true);
    let ack = publish(
        &w.dir,
        &mut w.ledger,
        &mut w.transport,
        &issue(),
        &"key-1".to_string(),
        &"operator".to_string(),
    )
    .unwrap();

    assert_eq!(ack, PublishAck { delivered: 1, skipped: 0 });
    assert_eq!(w.transport.sent_count(), before + 1);
}

#[test]
fn empty_issue_fields_are_rejected() {
    let mut w = world();
    add_subscriber(&mut w, "le guin", "ursula@gmail.com", true);
    let before = w.transport.sent_count();

    let mut blank_title = issue();
    blank_title.title = String::new();
    let mut blank_text = issue();
    blank_text.text_content = String::new();
    let mut blank_html = issue();
    blank_html.html_content = String::new();

    for bad in [blank_title, blank_text, blank_html] {
        let r = publish(
            &w.dir,
            &mut w.ledger,
            &mut w.transport,
            &bad,
            &"key-1".to_string(),
            &"operator".to_string(),
        );
        assert_eq!(r, Err(PublishError::ValidationError));
    }
    assert_eq!(w.transport.sent_count(), before);
}

#[test]
fn publish_error_status_codes() {
    assert_eq!(PublishError::ValidationError.status_code(), 400);
    assert_eq!(PublishError::AuthError.status_code(), 401);
    assert_eq!(PublishError::DeliveryError.status_code(), 500);
    assert_eq!(PublishError::UnexpectedError.status_code(), 500);
}
