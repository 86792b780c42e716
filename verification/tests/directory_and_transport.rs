use newsletter::directory::DirectoryError;
use newsletter::directory::SubscriberDirectory;
use newsletter::directory::SubscriberStatus;
use newsletter::transport::EmailTransport;
use newsletter::transport::TransportError;

#[test]
fn confirming_an_unknown_id_is_not_found() {
    let mut dir = SubscriberDirectory::new();

    assert_eq!(dir.confirm(99), Err(DirectoryError::NotFoundError));
    assert_eq!(dir.len(), 0);
}

#[test]
fn insert_record_rejects_empty_name() {
    let mut dir = SubscriberDirectory::new();

    let r = dir.insert_record(
        "someone@example.com".to_string(),
        String::new(),
        SubscriberStatus::Confirmed,
    );

    assert_eq!(r, Err(DirectoryError::ValidationError));
    assert_eq!(dir.len(), 0);
}

#[test]
fn insert_record_rejects_a_present_address() {
    let mut dir = SubscriberDirectory::new();

    dir.insert_record(
        "someone@example.com".to_string(),
        "someone".to_string(),
        SubscriberStatus::Confirmed,
    )
    .unwrap();
    let r = dir.insert_record(
        "someone@example.com".to_string(),
        "other".to_string(),
        SubscriberStatus::PendingConfirmation,
    );

    assert_eq!(r, Err(DirectoryError::DuplicateError));
    assert_eq!(dir.len(), 1);
    assert!(dir.contains_email(&"someone@example.com".to_string()));
}

#[test]
fn insert_pending_rejects_malformed_address() {
    let mut dir = SubscriberDirectory::new();

    let r = dir.insert_pending("not-an-address".to_string(), "someone".to_string());

    assert_eq!(r, Err(DirectoryError::ValidationError));
    assert_eq!(dir.len(), 0);
}

#[test]
fn offline_transport_reports_unreachable_and_records_nothing() {
    let mut transport = EmailTransport::new(false);

    let r = transport.send(
        &"a@example.com".to_string(),
        &"subject".to_string(),
        &"<p>html</p>".to_string(),
        &"text".to_string(),
    );

    assert_eq!(r, Err(TransportError::Unreachable));
    assert_eq!(transport.sent_count(), 0);
}

#[test]
fn refused_recipient_reports_rejected_and_records_nothing() {
    let mut transport = EmailTransport::new(true);
    transport.refuse_recipient("a@example.com".to_string());

    let r = transport.send(
        &"a@example.com".to_string(),
        &"subject".to_string(),
        &"<p>html</p>".to_string(),
        &"text".to_string(),
    );

    assert_eq!(r, Err(TransportError::RecipientRejected));
    assert_eq!(transport.sent_count(), 0);

    let ok = transport.send(
        &"b@example.com".to_string(),
        &"subject".to_string(),
        &"<p>html</p>".to_string(),
        &"text".to_string(),
    );

    assert_eq!(ok, Ok(()));
    assert_eq!(transport.sent_count(), 1);
    assert_eq!(transport.sent_at(0).to, "b@example.com");
}
