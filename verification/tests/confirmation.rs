use newsletter::directory::SubscriberDirectory;
use newsletter::directory::SubscriberStatus;
use newsletter::subscription::confirm;
use newsletter::subscription::submit;
use newsletter::subscription::ConfirmError;
use newsletter::subscription::Parameters;
use newsletter::subscription::Subsriber;
use newsletter::token::TokenStore;
use newsletter::transport::EmailTransport;

fn form(name: &str, email: &str) -> Subsriber {
    Subsriber { name: name.to_string(), email: email.to_string() }
}

/// The token as a visitor gets it: scraped from the emailed link.
fn token_from_link(link: &str) -> String {
    link.strip_prefix("/subscriptions/confirm?subscription_token=").unwrap().to_string()
}

#[test]
fn clicking_on_the_confirmation_link_confirms_a_subscriber() {
    let mut dir = SubscriberDirectory::new();
    let mut tokens = TokenStore::new();
    let mut transport = EmailTransport::new(true);

    let id = submit(&mut dir, &mut tokens, &mut transport, &form("le guin", "ursula@gmail.com"))
        .unwrap();
    let token = token_from_link(&transport.sent_at(0).text);

    confirm(&mut dir, &tokens, &Parameters { subscription_token: token }).unwrap();

    assert_eq!(dir.status_of(id), Some(SubscriberStatus::Confirmed));
    let listed = dir.list_confirmed();
    assert_eq!(listed.len(), 1);
    assert_eq!(listed[0].as_ref().unwrap().email.as_str(), "ursula@gmail.com");
}

#[test]
fn confirming_twice_succeeds_and_leaves_one_confirmed_subscriber() {
    let mut dir = SubscriberDirectory::new();
    let mut tokens = TokenStore::new();
    let mut transport = EmailTransport::new(true);

    let id = submit(&mut dir, &mut tokens, &mut transport, &form("le guin", "ursula@gmail.com"))
        .unwrap();
    let token = token_from_link(&transport.sent_at(0).text);
    let params = Parameters { subscription_token: token };

    confirm(&mut dir, &tokens, &params).unwrap();
    confirm(&mut dir, &tokens, &params).unwrap();

    assert_eq!(dir.status_of(id), Some(SubscriberStatus::Confirmed));
    assert_eq!(dir.list_confirmed().len(), 1);
}

#[test]
fn unknown_token_is_rejected_and_changes_nothing() {
    let mut dir = SubscriberDirectory::new();
    let mut tokens = TokenStore::new();
    let mut transport = EmailTransport::new(true);

    let id = submit(&mut dir, &mut tokens, &mut transport, &form("le guin", "ursula@gmail.com"))
        .unwrap();

    let r = confirm(&mut dir, &tokens, &Parameters {
        subscription_token: "no-such-token".to_string(),
    });

    assert_eq!(r, Err(ConfirmError::InvalidTokenError));
    assert_eq!(dir.status_of(id), Some(SubscriberStatus::PendingConfirmation));
}

#[test]
fn empty_token_is_rejected() {
    let mut dir = SubscriberDirectory::new();
    let tokens = TokenStore::new();

    let r = confirm(&mut dir, &tokens, &Parameters { subscription_token: String::new() });

    assert_eq!(r, Err(ConfirmError::InvalidTokenError));
}
