use gus::user::User;

fn sample(key: Option<&str>) -> User {
    User::new("John Doe".to_string(), "john@example.com".to_string(), key.map(|k| k.to_string()))
}

#[test]
fn change_overwrites_given_fields() {
    let mut u = sample(Some("K1"));
    u.change(Some("Jane".to_string()), None, Some(Some("K2".to_string())));
    assert_eq!(u.name, "Jane");
    assert_eq!(u.email, "john@example.com");
    assert_eq!(u.signingkey, Some("K2".to_string()));
}

#[test]
fn change_with_nothing_keeps_everything() {
    let mut u = sample(Some("K1"));
    u.change(None, None, None);
    assert_eq!(u.name, "John Doe");
    assert_eq!(u.email, "john@example.com");
    assert_eq!(u.signingkey, Some("K1".to_string()));
}

#[test]
fn change_email_only() {
    let mut u = sample(Some("K1"));
    u.change(None, Some("new@example.com".to_string()), None);
    assert_eq!(u.name, "John Doe");
    assert_eq!(u.email, "new@example.com");
    assert_eq!(u.signingkey, Some("K1".to_string()));
}

#[test]
fn to_cmd_with_key() {
    let u = sample(Some("ABCD"));
    assert_eq!(
        u.to_cmd(),
        vec![
            vec!["user.name".to_string(), "John Doe".to_string()],
            vec!["user.email".to_string(), "john@example.com".to_string()],
            vec!["user.signingkey".to_string(), "ABCD".to_string()],
        ]
    );
}

#[test]
fn to_cmd_without_key_unsets_it() {
    let u = sample(None);
    assert_eq!(
        u.to_cmd(),
        vec![
            vec!["user.name".to_string(), "John Doe".to_string()],
            vec!["user.email".to_string(), "john@example.com".to_string()],
            vec!["--unset".to_string(), "user.signingkey".to_string()],
        ]
    );
}

#[test]
fn change_can_clear_signing_key() {
    let mut u = sample(Some("K1"));
    u.change(None, None, Some(None));
    assert_eq!(u.name, "John Doe");
    assert_eq!(u.email, "john@example.com");
    assert_eq!(u.signingkey, None);
}
