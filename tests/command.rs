use gus::command::{execute, git_config_args, Command};
use gus::config::Config;
use gus::user::User;

fn strings(xs: &[&str]) -> Vec<String> {
    xs.iter().map(|x| x.to_string()).collect()
}

fn base() -> Config {
    let mut c = Config::new();
    c.insert("work".to_string(), User::new("John Doe".to_string(), "john@work.com".to_string(), Some("KEY1".to_string())));
    c.insert("home".to_string(), User::new("Johnny".to_string(), "john@home.org".to_string(), None));
    c
}

fn new_cmd(alias: &str, name: &str, email: &str, key: Option<&str>) -> Command {
    Command::New {
        alias: alias.to_string(),
        name: name.to_string(),
        email: email.to_string(),
        signingkey: key.map(|k| k.to_string()),
    }
}

#[test]
fn new_then_list_without_key() {
    let r = execute(Config::new(), new_cmd("a", "N", "E", None));
    assert!(r.save);
    let l = execute(r.config, Command::List);
    assert!(!l.save);
    assert_eq!(l.output, strings(&["a: N <E>"]));
}

#[test]
fn new_then_list_with_key() {
    let r = execute(Config::new(), new_cmd("a", "N", "E", Some("K")));
    let l = execute(r.config, Command::List);
    assert_eq!(l.output, strings(&["a: N <E>, GPG signing key: K"]));
    assert_eq!(l.output[0].matches(", GPG signing key: ").count(), 1);
}

#[test]
fn modify_missing_alias_changes_nothing() {
    let r = execute(base(), Command::Modify { alias: "nobody".to_string(), name: Some("X".to_string()), email: None, signingkey: None });
    assert!(!r.save);
    assert_eq!(r.output, strings(&["nobody doesn't exist"]));
    assert_eq!(r.config.list(), base().list());
}

#[test]
fn modify_email_only_keeps_other_fields() {
    let r = execute(base(), Command::Modify { alias: "work".to_string(), name: None, email: Some("new@work.com".to_string()), signingkey: None });
    assert!(r.save);
    assert!(r.output.is_empty());
    let u = r.config.get("work").unwrap();
    assert_eq!(u.name, "John Doe");
    assert_eq!(u.email, "new@work.com");
    assert_eq!(u.signingkey, Some("KEY1".to_string()));
    assert_eq!(r.config.list()[1], "home: Johnny <john@home.org>");
}

#[test]
fn modify_sets_signing_key() {
    let r = execute(base(), Command::Modify { alias: "home".to_string(), name: None, email: None, signingkey: Some(Some("NEW".to_string())) });
    assert_eq!(r.config.get("home").unwrap().signingkey, Some("NEW".to_string()));
}

#[test]
fn remove_missing_alias_is_noop() {
    let r = execute(base(), Command::Remove { alias: "nobody".to_string() });
    assert!(!r.save);
    assert_eq!(r.output, strings(&["nobody doesn't exist"]));
    assert_eq!(r.config.list(), base().list());
}

#[test]
fn remove_existing_alias_keeps_the_rest() {
    let r = execute(base(), Command::Remove { alias: "work".to_string() });
    assert!(r.save);
    assert!(r.output.is_empty());
    assert_eq!(r.config.list(), strings(&["home: Johnny <john@home.org>"]));
}

#[test]
fn local_applies_three_settings() {
    let r = execute(base(), Command::Local { alias: "work".to_string() });
    assert!(!r.save);
    assert_eq!(
        r.git_calls,
        vec![
            strings(&["config", "user.name", "John Doe"]),
            strings(&["config", "user.email", "john@work.com"]),
            strings(&["config", "user.signingkey", "KEY1"]),
        ]
    );
}

#[test]
fn global_applies_three_settings_with_flag() {
    let r = execute(base(), Command::Global { alias: "home".to_string() });
    assert_eq!(
        r.git_calls,
        vec![
            strings(&["config", "--global", "user.name", "Johnny"]),
            strings(&["config", "--global", "user.email", "john@home.org"]),
            strings(&["config", "--global", "--unset", "user.signingkey"]),
        ]
    );
}

#[test]
fn local_missing_alias_reports_it() {
    let r = execute(base(), Command::Global { alias: "x".to_string() });
    assert!(r.git_calls.is_empty());
    assert_eq!(r.output, strings(&["x doesn't exist"]));
}

#[test]
fn help_changes_nothing() {
    let r = execute(base(), Command::Help);
    assert!(r.help);
    assert!(!r.save);
    assert!(r.output.is_empty());
}

#[test]
fn git_args_local_without_key() {
    let u = User::new("N".to_string(), "E".to_string(), None);
    assert_eq!(git_config_args(&u, false)[2], strings(&["config", "--unset", "user.signingkey"]));
}

#[test]
fn modify_clears_signing_key() {
    let r = execute(base(), Command::Modify { alias: "work".to_string(), name: None, email: None, signingkey: Some(None) });
    assert!(r.save);
    assert_eq!(r.config.list()[0], "work: John Doe <john@work.com>");
}
