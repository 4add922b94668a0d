use gus::config::{entry_line, parse, serialize, Config, ConfigError};
use gus::nesting::{measure_nesting, MAX_DEPTH};
use gus::user::User;

fn user(name: &str, email: &str, key: Option<&str>) -> User {
    User::new(name.to_string(), email.to_string(), key.map(|k| k.to_string()))
}

fn sample() -> Config {
    let mut c = Config::new();
    c.insert("work".to_string(), user("John Doe", "john@work.com", Some("ABCD1234")));
    c.insert("home".to_string(), user("Johnny", "john@home.org", None));
    c
}

#[test]
fn parse_reads_records() {
    let text = "[work]\nname = \"John Doe\"\nemail = \"john@work.com\"\nsigningkey = \"ABCD\"\n\n[home]\nname = \"Johnny\"\nemail = \"john@home.org\"\n";
    let c = parse(text.to_string()).unwrap();
    assert_eq!(c.len(), 2);
    let w = c.get("work").unwrap();
    assert_eq!(w.name, "John Doe");
    assert_eq!(w.email, "john@work.com");
    assert_eq!(w.signingkey, Some("ABCD".to_string()));
    let h = c.get("home").unwrap();
    assert_eq!(h.name, "Johnny");
    assert_eq!(h.signingkey, None);
    assert!(c.get("other").is_none());
}

#[test]
fn parse_empty_text_is_empty_config() {
    let c = parse(String::new()).unwrap();
    assert_eq!(c.len(), 0);
}

#[test]
fn parse_ignores_unknown_fields() {
    let c = parse("[a]\nname = \"N\"\nemail = \"E\"\nage = 3\n".to_string()).unwrap();
    assert_eq!(c.get("a").unwrap().name, "N");
}

#[test]
fn parse_rejects_malformed_text() {
    assert_eq!(parse("[a\nname = ".to_string()).err(), Some(ConfigError::Syntax));
    assert_eq!(parse("a = 3\n".to_string()).err(), Some(ConfigError::Syntax));
}

#[test]
fn parse_rejects_record_without_email() {
    assert_eq!(
        parse("[a]\nname = \"N\"\n".to_string()).err(),
        Some(ConfigError::InvalidEntry("a".to_string()))
    );
}

#[test]
fn parse_rejects_non_string_name() {
    assert_eq!(
        parse("[b]\nname = 5\nemail = \"E\"\n".to_string()).err(),
        Some(ConfigError::InvalidEntry("b".to_string()))
    );
}

#[test]
fn from_records_rejects_repeated_alias() {
    let f = vec![("name".to_string(), Some("N".to_string())), ("email".to_string(), Some("E".to_string()))];
    let t = vec![("a".to_string(), f.clone()), ("a".to_string(), f)];
    assert_eq!(Config::from_records(&t).err(), Some(ConfigError::InvalidEntry("a".to_string())));
}

#[test]
fn serialize_writes_toml_tables() {
    let mut c = Config::new();
    c.insert("work".to_string(), user("John Doe", "john@work.com", None));
    assert_eq!(serialize(&c).unwrap(), "[work]\nemail = \"john@work.com\"\nname = \"John Doe\"\n");
}

#[test]
fn round_trip_keeps_every_profile() {
    let c = sample();
    let back = parse(serialize(&c).unwrap()).unwrap();
    assert_eq!(back.len(), 2);
    for alias in ["work", "home"] {
        let a = c.get(alias).unwrap();
        let b = back.get(alias).unwrap();
        assert_eq!(a.name, b.name);
        assert_eq!(a.email, b.email);
        assert_eq!(a.signingkey, b.signingkey);
    }
}

#[test]
fn round_trip_of_empty_config() {
    let back = parse(serialize(&Config::new()).unwrap()).unwrap();
    assert_eq!(back.len(), 0);
}

#[test]
fn round_trip_with_quotes_and_dots() {
    let mut c = Config::new();
    c.insert("my.alias".to_string(), user("O'Neil \"Jr\"", "x@y.z", Some("")));
    let back = parse(serialize(&c).unwrap()).unwrap();
    let b = back.get("my.alias").unwrap();
    assert_eq!(b.name, "O'Neil \"Jr\"");
    assert_eq!(b.signingkey, Some(String::new()));
}

#[test]
fn insert_replaces_existing_alias() {
    let mut c = sample();
    c.insert("work".to_string(), user("Other", "o@o.o", None));
    assert_eq!(c.len(), 2);
    assert_eq!(c.get("work").unwrap().name, "Other");
    assert_eq!(c.list()[0], "work: Other <o@o.o>");
}

#[test]
fn remove_deletes_only_that_alias() {
    let mut c = sample();
    assert!(c.remove("work"));
    assert!(!c.remove("work"));
    assert_eq!(c.len(), 1);
    assert!(c.contains_key("home"));
    assert!(!c.contains_key("work"));
}

#[test]
fn list_lines_in_order() {
    assert_eq!(
        sample().list(),
        vec![
            "work: John Doe <john@work.com>, GPG signing key: ABCD1234".to_string(),
            "home: Johnny <john@home.org>".to_string(),
        ]
    );
}

#[test]
fn line_without_key() {
    assert_eq!(entry_line(&"a".to_string(), &user("N", "E", None)), "a: N <E>");
}

#[test]
fn deeply_nested_text_is_refused() {
    let text = format!("a = {}", "[".repeat(100_000));
    assert_eq!(parse(text).err(), Some(ConfigError::TooNested));
    let dotted = format!("{}b = 1\n", "x.".repeat(100_000));
    assert_eq!(parse(dotted).err(), Some(ConfigError::TooNested));
    let just_over = format!("a = {}{}\n", "[".repeat(MAX_DEPTH + 1), "]".repeat(MAX_DEPTH + 1));
    assert_eq!(parse(just_over).err(), Some(ConfigError::TooNested));
}

#[test]
fn nesting_at_the_bound_is_parsed() {
    let text = format!("a = {}{}\n", "[".repeat(MAX_DEPTH), "]".repeat(MAX_DEPTH));
    assert_eq!(measure_nesting(&text), MAX_DEPTH);
    assert_eq!(parse(text).err(), Some(ConfigError::Syntax));
    let header = format!("[{}h]\n", "h.".repeat(MAX_DEPTH - 1));
    let body = format!("{}k = {}{}\n", "k.".repeat(MAX_DEPTH / 2), "[".repeat(MAX_DEPTH / 2), "]".repeat(MAX_DEPTH / 2));
    let text = format!("{}{}", header, body);
    assert_eq!(measure_nesting(&text), MAX_DEPTH);
    assert_eq!(parse(text).err(), Some(ConfigError::InvalidEntry("h".to_string())));
}

#[test]
fn large_flat_config_round_trips() {
    let mut c = Config::new();
    for i in 0..2000 {
        c.insert(
            format!("p{}", i),
            user("Dr. J. [Doe] {x}", &format!("p{}@mail.example.com", i), Some("A.B.C")),
        );
    }
    let text = serialize(&c).unwrap();
    assert!(measure_nesting(&text) <= 1);
    let back = parse(text).unwrap();
    assert_eq!(back.len(), 2000);
    let u = back.get("p1999").unwrap();
    assert_eq!(u.name, "Dr. J. [Doe] {x}");
    assert_eq!(u.email, "p1999@mail.example.com");
    assert_eq!(u.signingkey, Some("A.B.C".to_string()));
}

#[test]
fn measure_counts_brackets_and_dots_outside_strings() {
    assert_eq!(measure_nesting("[a]\nx = { y = [1.5] }"), 3);
    assert_eq!(measure_nesting("plain"), 0);
    assert_eq!(measure_nesting("a = \"x.y[z\\\"{\"\n"), 0);
    assert_eq!(measure_nesting("a = 'x.y[z'\n# c.d [[[\n"), 0);
    assert_eq!(measure_nesting("a = \"\"\"\n[.]\n\"\"\"\"\"\nb = '''x.y'''\n"), 0);
    assert_eq!(measure_nesting("a = [\n{b.c = 1},\n{d.e = 2}\n]\n"), 4);
}
