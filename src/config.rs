use vstd::prelude::*;
use crate::user::{User, UserView};
use vstd::string::{StringExecFns, StringSliceAdditionalSpecFns};
use vstd::utf8::encode_utf8;
use crate::nesting::{MAX_DEPTH, measure_nesting, nesting_depth};
use std::collections::BTreeMap;

verus! {

/// Aliases paired with their profiles, in display order.
pub type Entries = Seq<(Seq<char>, UserView)>;

/// `a` names one of the entries.
pub open spec fn has_alias(s: Entries, a: Seq<char>) -> bool {
    exists|i: int| 0 <= i < s.len() && #[trigger] s[i].0 == a
}

/// The place of alias `a` among the entries (meaningful where `has_alias`).
pub open spec fn index_of(s: Entries, a: Seq<char>) -> int {
    choose|i: int| 0 <= i < s.len() && #[trigger] s[i].0 == a
}

/// No alias occurs twice.
pub open spec fn unique_aliases(s: Entries) -> bool {
    forall|i: int, j: int| 0 <= i < s.len() && 0 <= j < s.len() && i != j ==> #[trigger] s[i].0 != #[trigger] s[j].0
}

/// The profile stored under `a`, if any.
pub open spec fn lookup(s: Entries, a: Seq<char>) -> Option<UserView> {
    if has_alias(s, a) {
        Some(s[index_of(s, a)].1)
    } else {
        None
    }
}

/// Stores `u` under `a`: in place where `a` is taken, else at the end.
pub open spec fn insert_entry(s: Entries, a: Seq<char>, u: UserView) -> Entries {
    if has_alias(s, a) {
        s.update(index_of(s, a), (a, u))
    } else {
        s.push((a, u))
    }
}

/// Drops the entry of `a`, where there is one.
pub open spec fn remove_entry(s: Entries, a: Seq<char>) -> Entries {
    if has_alias(s, a) {
        s.remove(index_of(s, a))
    } else {
        s
    }
}

/// The line that lists alias `a` with profile `u`.
pub open spec fn line_of(a: Seq<char>, u: UserView) -> Seq<char> {
    a + ": "@ + u.name + " <"@ + u.email + ">"@ + match u.signingkey {
        Some(k) => ", GPG signing key: "@ + k,
        None => Seq::empty(),
    }
}

/// The listing of all entries, one line each, in order.
pub open spec fn lines_of(s: Entries) -> Seq<Seq<char>> {
    Seq::new(s.len(), |i: int| line_of(s[i].0, s[i].1))
}

/// The fields of one record as read from the file: a field holds its text
/// where it is a string, `None` where it holds a value of another kind.
pub type Fields = Seq<(Seq<char>, Option<Seq<char>>)>;

/// Records as read from the file: each alias with its fields.
pub type Tables = Seq<(Seq<char>, Fields)>;

/// Records as written to the file, every field a string.
pub type TextTables = Seq<(Seq<char>, Seq<(Seq<char>, Seq<char>)>)>;

/// The value of field `k`; the last one where the key repeats.
pub open spec fn field(f: Fields, k: Seq<char>) -> Option<Option<Seq<char>>>
    decreases f.len(),
{
    if f.len() == 0 {
        None
    } else if f.last().0 == k {
        Some(f.last().1)
    } else {
        field(f.drop_last(), k)
    }
}

/// The profile a record describes: `name` and `email` must be strings, and
/// `signingkey`, where present, too. Other fields are ignored.
pub open spec fn decode_user(f: Fields) -> Option<UserView> {
    match (field(f, "name"@), field(f, "email"@), field(f, "signingkey"@)) {
        (Some(Some(n)), Some(Some(e)), None) => Some(UserView { name: n, email: e, signingkey: None }),
        (Some(Some(n)), Some(Some(e)), Some(Some(k))) => Some(UserView { name: n, email: e, signingkey: Some(k) }),
        _ => None,
    }
}

/// The entries that records describe, in order, or the alias of the first
/// record that does not describe a profile or repeats an earlier alias.
pub open spec fn decode_entries(t: Tables) -> Result<Entries, Seq<char>>
    decreases t.len(),
{
    if t.len() == 0 {
        Ok(Seq::empty())
    } else {
        match decode_entries(t.drop_last()) {
            Err(a) => Err(a),
            Ok(prev) => match decode_user(t.last().1) {
                None => Err(t.last().0),
                Some(u) => if has_alias(prev, t.last().0) {
                    Err(t.last().0)
                } else {
                    Ok(prev.push((t.last().0, u)))
                },
            },
        }
    }
}

/// The fields written for profile `u`; `signingkey` only where it is set.
pub open spec fn encode_user(u: UserView) -> Seq<(Seq<char>, Seq<char>)> {
    seq![("name"@, u.name), ("email"@, u.email)] + match u.signingkey {
        Some(k) => seq![("signingkey"@, k)],
        None => Seq::empty(),
    }
}

/// The records written for the entries, in order.
pub open spec fn encode_entries(s: Entries) -> TextTables {
    Seq::new(s.len(), |i: int| (s[i].0, encode_user(s[i].1)))
}

/// Written records as they read back where the file format keeps them as
/// they are: every field a string.
pub open spec fn as_read(t: TextTables) -> Tables {
    Seq::new(t.len(), |i: int| (t[i].0, Seq::new(t[i].1.len(), |j: int| (t[i].1[j].0, Some(t[i].1[j].1)))))
}

/// What `toml::from_str` reads from a text as a table of tables (see `read_tables`).
pub uninterp spec fn toml_tables(text: Seq<char>) -> Option<Tables>;

/// What `toml::to_string` writes for a table of tables of strings (see `write_tables`).
pub uninterp spec fn toml_text(t: TextTables) -> Option<Seq<char>>;

#[verifier::external_type_specification]
#[verifier::external_body]
pub struct ExTomlDeError(toml::de::Error);

#[verifier::external_type_specification]
#[verifier::external_body]
pub struct ExTomlSerError(toml::ser::Error);

/// Relies on `toml::from_str` reading `text` as a `BTreeMap` of tables
/// (`BTreeMap<String, toml::Value>`); the result lists them in key order.
/// A string value is kept, a value of another kind becomes `None`. The
/// outcome depends on the text alone. The parser and the deserializer
/// recurse once per level of nesting without a limit of their own, hence
/// the bound on the text's nesting measure.
#[verifier::external_body]
fn read_tables(text: &str) -> (r: Result<Vec<(String, Vec<(String, Option<String>)>)>, toml::de::Error>)
    requires
        nesting_depth(text.spec_bytes()) <= MAX_DEPTH,
    ensures
        match r {
            Ok(t) => toml_tables(text@) == Some(t.deep_view()),
            Err(_) => toml_tables(text@) is None,
        },
{
    let m: BTreeMap<String, BTreeMap<String, toml::Value>> = toml::from_str(text)?;
    Ok(m.into_iter().map(|(a, f)| (a, f.into_iter().map(|(k, v)| match v {
        toml::Value::String(s) => (k, Some(s)),
        _ => (k, None),
    }).collect())).collect())
}

/// Relies on `toml::to_string` writing the records as a `BTreeMap` of
/// `BTreeMap`s of strings. The outcome depends on the records alone.
#[verifier::external_body]
fn write_tables(t: Vec<(String, Vec<(String, String)>)>) -> (r: Result<String, toml::ser::Error>)
    ensures
        match r {
            Ok(s) => toml_text(t.deep_view()) == Some(s@),
            Err(_) => toml_text(t.deep_view()) is None,
        },
{
    let m: BTreeMap<String, BTreeMap<String, String>> = t.into_iter().map(|(a, f)| (a, f.into_iter().collect())).collect();
    toml::to_string(&m)
}

/// Why a configuration could not be read or written.
#[derive(Clone, Debug, PartialEq, Eq)]
pub enum ConfigError {
    /// The text is not a TOML table of tables.
    Syntax,
    /// The text nests deeper than `MAX_DEPTH` (see `nesting_depth`), and is
    /// refused before it is parsed.
    TooNested,
    /// The record of this alias is not a profile, or repeats an alias.
    InvalidEntry(String),
    /// The serializer refused the records.
    Unwritable,
}

/// The alias → profile mapping that a configuration file holds, with
/// aliases kept unique and in order of insertion.
#[derive(Clone, Debug)]
pub struct Config {
    entries: Vec<(String, User)>,
}

impl View for Config {
    type V = Entries;

    closed spec fn view(&self) -> Entries {
        Seq::new(self.entries@.len(), |i: int| (self.entries@[i].0@, self.entries@[i].1@))
    }
}

impl Config {
    pub closed spec fn wf(&self) -> bool {
        unique_aliases(self@)
    }

    pub fn new() -> (r: Config)
        ensures
            r.wf(),
            r@ == Seq::<(Seq<char>, UserView)>::empty(),
    {
        let r = Config { entries: Vec::new() };
        assert(r@ =~= Seq::<(Seq<char>, UserView)>::empty());
        r
    }

    pub fn len(&self) -> (r: usize)
        ensures
            r == self@.len(),
    {
        self.entries.len()
    }

    /// Where alias `a` stands, if anywhere.
    fn position(&self, a: &str) -> (r: Option<usize>)
        requires
            self.wf(),
        ensures
            r is None <==> !has_alias(self@, a@),
            r matches Some(i) ==> i < self@.len() && i == index_of(self@, a@),
    {
        let key = a.to_owned();
        let mut i: usize = 0;
        while i < self.entries.len()
            invariant
                i <= self.entries@.len(),
                key@ == a@,
                self.wf(),
                forall|j: int| 0 <= j < i ==> self@[j].0 != a@,
            decreases self.entries@.len() - i,
        {
            let found = self.entries[i].0.eq(&key);
            if found {
                assert(self@[i as int].0 == a@);
                assert(has_alias(self@, a@));
                proof {
                    let k = index_of(self@, a@);
                    assert(self@[k].0 == a@);
                    assert(unique_aliases(self@));
                    if k != i as int {
                        assert(self@[k].0 != self@[i as int].0);
                    }
                }
                return Some(i);
            }
            i += 1;
        }
        None
    }

    pub fn contains_key(&self, a: &str) -> (r: bool)
        requires
            self.wf(),
        ensures
            r == has_alias(self@, a@),
    {
        self.position(a).is_some()
    }

    pub fn get(&self, a: &str) -> (r: Option<&User>)
        requires
            self.wf(),
        ensures
            match r {
                Some(u) => lookup(self@, a@) == Some(u@),
                None => lookup(self@, a@) is None,
            },
    {
        match self.position(a) {
            Some(i) => Some(&self.entries[i].1),
            None => None,
        }
    }

    /// Stores `u` under alias `a`, replacing the profile that was there.
    pub fn insert(&mut self, a: String, u: User)
        requires
            old(self).wf(),
        ensures
            final(self).wf(),
            final(self)@ == insert_entry(old(self)@, a@, u@),
    {
        let ghost a_v = a@;
        let ghost u_v = u@;
        match self.position(a.as_str()) {
            Some(i) => {
                self.entries.set(i, (a, u));
                assert(self@ =~= old(self)@.update(i as int, (a_v, u_v)));
            },
            None => {
                self.entries.push((a, u));
                assert(self@ =~= old(self)@.push((a_v, u_v)));
            },
        }
    }

    /// One line per entry, in order.
    pub fn list(&self) -> (r: Vec<String>)
        ensures
            r.deep_view() == lines_of(self@),
    {
        let mut r: Vec<String> = Vec::new();
        let mut i: usize = 0;
        while i < self.entries.len()
            invariant
                i <= self.entries@.len(),
                r.deep_view() =~= lines_of(self@).take(i as int),
            decreases self.entries@.len() - i,
        {
            let l = entry_line(&self.entries[i].0, &self.entries[i].1);
            let ghost before = r.deep_view();
            r.push(l);
            assert(r.deep_view() =~= before.push(l@));
            assert(lines_of(self@).take(i + 1) =~= lines_of(self@).take(i as int).push(l@));
            i += 1;
        }
        assert(lines_of(self@).take(self@.len() as int) =~= lines_of(self@));
        r
    }

    /// The records that describe the entries, in order.
    pub fn to_records(&self) -> (r: Vec<(String, Vec<(String, String)>)>)
        ensures
            r.deep_view() == encode_entries(self@),
    {
        let mut r: Vec<(String, Vec<(String, String)>)> = Vec::new();
        let mut i: usize = 0;
        while i < self.entries.len()
            invariant
                i <= self.entries@.len(),
                r.deep_view() =~= encode_entries(self@).take(i as int),
            decreases self.entries@.len() - i,
        {
            let u = &self.entries[i].1;
            let mut f: Vec<(String, String)> = vec![
                ("name".to_owned(), u.name.clone()),
                ("email".to_owned(), u.email.clone()),
            ];
            if let Some(k) = &u.signingkey {
                f.push(("signingkey".to_owned(), k.clone()));
            }
            assert(f.deep_view() =~= encode_user(u@));
            let a = self.entries[i].0.clone();
            let ghost before = r.deep_view();
            let ghost fv = f.deep_view();
            r.push((a, f));
            assert(r.deep_view() =~= before.push((a@, fv)));
            assert(encode_entries(self@).take(i + 1) =~= encode_entries(self@).take(i as int).push((a@, fv)));
            i += 1;
        }
        assert(encode_entries(self@).take(self@.len() as int) =~= encode_entries(self@));
        r
    }

    /// The configuration that records `t` describe: each record must name a
    /// profile, and no alias may repeat.
    pub fn from_records(t: &Vec<(String, Vec<(String, Option<String>)>)>) -> (r: Result<Config, ConfigError>)
        ensures
            match decode_entries(t.deep_view()) {
                Ok(s) => r matches Ok(c) && c.wf() && c@ == s,
                Err(a) => r matches Err(ConfigError::InvalidEntry(x)) && x@ == a,
            },
    {
        let ghost tv = t.deep_view();
        let mut c = Config::new();
        let mut i: usize = 0;
        assert(tv.take(0) =~= Seq::<(Seq<char>, Fields)>::empty());
        while i < t.len()
            invariant
                i <= t@.len(),
                tv == t.deep_view(),
                c.wf(),
                decode_entries(tv.take(i as int)) == Ok::<Entries, Seq<char>>(c@),
            decreases t@.len() - i,
        {
            assert(tv.take(i + 1).drop_last() =~= tv.take(i as int));
            assert(tv.take(i + 1).last() == tv[i as int]);
            let alias = &t[i].0;
            match decode_user_fields(&t[i].1) {
                None => {
                    proof { lemma_error_persists(tv, i + 1, tv.len() as int); }
                    assert(tv.take(tv.len() as int) =~= tv);
                    return Err(ConfigError::InvalidEntry(alias.clone()));
                },
                Some(u) => {
                    if c.contains_key(alias.as_str()) {
                        proof { lemma_error_persists(tv, i + 1, tv.len() as int); }
                        assert(tv.take(tv.len() as int) =~= tv);
                        return Err(ConfigError::InvalidEntry(alias.clone()));
                    }
                    c.insert(alias.clone(), u);
                },
            }
            i += 1;
        }
        assert(tv.take(tv.len() as int) =~= tv);
        Ok(c)
    }

    /// Deletes the entry of alias `a`; tells whether there was one.
    pub fn remove(&mut self, a: &str) -> (r: bool)
        requires
            old(self).wf(),
        ensures
            final(self).wf(),
            r == has_alias(old(self)@, a@),
            final(self)@ == remove_entry(old(self)@, a@),
    {
        match self.position(a) {
            Some(i) => {
                self.entries.remove(i);
                assert(self@ =~= old(self)@.remove(i as int));
                true
            },
            None => false,
        }
    }
}

/// The value of field `key` in `f`, the last one where it repeats.
fn find_field(f: &Vec<(String, Option<String>)>, key: &str) -> (r: Option<Option<String>>)
    ensures
        r.deep_view() == field(f.deep_view(), key@),
{
    let key = key.to_owned();
    let mut found: Option<Option<String>> = None;
    let mut i: usize = 0;
    while i < f.len()
        invariant
            i <= f@.len(),
            found.deep_view() == field(f.deep_view().take(i as int), key@),
        decreases f@.len() - i,
    {
        let ghost fv = f.deep_view();
        assert(fv.take(i + 1).drop_last() =~= fv.take(i as int));
        if f[i].0.eq(&key) {
            found = Some(match &f[i].1 {
                Some(v) => Some(v.clone()),
                None => None,
            });
        }
        i += 1;
    }
    assert(f.deep_view().take(f@.len() as int) =~= f.deep_view());
    found
}

/// The profile that record fields `f` describe, if any.
pub fn decode_user_fields(f: &Vec<(String, Option<String>)>) -> (r: Option<User>)
    ensures
        match r {
            Some(u) => decode_user(f.deep_view()) == Some(u@),
            None => decode_user(f.deep_view()) is None,
        },
{
    let name = find_field(f, "name");
    let email = find_field(f, "email");
    let key = find_field(f, "signingkey");
    match (name, email, key) {
        (Some(Some(n)), Some(Some(e)), None) => Some(User::new(n, e, None)),
        (Some(Some(n)), Some(Some(e)), Some(Some(k))) => Some(User::new(n, e, Some(k))),
        _ => None,
    }
}

/// The line that lists alias `a` with profile `u`.
pub fn entry_line(a: &String, u: &User) -> (r: String)
    ensures
        r@ == line_of(a@, u@),
{
    let mut s = a.clone();
    s.append(": ");
    s.append(u.name.as_str());
    s.append(" <");
    s.append(u.email.as_str());
    s.append(">");
    if let Some(k) = &u.signingkey {
        s.append(", GPG signing key: ");
        s.append(k.as_str());
    }
    s
}

/// Once a prefix of the records fails to decode, every longer one fails
/// with the same alias.
proof fn lemma_error_persists(t: Tables, i: int, j: int)
    requires
        0 <= i <= j <= t.len(),
        decode_entries(t.take(i)) is Err,
    ensures
        decode_entries(t.take(j)) == decode_entries(t.take(i)),
    decreases j - i,
{
    if j > i {
        lemma_error_persists(t, i, j - 1);
        assert(t.take(j).drop_last() =~= t.take(j - 1));
    }
}

/// Reads a configuration from the text of its TOML file.
pub fn parse(config_data: String) -> (r: Result<Config, ConfigError>)
    ensures
        nesting_depth(encode_utf8(config_data@)) > MAX_DEPTH ==> r matches Err(ConfigError::TooNested),
        nesting_depth(encode_utf8(config_data@)) <= MAX_DEPTH ==> match toml_tables(config_data@) {
            None => r matches Err(ConfigError::Syntax),
            Some(t) => match decode_entries(t) {
                Ok(s) => r matches Ok(c) && c.wf() && c@ == s,
                Err(a) => r matches Err(ConfigError::InvalidEntry(x)) && x@ == a,
            },
        },
{
    if measure_nesting(config_data.as_str()) > MAX_DEPTH {
        return Err(ConfigError::TooNested);
    }
    match read_tables(config_data.as_str()) {
        Ok(t) => Config::from_records(&t),
        Err(_) => Err(ConfigError::Syntax),
    }
}

/// The text of the TOML file that holds `config`.
pub fn serialize(config: &Config) -> (r: Result<String, ConfigError>)
    ensures
        match toml_text(encode_entries(config@)) {
            Some(text) => r matches Ok(x) && x@ == text,
            None => r matches Err(ConfigError::Unwritable),
        },
{
    match write_tables(config.to_records()) {
        Ok(text) => Ok(text),
        Err(_) => Err(ConfigError::Unwritable),
    }
}

/// Written fields as they read back: every field a string.
pub open spec fn read_fields(f: Seq<(Seq<char>, Seq<char>)>) -> Fields {
    Seq::new(f.len(), |j: int| (f[j].0, Some(f[j].1)))
}

/// The fields written for a profile, read back, decode to that profile.
pub proof fn lemma_user_round_trip(u: UserView)
    ensures
        decode_user(read_fields(encode_user(u))) == Some(u),
{
    let f = read_fields(encode_user(u));
    reveal_strlit("name");
    reveal_strlit("email");
    reveal_strlit("signingkey");
    reveal_with_fuel(field, 4);
    match u.signingkey {
        Some(k) => {
            assert(f =~= seq![("name"@, Some(u.name)), ("email"@, Some(u.email)), ("signingkey"@, Some(k))]);
            assert(f.drop_last() =~= seq![("name"@, Some(u.name)), ("email"@, Some(u.email))]);
            assert(f.drop_last().drop_last() =~= seq![("name"@, Some(u.name))]);
        },
        None => {
            assert(f =~= seq![("name"@, Some(u.name)), ("email"@, Some(u.email))]);
            assert(f.drop_last() =~= seq![("name"@, Some(u.name))]);
        },
    }
    assert("name"@.len() == 4 && "email"@.len() == 5 && "signingkey"@.len() == 10);
    assert(field(f, "name"@) == Some(Some(u.name)));
    assert(field(f, "email"@) == Some(Some(u.email)));
    assert(field(f, "signingkey"@) == match u.signingkey { Some(k) => Some(Some(k)), None => None::<Option<Seq<char>>> });
}

/// Decoded records keep the records' order and keys, one profile each.
pub proof fn lemma_decode_shape(t: Tables)
    requires
        decode_entries(t) is Ok,
    ensures
        decode_entries(t)->Ok_0.len() == t.len(),
        forall|i: int| 0 <= i < t.len() ==> (#[trigger] decode_entries(t)->Ok_0[i]).0 == t[i].0
            && decode_user(t[i].1) == Some(decode_entries(t)->Ok_0[i].1),
    decreases t.len(),
{
    if t.len() > 0 {
        lemma_decode_shape(t.drop_last());
    }
}

/// Records whose keys are distinct and which each describe a profile decode.
pub proof fn lemma_decode_ok(t: Tables)
    requires
        forall|i: int, j: int| 0 <= i < t.len() && 0 <= j < t.len() && i != j ==> #[trigger] t[i].0 != #[trigger] t[j].0,
        forall|i: int| 0 <= i < t.len() ==> (#[trigger] decode_user(t[i].1)) is Some,
    ensures
        decode_entries(t) is Ok,
    decreases t.len(),
{
    if t.len() > 0 {
        let p = t.drop_last();
        assert forall|i: int, j: int| 0 <= i < p.len() && 0 <= j < p.len() && i != j implies #[trigger] p[i].0 != #[trigger] p[j].0 by {
            assert(t[i].0 != t[j].0);
        }
        assert forall|i: int| 0 <= i < p.len() implies (#[trigger] decode_user(p[i].1)) is Some by {
            assert(decode_user(t[i].1) is Some);
        }
        lemma_decode_ok(p);
        lemma_decode_shape(p);
        let prev = decode_entries(p)->Ok_0;
        assert(decode_user(t[t.len() - 1].1) is Some);
        if has_alias(prev, t.last().0) {
            let i = choose|i: int| 0 <= i < prev.len() && #[trigger] prev[i].0 == t.last().0;
            assert(prev[i].0 == p[i].0);
            assert(t[i].0 != t[t.len() - 1].0);
        }
    }
}

/// The file round trip as a mapping, for any order the file format gives
/// the records back in: records with distinct keys that are exactly the
/// records written for a configuration, in some order, decode to a
/// configuration with the same profile under every alias.
pub proof fn lemma_records_round_trip_any_order(s: Entries, t: Tables, a: Seq<char>)
    requires
        unique_aliases(s),
        t.len() == s.len(),
        forall|i: int, j: int| 0 <= i < t.len() && 0 <= j < t.len() && i != j ==> #[trigger] t[i].0 != #[trigger] t[j].0,
        forall|i: int| 0 <= i < t.len() ==> as_read(encode_entries(s)).contains(#[trigger] t[i]),
        forall|j: int| 0 <= j < s.len() ==> t.contains(#[trigger] as_read(encode_entries(s))[j]),
    ensures
        decode_entries(t) is Ok,
        lookup(decode_entries(t)->Ok_0, a) == lookup(s, a),
{
    let w = as_read(encode_entries(s));
    assert forall|i: int| 0 <= i < t.len() implies (#[trigger] decode_user(t[i].1)) is Some by {
        assert(w.contains(t[i]));
        let j = choose|j: int| 0 <= j < w.len() && w[j] == t[i];
        lemma_user_round_trip(s[j].1);
        assert(w[j].1 =~= read_fields(encode_user(s[j].1)));
    }
    lemma_decode_ok(t);
    lemma_decode_shape(t);
    let d = decode_entries(t)->Ok_0;
    if has_alias(d, a) {
        let i = choose|i: int| 0 <= i < d.len() && #[trigger] d[i].0 == a;
        assert(w.contains(t[i]));
        let j = choose|j: int| 0 <= j < w.len() && w[j] == t[i];
        lemma_user_round_trip(s[j].1);
        assert(w[j].1 =~= read_fields(encode_user(s[j].1)));
        assert(s[j].0 == a);
        let k = index_of(s, a);
        assert(s[k].0 == a);
        assert(k == j);
        let m = index_of(d, a);
        assert(d[m].0 == a);
        assert(t[m].0 == t[i].0);
        assert(m == i);
    } else if has_alias(s, a) {
        let j = choose|j: int| 0 <= j < s.len() && #[trigger] s[j].0 == a;
        assert(t.contains(w[j]));
        let i = choose|i: int| 0 <= i < t.len() && t[i] == w[j];
        assert(d[i].0 == a);
    }
}

/// The library's half of the file round trip, with records kept in the
/// order written: they decode to that same configuration, entry for entry.
/// `lemma_records_round_trip_any_order` states it for any order.
pub proof fn lemma_records_round_trip(s: Entries)
    requires
        unique_aliases(s),
    ensures
        decode_entries(as_read(encode_entries(s))) == Ok::<Entries, Seq<char>>(s),
    decreases s.len(),
{
    if s.len() > 0 {
        let p = s.drop_last();
        assert(unique_aliases(p));
        lemma_records_round_trip(p);
        let t = as_read(encode_entries(s));
        assert(t.drop_last() =~= as_read(encode_entries(p)));
        let (a, u) = s.last();
        lemma_user_round_trip(u);
        assert(t.last().1 =~= read_fields(encode_user(u)));
        if has_alias(p, a) {
            let i = choose|i: int| 0 <= i < p.len() && #[trigger] p[i].0 == a;
            assert(s[i].0 == s[s.len() - 1].0);
        }
        assert(!has_alias(p, a));
        assert(t.last().0 == a);
        assert(p.push((a, u)) =~= s);
    } else {
        assert(s =~= Seq::<(Seq<char>, UserView)>::empty());
    }
}

/// The aliases of decoded records are exactly the records' keys.
pub proof fn lemma_decoded_aliases(t: Tables, a: Seq<char>)
    requires
        decode_entries(t) is Ok,
    ensures
        has_alias(decode_entries(t)->Ok_0, a) <==> exists|i: int| 0 <= i < t.len() && #[trigger] t[i].0 == a,
    decreases t.len(),
{
    if t.len() > 0 {
        let p = t.drop_last();
        lemma_decoded_aliases(p, a);
        let prev = decode_entries(p)->Ok_0;
        let s = decode_entries(t)->Ok_0;
        assert(s == prev.push((t.last().0, s.last().1)));
        if has_alias(s, a) {
            let j = choose|j: int| 0 <= j < s.len() && #[trigger] s[j].0 == a;
            if j < prev.len() {
                assert(prev[j].0 == a);
                let i = choose|i: int| 0 <= i < p.len() && #[trigger] p[i].0 == a;
                assert(t[i].0 == a);
            } else {
                assert(t[t.len() - 1].0 == a);
            }
        }
        if exists|i: int| 0 <= i < t.len() && #[trigger] t[i].0 == a {
            let i = choose|i: int| 0 <= i < t.len() && #[trigger] t[i].0 == a;
            if i < p.len() {
                assert(p[i].0 == a);
                let j = choose|j: int| 0 <= j < prev.len() && #[trigger] prev[j].0 == a;
                assert(s[j].0 == a);
            } else {
                assert(s[s.len() - 1].0 == a);
            }
        }
    }
}

/// An alias that is no key of the records read from a configuration file
/// names no profile of the configuration decoded from them. By `execute`,
/// `modify` or `remove` of such an alias then changes nothing and asks for
/// no save, so the file keeps its bytes.
pub proof fn lemma_absent_alias_not_decoded(t: Tables, a: Seq<char>)
    requires
        decode_entries(t) is Ok,
        forall|i: int| 0 <= i < t.len() ==> #[trigger] t[i].0 != a,
    ensures
        lookup(decode_entries(t)->Ok_0, a) is None,
{
    lemma_decoded_aliases(t, a);
}

} // verus!
