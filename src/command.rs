use vstd::prelude::*;
use crate::user::{User, UserView, directives, opt_view, replaced};
use crate::config::{Config, Entries, has_alias, index_of, lookup, insert_entry, remove_entry, lines_of, unique_aliases};
use vstd::string::StringExecFns;

verus! {

/// One operation of the command line.
#[derive(Clone, Debug)]
pub enum Command {
    /// Stores a profile under an alias, replacing any that was there.
    New { alias: String, name: String, email: String, signingkey: Option<String> },
    /// Overwrites the given fields of an existing profile; the signing key
    /// is left (`None`), cleared (`Some(None)`) or set (`Some(Some(k))`).
    Modify { alias: String, name: Option<String>, email: Option<String>, signingkey: Option<Option<String>> },
    /// Shows every profile.
    List,
    /// Deletes a profile.
    Remove { alias: String },
    /// Applies a profile to the current repository's git configuration.
    Local { alias: String },
    /// Applies a profile to the user's global git configuration.
    Global { alias: String },
    /// Shows the usage text.
    Help,
}

/// What running a command leaves to be done: the configuration after it,
/// whether the file must be rewritten, the lines to print, the argument
/// lists of the git invocations to run in order, and whether to show usage.
#[derive(Debug)]
pub struct Outcome {
    pub config: Config,
    pub save: bool,
    pub output: Vec<String>,
    pub git_calls: Vec<Vec<String>>,
    pub help: bool,
}

/// The message for an alias that names no profile.
pub open spec fn missing_line(a: Seq<char>) -> Seq<char> {
    a + " doesn't exist"@
}

/// Profile `u` after `change` with the given replacements.
pub open spec fn changed(u: UserView, name: Option<Seq<char>>, email: Option<Seq<char>>, key: Option<Option<Seq<char>>>) -> UserView {
    UserView {
        name: replaced(u.name, name),
        email: replaced(u.email, email),
        signingkey: match key {
            Some(k) => k,
            None => u.signingkey,
        },
    }
}

/// Views a signing-key replacement of three states.
pub open spec fn key_view(k: Option<Option<String>>) -> Option<Option<Seq<char>>> {
    match k {
        Some(k) => Some(opt_view(k)),
        None => None,
    }
}

/// The arguments that go before each setting: `config`, then `--global`
/// in the global scope.
pub open spec fn scope_prefix(global: bool) -> Seq<Seq<char>> {
    if global {
        seq!["config"@, "--global"@]
    } else {
        seq!["config"@]
    }
}

/// The argument lists of the git invocations that apply profile `u`.
pub open spec fn git_args(u: UserView, global: bool) -> Seq<Seq<Seq<char>>> {
    directives(u).map_values(|d: Seq<Seq<char>>| scope_prefix(global) + d)
}

/// The argument lists for git that apply `user` in the chosen scope, one
/// invocation per setting of `to_cmd`.
pub fn git_config_args(user: &User, global: bool) -> (r: Vec<Vec<String>>)
    ensures
        r.deep_view() == git_args(user@, global),
{
    let cmds = user.to_cmd();
    let mut r: Vec<Vec<String>> = Vec::new();
    let mut i: usize = 0;
    while i < cmds.len()
        invariant
            i <= cmds@.len(),
            cmds.deep_view() == directives(user@),
            r.deep_view() =~= git_args(user@, global).take(i as int),
        decreases cmds@.len() - i,
    {
        let mut args: Vec<String> = vec!["config".to_owned()];
        if global {
            args.push("--global".to_owned());
        }
        let mut j: usize = 0;
        let ghost start = args.deep_view();
        assert(start =~= scope_prefix(global));
        while j < cmds[i].len()
            invariant
                i < cmds@.len(),
                j <= cmds@[i as int]@.len(),
                args.deep_view() =~= start + cmds.deep_view()[i as int].take(j as int),
            decreases cmds@[i as int]@.len() - j,
        {
            let x = cmds[i][j].clone();
            let ghost before = args.deep_view();
            args.push(x);
            assert(args.deep_view() =~= before.push(x@));
            assert(cmds.deep_view()[i as int].take(j + 1) =~= cmds.deep_view()[i as int].take(j as int).push(x@));
            j += 1;
        }
        assert(cmds.deep_view()[i as int].take(j as int) =~= cmds.deep_view()[i as int]);
        let ghost before = r.deep_view();
        let ghost av = args.deep_view();
        r.push(args);
        assert(r.deep_view() =~= before.push(av));
        assert(git_args(user@, global).take(i + 1) =~= git_args(user@, global).take(i as int).push(av));
        i += 1;
    }
    assert(git_args(user@, global).take(3) =~= git_args(user@, global));
    r
}

fn missing(a: &String) -> (r: Vec<String>)
    ensures
        r.deep_view() == seq![missing_line(a@)],
{
    let mut m = a.clone();
    m.append(" doesn't exist");
    let r = vec![m];
    assert(r.deep_view() =~= seq![missing_line(a@)]);
    r
}

fn done(config: Config, save: bool, output: Vec<String>) -> (r: Outcome)
    ensures
        r.config == config,
        r.save == save,
        r.output == output,
        r.git_calls@.len() == 0,
        !r.help,
{
    Outcome { config, save, output, git_calls: Vec::new(), help: false }
}

/// Runs one command on `config`. Only `new`, and `modify` or `remove` of an
/// existing alias, change the configuration and ask for it to be saved; an
/// alias that names no profile gives its message and changes nothing.
pub fn execute(config: Config, command: Command) -> (r: Outcome)
    requires
        config.wf(),
    ensures
        r.config.wf(),
        match command {
            Command::New { alias, name, email, signingkey } => {
                &&& r.config@ == insert_entry(config@, alias@, UserView { name: name@, email: email@, signingkey: opt_view(signingkey) })
                &&& r.save
                &&& r.output@.len() == 0
                &&& r.git_calls@.len() == 0
                &&& !r.help
            },
            Command::Modify { alias, name, email, signingkey } => {
                &&& r.git_calls@.len() == 0
                &&& !r.help
                &&& match lookup(config@, alias@) {
                    Some(u) => {
                        &&& r.config@ == insert_entry(config@, alias@, changed(u, opt_view(name), opt_view(email), key_view(signingkey)))
                        &&& r.save
                        &&& r.output@.len() == 0
                    },
                    None => {
                        &&& r.config@ == config@
                        &&& !r.save
                        &&& r.output.deep_view() == seq![missing_line(alias@)]
                    },
                }
            },
            Command::List => {
                &&& r.config@ == config@
                &&& !r.save
                &&& r.output.deep_view() == lines_of(config@)
                &&& r.git_calls@.len() == 0
                &&& !r.help
            },
            Command::Remove { alias } => {
                &&& r.config@ == remove_entry(config@, alias@)
                &&& r.save == has_alias(config@, alias@)
                &&& r.output.deep_view() == (if has_alias(config@, alias@) { Seq::empty() } else { seq![missing_line(alias@)] })
                &&& r.git_calls@.len() == 0
                &&& !r.help
            },
            Command::Local { alias } => applied(config@, alias@, false, r),
            Command::Global { alias } => applied(config@, alias@, true, r),
            Command::Help => {
                &&& r.config@ == config@
                &&& !r.save
                &&& r.output@.len() == 0
                &&& r.git_calls@.len() == 0
                &&& r.help
            },
        },
{
    match command {
        Command::New { alias, name, email, signingkey } => {
            let mut c = config;
            c.insert(alias, User::new(name, email, signingkey));
            done(c, true, Vec::new())
        },
        Command::Modify { alias, name, email, signingkey } => {
            let found = match config.get(alias.as_str()) {
                Some(u) => Some(u.clone_user()),
                None => None,
            };
            match found {
                Some(mut u) => {
                    u.change(name, email, signingkey);
                    let mut c = config;
                    c.insert(alias, u);
                    done(c, true, Vec::new())
                },
                None => {
                    let m = missing(&alias);
                    done(config, false, m)
                },
            }
        },
        Command::List => {
            let lines = config.list();
            done(config, false, lines)
        },
        Command::Remove { alias } => {
            let mut c = config;
            if c.remove(alias.as_str()) {
                done(c, true, Vec::new())
            } else {
                let m = missing(&alias);
                done(c, false, m)
            }
        },
        Command::Local { alias } => apply(config, &alias, false),
        Command::Global { alias } => apply(config, &alias, true),
        Command::Help => Outcome { config, save: false, output: Vec::new(), git_calls: Vec::new(), help: true },
    }
}

/// The outcome of applying alias `a` in a scope: the git invocations of its
/// profile, or its message where it names none; nothing is saved.
pub open spec fn applied(s: Entries, a: Seq<char>, global: bool, r: Outcome) -> bool {
    &&& r.config@ == s
    &&& !r.save
    &&& !r.help
    &&& match lookup(s, a) {
        Some(u) => r.git_calls.deep_view() == git_args(u, global) && r.output@.len() == 0,
        None => r.git_calls@.len() == 0 && r.output.deep_view() == seq![missing_line(a)],
    }
}

fn apply(config: Config, a: &String, global: bool) -> (r: Outcome)
    requires
        config.wf(),
    ensures
        r.config.wf(),
        applied(config@, a@, global, r),
{
    let calls = match config.get(a.as_str()) {
        Some(u) => Some(git_config_args(u, global)),
        None => None,
    };
    match calls {
        Some(git_calls) => Outcome { config, save: false, output: Vec::new(), git_calls, help: false },
        None => {
            let m = missing(a);
            done(config, false, m)
        },
    }
}

/// Storing `u` under `a` keeps aliases unique, and `a` then names `u`.
pub proof fn lemma_insert_then_lookup(s: Entries, a: Seq<char>, u: UserView)
    requires
        unique_aliases(s),
    ensures
        unique_aliases(insert_entry(s, a, u)),
        has_alias(insert_entry(s, a, u), a),
        insert_entry(s, a, u)[index_of(insert_entry(s, a, u), a)] == (a, u),
        lookup(insert_entry(s, a, u), a) == Some(u),
{
    let t = insert_entry(s, a, u);
    if has_alias(s, a) {
        let k = index_of(s, a);
        assert(t[k].0 == a);
    } else {
        assert(t[s.len() as int].0 == a);
    }
    assert(unique_aliases(t));
    let j = index_of(t, a);
    assert(t[j].0 == a);
    if has_alias(s, a) {
        let k = index_of(s, a);
        assert(t[k].0 == t[j].0);
    } else {
        assert(t[s.len() as int].0 == t[j].0);
    }
}

/// After `new` stores alias `a` with name `n`, email `e` and no signing key,
/// the listing's line for `a` reads `a: n <e>`, and no other line is for `a`.
pub proof fn lemma_list_after_new_without_key(s: Entries, a: Seq<char>, n: Seq<char>, e: Seq<char>)
    requires
        unique_aliases(s),
    ensures
        ({
            let t = insert_entry(s, a, UserView { name: n, email: e, signingkey: None });
            &&& has_alias(t, a)
            &&& lines_of(t)[index_of(t, a)] == a + ": "@ + n + " <"@ + e + ">"@
            &&& forall|i: int| 0 <= i < t.len() && i != index_of(t, a) ==> t[i].0 != a
        }),
{
    let u = UserView { name: n, email: e, signingkey: None };
    lemma_insert_then_lookup(s, a, u);
    let t = insert_entry(s, a, u);
    assert(a + ": "@ + n + " <"@ + e + ">"@ + Seq::<char>::empty() =~= a + ": "@ + n + " <"@ + e + ">"@);
}

/// After `new` stores alias `a` with name `n`, email `e` and signing key `k`,
/// the listing's line for `a` reads `a: n <e>` followed by the one suffix
/// `, GPG signing key: k`, and no other line is for `a`.
pub proof fn lemma_list_after_new_with_key(s: Entries, a: Seq<char>, n: Seq<char>, e: Seq<char>, k: Seq<char>)
    requires
        unique_aliases(s),
    ensures
        ({
            let t = insert_entry(s, a, UserView { name: n, email: e, signingkey: Some(k) });
            &&& has_alias(t, a)
            &&& lines_of(t)[index_of(t, a)] == a + ": "@ + n + " <"@ + e + ">"@ + ", GPG signing key: "@ + k
            &&& forall|i: int| 0 <= i < t.len() && i != index_of(t, a) ==> t[i].0 != a
        }),
{
    lemma_insert_then_lookup(s, a, UserView { name: n, email: e, signingkey: Some(k) });
}

/// Modifying only the email of an existing alias `a` gives it email `e` and
/// keeps its name and signing key; every other entry stays as it was.
pub proof fn lemma_modify_email_only(s: Entries, a: Seq<char>, e: Seq<char>)
    requires
        unique_aliases(s),
        has_alias(s, a),
    ensures
        ({
            let u = s[index_of(s, a)].1;
            let t = insert_entry(s, a, changed(u, None, Some(e), None));
            &&& lookup(t, a) == Some(UserView { name: u.name, email: e, signingkey: u.signingkey })
            &&& t.len() == s.len()
            &&& forall|i: int| 0 <= i < s.len() && i != index_of(s, a) ==> t[i] == s[i]
        }),
{
    let u = s[index_of(s, a)].1;
    lemma_insert_then_lookup(s, a, changed(u, None, Some(e), None));
}

} // verus!
