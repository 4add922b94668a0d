use vstd::prelude::*;

verus! {

/// What a profile holds, as mathematical values.
pub struct UserView {
    pub name: Seq<char>,
    pub email: Seq<char>,
    pub signingkey: Option<Seq<char>>,
}

/// An identity profile: display name, email and an optional signing key.
#[derive(Clone, Debug)]
pub struct User {
    pub name: String,
    pub email: String,
    pub signingkey: Option<String>,
}

impl View for User {
    type V = UserView;

    open spec fn view(&self) -> UserView {
        UserView {
            name: self.name@,
            email: self.email@,
            signingkey: match self.signingkey {
                Some(k) => Some(k@),
                None => None,
            },
        }
    }
}

/// `o`'s text where it is present, else `keep`.
pub open spec fn replaced(keep: Seq<char>, o: Option<Seq<char>>) -> Seq<char> {
    match o {
        Some(v) => v,
        None => keep,
    }
}

/// Views an optional string.
pub open spec fn opt_view(o: Option<String>) -> Option<Seq<char>> {
    match o {
        Some(s) => Some(s@),
        None => None,
    }
}

/// The three git settings that select profile `u`, each as its argument
/// tokens: name, email, then the signing key or its removal.
pub open spec fn directives(u: UserView) -> Seq<Seq<Seq<char>>> {
    seq![
        seq!["user.name"@, u.name],
        seq!["user.email"@, u.email],
        match u.signingkey {
            Some(k) => seq!["user.signingkey"@, k],
            None => seq!["--unset"@, "user.signingkey"@],
        },
    ]
}

fn copy_str(s: &str) -> (r: String)
    ensures
        r@ == s@,
{
    s.to_owned()
}

impl User {
    pub fn new(name: String, email: String, signingkey: Option<String>) -> (r: User)
        ensures
            r@ == (UserView { name: name@, email: email@, signingkey: opt_view(signingkey) }),
    {
        User { name, email, signingkey }
    }

    /// A copy of this profile.
    pub fn clone_user(&self) -> (r: User)
        ensures
            r@ == self@,
    {
        User {
            name: self.name.clone(),
            email: self.email.clone(),
            signingkey: match &self.signingkey {
                Some(k) => Some(k.clone()),
                None => None,
            },
        }
    }

    /// Overwrites the name and the email where a replacement is given. The
    /// signing key has three states: `None` leaves it as it is, `Some(None)`
    /// clears it, and `Some(Some(k))` sets it to `k`. The asymmetry is
    /// deliberate: a name and an email are never absent, while a key must
    /// be clearable.
    pub fn change(&mut self, name: Option<String>, email: Option<String>, signingkey: Option<Option<String>>)
        ensures
            final(self)@.name == replaced(old(self)@.name, opt_view(name)),
            final(self)@.email == replaced(old(self)@.email, opt_view(email)),
            final(self)@.signingkey == (match signingkey {
                Some(k) => opt_view(k),
                None => old(self)@.signingkey,
            }),
    {
        if let Some(name) = name {
            self.name = name;
        }
        if let Some(email) = email {
            self.email = email;
        }
        if let Some(k) = signingkey {
            self.signingkey = k;
        }
    }

    /// The git configuration settings for this profile, in the order in
    /// which they are applied.
    pub fn to_cmd(&self) -> (r: Vec<Vec<String>>)
        ensures
            r.deep_view() == directives(self@),
    {
        let last = match &self.signingkey {
            Some(k) => vec![copy_str("user.signingkey"), k.clone()],
            None => vec![copy_str("--unset"), copy_str("user.signingkey")],
        };
        let r = vec![
            vec![copy_str("user.name"), self.name.clone()],
            vec![copy_str("user.email"), self.email.clone()],
            last,
        ];
        assert(r.deep_view() =~~= directives(self@));
        r
    }
}

} // verus!
