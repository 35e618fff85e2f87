//! Token resolution: mapping a token to its effective string value against
//! an explicit environment, so that expansion reflects the environment at
//! the point of use and needs no process-global state.

use crate::lexer::{Token, TokenModel};
use vstd::prelude::*;
use vstd::string::{StrSliceExecFns, StringExecFns};

verus! {

/// The character sequences of a sequence of strings.
pub open spec fn strings_of(v: Seq<String>) -> Seq<Seq<char>> {
    v.map_values(|s: String| s@)
}

/// Compare two string slices by content.
pub fn str_eq(a: &str, b: &str) -> (r: bool)
    ensures
        r == (a@ == b@),
{
    let la = a.unicode_len();
    let lb = b.unicode_len();
    if la != lb {
        return false;
    }
    let mut i: usize = 0;
    while i < la
        invariant
            i <= la,
            la == a@.len(),
            lb == b@.len(),
            la == lb,
            forall|j: int| 0 <= j < i ==> a@[j] == b@[j],
        decreases la - i,
    {
        if a.get_char(i) != b.get_char(i) {
            return false;
        }
        i = i + 1;
    }
    proof {
        assert(a@ =~= b@);
    }
    true
}

/// An explicit environment: name-to-value bindings, later bindings first.
/// Passing it into resolution keeps the core deterministic and testable.
pub struct Env {
    entries: Vec<(String, String)>,
}

/// The value bound to `name`, taking the earliest entry when a name is
/// bound more than once; `None` when the name is not bound at all.
pub open spec fn spec_lookup(entries: Seq<(Seq<char>, Seq<char>)>, name: Seq<char>) -> Option<
    Seq<char>,
>
    decreases entries.len(),
{
    if entries.len() == 0 {
        None
    } else if entries[0].0 == name {
        Some(entries[0].1)
    } else {
        spec_lookup(entries.subrange(1, entries.len() as int), name)
    }
}

impl View for Env {
    type V = Seq<(Seq<char>, Seq<char>)>;

    closed spec fn view(&self) -> Seq<(Seq<char>, Seq<char>)> {
        self.entries@.map_values(|e: (String, String)| (e.0@, e.1@))
    }
}

impl Env {
    /// An environment with no bindings.
    pub fn new() -> (r: Env)
        ensures
            r@ == Seq::<(Seq<char>, Seq<char>)>::empty(),
    {
        let r = Env { entries: Vec::new() };
        proof {
            assert(r@ =~= Seq::<(Seq<char>, Seq<char>)>::empty());
        }
        r
    }

    /// Bind `name` to `value`. The new binding stands first, so it wins any
    /// later lookup of the same name.
    pub fn set(&mut self, name: String, value: String)
        ensures
            final(self)@ == seq![(name@, value@)] + old(self)@,
            spec_lookup(final(self)@, name@) == Some(value@),
    {
        let ghost pre = self@;
        self.entries.insert(0, (name, value));
        proof {
            assert(self@ =~= seq![(name@, value@)] + pre);
            assert(self@.subrange(1, self@.len() as int) =~= pre);
        }
    }

    /// Look the name up; `None` when it is not bound.
    pub fn get(&self, name: &str) -> (r: Option<&String>)
        ensures
            match r {
                Some(v) => spec_lookup(self@, name@) == Some(v@),
                None => spec_lookup(self@, name@) is None,
            },
    {
        let mut i: usize = 0;
        proof {
            assert(self@.subrange(0, self@.len() as int) =~= self@);
        }
        while i < self.entries.len()
            invariant
                i <= self.entries.len(),
                self@.len() == self.entries@.len(),
                forall|j: int| 0 <= j < self@.len() ==> self@[j] == (
                self.entries@[j].0@,
                self.entries@[j].1@,
                ),
                spec_lookup(self@, name@) == spec_lookup(
                    self@.subrange(i as int, self@.len() as int),
                    name@,
                ),
            decreases self.entries.len() - i,
        {
            let ghost rest = self@.subrange(i as int, self@.len() as int);
            if str_eq(self.entries[i].0.as_str(), name) {
                proof {
                    assert(rest[0] == (self.entries@[i as int].0@, self.entries@[i as int].1@));
                }
                return Some(&self.entries[i].1);
            }
            proof {
                assert(rest[0] == (self.entries@[i as int].0@, self.entries@[i as int].1@));
                assert(rest.subrange(1, rest.len() as int) =~= self@.subrange(
                    i + 1,
                    self@.len() as int,
                ));
            }
            i = i + 1;
        }
        proof {
            assert(self@.subrange(i as int, self@.len() as int) =~= Seq::<(
                Seq<char>,
                Seq<char>,
            )>::empty());
        }
        None
    }
}

/// The effective string value of a token: the literal characters of a word
/// or a quoted string; for a variable reference, the environment's value,
/// or the empty string when the name is unbound.
pub open spec fn spec_resolve(t: TokenModel, env: Seq<(Seq<char>, Seq<char>)>) -> Seq<char> {
    match t {
        TokenModel::Word(s) => s,
        TokenModel::Str(s) => s,
        TokenModel::Var(n) => match spec_lookup(env, n) {
            Some(v) => v,
            None => Seq::empty(),
        },
    }
}

impl<'a> Token<'a> {
    /// Resolve this token against `env` at the point of use.
    pub fn as_str(&self, env: &Env) -> (r: String)
        ensures
            r@ == spec_resolve(self@, env@),
    {
        match *self {
            Token::Word(s) => s.to_owned(),
            Token::Str(s) => s.to_owned(),
            Token::Var(name) => match env.get(name) {
                Some(v) => v.clone(),
                None => String::new(),
            },
        }
    }
}

} // verus!
