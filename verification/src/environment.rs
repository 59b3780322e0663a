//! The scope stack: which names are bound, and to what.
use vstd::prelude::*;
use vstd::hash_map::StringHashMap;
use crate::error::{undefined_variable_message, Error};
use crate::token::Token;
use crate::value::{LoxValue, Value};

verus! {

/// One scope: the names it binds and their values.
pub type Frame = Map<Seq<char>, Value>;

/// A stack of scopes, the outermost first.
pub type Scopes = Seq<Frame>;

/// The index of the innermost scope that binds `name`, or -1 if none does.
pub open spec fn innermost(scopes: Scopes, name: Seq<char>) -> int
    decreases scopes.len(),
{
    if scopes.len() == 0 {
        -1
    } else if scopes.last().contains_key(name) {
        scopes.len() - 1
    } else {
        innermost(scopes.drop_last(), name)
    }
}

/// Whether some scope binds `name`.
pub open spec fn bound(scopes: Scopes, name: Seq<char>) -> bool {
    innermost(scopes, name) >= 0
}

/// The value that `name` resolves to: the one in the innermost scope that
/// binds it.
pub open spec fn lookup(scopes: Scopes, name: Seq<char>) -> Option<Value> {
    let i = innermost(scopes, name);
    if i >= 0 {
        Some(scopes[i][name])
    } else {
        None
    }
}

/// The scopes after `name` is declared in the innermost one.
pub open spec fn define(scopes: Scopes, name: Seq<char>, value: Value) -> Scopes {
    scopes.update(scopes.len() - 1, scopes.last().insert(name, value))
}

/// The scopes after `name` is overwritten where it resolves. Unchanged if no
/// scope binds it.
pub open spec fn assign(scopes: Scopes, name: Seq<char>, value: Value) -> Scopes {
    let i = innermost(scopes, name);
    if i >= 0 {
        scopes.update(i, scopes[i].insert(name, value))
    } else {
        scopes
    }
}

/// The innermost binding scope is the one that binds the name while no scope
/// inside it does; no scope at all is the innermost where none binds it.
pub proof fn lemma_innermost(scopes: Scopes, name: Seq<char>, i: int)
    requires
        -1 <= i < scopes.len(),
        i >= 0 ==> scopes[i].contains_key(name),
        forall|j: int| i < j < scopes.len() ==> !(#[trigger] scopes[j]).contains_key(name),
    ensures
        innermost(scopes, name) == i,
    decreases scopes.len(),
{
    if scopes.len() > 0 && !scopes.last().contains_key(name) {
        let rest = scopes.drop_last();
        assert forall|j: int| i < j < rest.len() implies !(#[trigger] rest[j]).contains_key(
            name,
        ) by {
            assert(rest[j] == scopes[j]);
        }
        lemma_innermost(rest, name, i);
    }
}

/// What a frame of the environment stands for.
pub open spec fn frame_view(frame: Map<Seq<char>, LoxValue>) -> Frame {
    frame.map_values(|v: LoxValue| v@)
}

proof fn lemma_frame_view_empty()
    ensures
        frame_view(Map::<Seq<char>, LoxValue>::empty()) == Map::<Seq<char>, Value>::empty(),
{
    assert(frame_view(Map::<Seq<char>, LoxValue>::empty()) =~= Map::<Seq<char>, Value>::empty());
}

proof fn lemma_frame_view_insert(frame: Map<Seq<char>, LoxValue>, name: Seq<char>, value: LoxValue)
    ensures
        frame_view(frame.insert(name, value)) == frame_view(frame).insert(name, value@),
{
    assert(frame_view(frame.insert(name, value)) =~= frame_view(frame).insert(name, value@));
}

/// The environment: a stack of scopes, of which the first lives as long as
/// the environment does.
pub struct Environment {
    frames: Vec<StringHashMap<LoxValue>>,
}

impl View for Environment {
    type V = Scopes;

    closed spec fn view(&self) -> Scopes {
        Seq::new(self.frames@.len(), |i: int| frame_view(self.frames@[i]@))
    }
}

impl Environment {
    /// An environment of one empty scope.
    pub fn new() -> (env: Environment)
        ensures
            env@ == seq![Map::<Seq<char>, Value>::empty()],
    {
        let mut frames: Vec<StringHashMap<LoxValue>> = Vec::new();
        frames.push(StringHashMap::new());
        let env = Environment { frames };
        proof {
            lemma_frame_view_empty();
        }
        assert(env@ =~= seq![Map::<Seq<char>, Value>::empty()]);
        env
    }

    /// How many scopes are open.
    pub fn depth(&self) -> (depth: usize)
        ensures
            depth == self@.len(),
    {
        self.frames.len()
    }

    /// Declares `name` in the innermost scope, over any binding it has there.
    pub fn define(&mut self, name: &str, value: LoxValue)
        requires
            old(self)@.len() > 0,
        ensures
            final(self)@ == define(old(self)@, name@, value@),
            final(self)@.len() == old(self)@.len(),
    {
        let last = self.frames.len() - 1;
        self.frames[last].insert(name.to_owned(), value);
        proof {
            lemma_frame_view_insert(old(self).frames@[last as int]@, name@, value);
        }
        assert(self@ =~= define(old(self)@, name@, value@));
    }

    /// The value that the token's name resolves to, or an error attributed to
    /// the token if no scope binds the name.
    pub fn get(&self, token: &Token) -> (result: Result<LoxValue, Error>)
        ensures
            match lookup(self@, token.name()) {
                Some(value) => result matches Ok(got) && got@ == value,
                None => result matches Err(error) && error.is_runtime(
                    *token,
                    undefined_variable_message(),
                ),
            },
    {
        let mut i = self.frames.len();
        while i > 0
            invariant
                i <= self.frames.len(),
                forall|j: int|
                    i <= j < self@.len() ==> !(#[trigger] self@[j]).contains_key(token.name()),
            decreases i,
        {
            i -= 1;
            match self.frames[i].get(token.lexeme.as_str()) {
                Some(value) => {
                    proof {
                        lemma_innermost(self@, token.name(), i as int);
                    }
                    return Ok(value.clone());
                },
                None => {},
            }
        }
        proof {
            lemma_innermost(self@, token.name(), -1);
        }
        Err(Error::runtime(token, "undefined variable"))
    }

    /// Overwrites the token's name where it resolves, or fails with an error
    /// attributed to the token if no scope binds the name. Never creates a
    /// binding.
    pub fn assign(&mut self, token: &Token, value: LoxValue) -> (result: Result<(), Error>)
        ensures
            final(self)@ == assign(old(self)@, token.name(), value@),
            final(self)@.len() == old(self)@.len(),
            bound(old(self)@, token.name()) ==> result is Ok,
            !bound(old(self)@, token.name()) ==> (result matches Err(error) && error.is_runtime(
                *token,
                undefined_variable_message(),
            )),
    {
        let mut i = self.frames.len();
        while i > 0
            invariant
                i <= self.frames.len(),
                *self == *old(self),
                forall|j: int|
                    i <= j < self@.len() ==> !(#[trigger] self@[j]).contains_key(token.name()),
            decreases i,
        {
            i -= 1;
            if self.frames[i].contains_key(token.lexeme.as_str()) {
                proof {
                    lemma_innermost(self@, token.name(), i as int);
                    lemma_frame_view_insert(self.frames@[i as int]@, token.name(), value);
                }
                self.frames[i].insert(token.lexeme.clone(), value);
                assert(self@ =~= assign(old(self)@, token.name(), value@));
                return Ok(());
            }
        }
        proof {
            lemma_innermost(self@, token.name(), -1);
        }
        Err(Error::runtime(token, "undefined variable"))
    }

    /// Opens a scope.
    pub fn push_scope(&mut self)
        ensures
            final(self)@ == old(self)@.push(Map::<Seq<char>, Value>::empty()),
    {
        self.frames.push(StringHashMap::new());
        proof {
            lemma_frame_view_empty();
        }
        assert(self@ =~= old(self)@.push(Map::<Seq<char>, Value>::empty()));
    }

    /// Closes the innermost scope.
    pub fn pop_scope(&mut self)
        requires
            old(self)@.len() > 1,
        ensures
            final(self)@ == old(self)@.drop_last(),
    {
        self.frames.pop();
        assert(self@ =~= old(self)@.drop_last());
    }
}

} // verus!
