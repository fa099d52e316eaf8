//! What an expression is evaluated in: variables, functions, and the host's answers.

use crate::env;
use crate::env::{Env, EnvModel};
use crate::error::{CallSite, ExecutionError, HostRequest, HostTable, Outcome, Req, Site};
use crate::error;
use crate::objects::{Val, Value};
use crate::strings;
use vstd::prelude::*;
use vstd::string::*;

verus! {

/// A scope. A child scope sees what its parent has, and hides with its own variables those
/// of the same name.
#[derive(Debug)]
pub enum Context<'a> {
    Root {
        variables: Vec<(String, Value)>,
        /// The names of the functions that the host computes.
        functions: Vec<String>,
        env: Env,
        host: HostTable,
    },
    Child {
        parent: &'a Context<'a>,
        variables: Vec<(String, Value)>,
        /// The round of a loop that the scope is for.
        round: Option<usize>,
    },
}

/// What a [`Context`] stands for.
pub struct Scope {
    pub vars: Map<Seq<char>, Val>,
    pub functions: Seq<Seq<char>>,
    pub env: EnvModel,
    pub host: Seq<(Req, Outcome)>,
    pub rounds: Seq<usize>,
}

/// Variables added one after the other to those that are there.
pub open spec fn with_vars(base: Map<Seq<char>, Val>, s: Seq<(String, Value)>) -> Map<
    Seq<char>,
    Val,
>
    decreases s.len(),
{
    if s.len() == 0 {
        base
    } else {
        with_vars(base, s.drop_last()).insert(s.last().0@, s.last().1@)
    }
}

/// What a context stands for.
pub open spec fn scope_of(c: Context) -> Scope
    decreases c,
{
    match c {
        Context::Root { variables, functions, env, host } => Scope {
            vars: with_vars(Map::empty(), variables@),
            functions: functions@.map_values(|f: String| f@),
            env: env@,
            host: host@,
            rounds: Seq::empty(),
        },
        Context::Child { parent, variables, round } => {
            let p = scope_of(*parent);
            Scope {
                vars: with_vars(p.vars, variables@),
                functions: p.functions,
                env: p.env,
                host: p.host,
                rounds: match round {
                    Some(i) => p.rounds.push(i),
                    None => p.rounds,
                },
            }
        },
    }
}

impl<'a> View for Context<'a> {
    type V = Scope;

    open spec fn view(&self) -> Scope {
        scope_of(*self)
    }
}

/// A scope with one more variable.
pub open spec fn bind(c: Scope, name: Seq<char>, v: Val) -> Scope {
    Scope { vars: c.vars.insert(name, v), ..c }
}

/// A scope in a round of a loop.
pub open spec fn in_round(c: Scope, i: usize) -> Scope {
    Scope { rounds: c.rounds.push(i), ..c }
}

/// Where a call stands that the scope is for.
pub open spec fn site(c: Scope, path: Seq<usize>) -> Site {
    Site { path, rounds: c.rounds }
}

/// The value of a variable.
pub open spec fn variable(c: Scope, name: Seq<char>) -> Option<Val> {
    if c.vars.contains_key(name) {
        Some(c.vars[name])
    } else {
        None
    }
}

/// The scope that evaluation starts in by default.
pub open spec fn default_scope() -> Scope {
    Scope {
        vars: Map::empty(),
        functions: Seq::empty(),
        env: env::stdlib_env(),
        host: Seq::empty(),
        rounds: Seq::empty(),
    }
}

impl<'a> Default for Context<'a> {
    fn default() -> (r: Context<'a>)
        ensures
            r@ == default_scope(),
    {
        Context::new(Env::stdlib())
    }
}

fn last_binding<'b>(s: &'b Vec<(String, Value)>, name: &str, base: Ghost<Map<Seq<char>, Val>>) -> (r:
    Option<&'b Value>)
    ensures
        match r {
            Some(v) => with_vars(base@, s@).contains_key(name@) && with_vars(base@, s@)[name@]
                == v@,
            None => {
                &&& with_vars(base@, s@).contains_key(name@) == base@.contains_key(name@)
                &&& with_vars(base@, s@)[name@] == base@[name@]
            },
        },
{
    let mut i: usize = s.len();
    assert(s@.subrange(0, s@.len() as int) =~= s@);
    while i > 0
        invariant
            i <= s@.len(),
            with_vars(base@, s@).contains_key(name@) == with_vars(
                base@,
                s@.subrange(0, i as int),
            ).contains_key(name@),
            with_vars(base@, s@)[name@] == with_vars(base@, s@.subrange(0, i as int))[name@],
        decreases i,
    {
        let ghost pre = s@.subrange(0, i as int);
        assert(pre.drop_last() =~= s@.subrange(0, i - 1));
        assert(pre.last() == s@[i - 1]);
        if strings::str_eq(s[i - 1].0.as_str(), name) {
            return Some(&s[i - 1].1);
        }
        i -= 1;
    }
    assert(s@.subrange(0, 0).len() == 0);
    None
}

impl<'a> Context<'a> {
    /// A scope without variables.
    pub fn new(env: Env) -> (r: Context<'a>)
        ensures
            r@ == (Scope {
                vars: Map::empty(),
                functions: Seq::empty(),
                env: env@,
                host: Seq::empty(),
                rounds: Seq::empty(),
            }),
    {
        let r = Context::Root {
            variables: Vec::new(),
            functions: Vec::new(),
            env,
            host: HostTable::new(),
        };
        assert(r@.functions =~= Seq::<Seq<char>>::empty());
        r
    }

    /// Gives a variable a value.
    pub fn add_variable(&mut self, name: &str, value: Value)
        ensures
            final(self)@ == bind(old(self)@, name@, value@),
    {
        let key = name.to_owned();
        match self {
            Context::Root { variables, .. } => {
                let ghost before = variables@;
                variables.push((key, value));
                assert(variables@.drop_last() =~= before);
            },
            Context::Child { variables, .. } => {
                let ghost before = variables@;
                variables.push((key, value));
                assert(variables@.drop_last() =~= before);
            },
        }
    }

    /// Registers a function that the host computes. In a child scope nothing is registered.
    pub fn add_function(&mut self, name: &str)
        ensures
            *old(self) is Root ==> final(self)@ == (Scope {
                functions: old(self)@.functions.push(name@),
                ..old(self)@
            }),
            *old(self) is Child ==> final(self)@ == old(self)@,
    {
        match self {
            Context::Root { functions, .. } => {
                let ghost before = functions@;
                functions.push(name.to_owned());
                assert(functions@.map_values(|f: String| f@) =~= before.map_values(
                    |f: String| f@,
                ).push(name@));
            },
            Context::Child { .. } => {},
        }
    }

    /// Adds an answer of the host. In a child scope nothing is added.
    pub fn add_answer(&mut self, request: HostRequest, answer: Result<Value, ExecutionError>)
        ensures
            *old(self) is Root ==> final(self)@ == (Scope {
                host: old(self)@.host.push((request@, error::outcome(answer))),
                ..old(self)@
            }),
            *old(self) is Child ==> final(self)@ == old(self)@,
    {
        match self {
            Context::Root { host, .. } => {
                host.add(request, answer);
            },
            Context::Child { .. } => {},
        }
    }

    /// Forgets the answers of the host, so that a new evaluation asks for its own. In a child
    /// scope nothing is forgotten.
    pub fn clear_answers(&mut self)
        ensures
            *old(self) is Root ==> final(self)@ == (Scope { host: Seq::empty(), ..old(self)@ }),
            *old(self) is Child ==> final(self)@ == old(self)@,
    {
        match self {
            Context::Root { host, .. } => {
                *host = HostTable::new();
            },
            Context::Child { .. } => {},
        }
    }

    /// The value of a variable.
    pub fn get_variable(&self, name: &str) -> (r: Option<&Value>)
        ensures
            match r {
                Some(v) => variable(self@, name@) == Some(v@),
                None => variable(self@, name@) is None,
            },
        decreases self,
    {
        match self {
            Context::Root { variables, .. } => last_binding(variables, name, Ghost(Map::empty())),
            Context::Child { parent, variables, .. } => {
                let ghost base = scope_of(**parent).vars;
                match last_binding(variables, name, Ghost(base)) {
                    Some(v) => Some(v),
                    None => parent.get_variable(name),
                }
            },
        }
    }

    /// Whether the host computes a function of that name.
    pub fn has_function(&self, name: &str) -> (r: bool)
        ensures
            r == self@.functions.contains(name@),
        decreases self,
    {
        match self {
            Context::Root { functions, .. } => {
                let ghost fs = functions@.map_values(|f: String| f@);
                let mut i: usize = 0;
                while i < functions.len()
                    invariant
                        i <= functions@.len(),
                        fs == functions@.map_values(|f: String| f@),
                        fs == self@.functions,
                        forall|j: int| 0 <= j < i ==> fs[j] != name@,
                    decreases functions@.len() - i,
                {
                    assert(fs[i as int] == functions@[i as int]@);
                    if strings::str_eq(functions[i].as_str(), name) {
                        return true;
                    }
                    i += 1;
                }
                false
            },
            Context::Child { parent, .. } => parent.has_function(name),
        }
    }

    /// The environment.
    pub fn env(&self) -> (r: &Env)
        ensures
            r@ == self@.env,
        decreases self,
    {
        match self {
            Context::Root { env, .. } => env,
            Context::Child { parent, .. } => parent.env(),
        }
    }

    /// The answers of the host.
    pub fn host(&self) -> (r: &HostTable)
        ensures
            r@ == self@.host,
        decreases self,
    {
        match self {
            Context::Root { host, .. } => host,
            Context::Child { parent, .. } => parent.host(),
        }
    }

    /// A scope inside this one.
    pub fn new_inner_scope<'b>(&'b self) -> (r: Context<'b>)
        ensures
            r@ == self@,
    {
        let r = Context::Child { parent: self, variables: Vec::new(), round: None };
        r
    }

    /// A scope inside this one, for a round of a loop.
    pub fn new_round<'b>(&'b self, i: usize) -> (r: Context<'b>)
        ensures
            r@ == in_round(self@, i),
    {
        let r = Context::Child { parent: self, variables: Vec::new(), round: Some(i) };
        r
    }

    /// The rounds of the loops that the scope is in.
    fn rounds(&self) -> (r: Vec<usize>)
        ensures
            r@ == self@.rounds,
        decreases self,
    {
        match self {
            Context::Root { .. } => {
                let r: Vec<usize> = Vec::new();
                assert(r@ =~= Seq::empty());
                r
            },
            Context::Child { parent, round, .. } => {
                let mut r = parent.rounds();
                match round {
                    Some(i) => {
                        r.push(*i);
                    },
                    None => {},
                }
                r
            },
        }
    }

    /// Where a call stands, on the way from the root of its expression.
    pub fn site(&self, path: &Vec<usize>) -> (r: CallSite)
        ensures
            r@ == site(self@, path@),
    {
        CallSite { path: error::clone_indices(path), rounds: self.rounds() }
    }
}

/// A variable that was added is found, and hides only the one of its name.
pub proof fn law_bind(c: Scope, name: Seq<char>, v: Val, other: Seq<char>)
    ensures
        variable(bind(c, name, v), name) == Some(v),
        other != name ==> variable(bind(c, name, v), other) == variable(c, other),
{
}

} // verus!
