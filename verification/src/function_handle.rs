//! Overloads resolved ahead of evaluation.

use crate::assoc;
use crate::common::ast;
use crate::common::ast::{
    CallExpr, ComprehensionExpr, EntryExpr, Expr, IdedEntryExpr, IdedExpr, ListExpr, LiteralValue,
    MapEntryExpr, MapExpr, SelectExpr, StructFieldExpr,
};
use crate::common::decls;
use crate::common::decls::{FunctionDecl, Overload, OverloadDecl};
use crate::common::functions::Function;
use crate::common::types;
use crate::common::types::{Kind, Type, TypeModel};
use crate::context;
use crate::context::Scope;
use crate::env;
use crate::env::{Env, EnvModel};
use crate::error::Fault;
use crate::objects;
use crate::objects::{Val, Value};
use crate::semantics;
use crate::semantics::{CallKind, to_arg, to_target};
use crate::strings;
use vstd::prelude::*;

verus! {

/// A resolved overload: the number of the function in the upper half, the number of the
/// overload in the lower half.
#[derive(Clone, Copy, Debug, PartialEq, Eq, Structural, Hash)]
pub struct FunctionHandle(u32);

/// The function and the overload of a handle.
pub open spec fn handle_parts(h: FunctionHandle) -> (u16, u16) {
    (h.function(), h.overload())
}

impl FunctionHandle {
    /// The number of the function.
    pub closed spec fn function(self) -> u16 {
        (self.0 / 0x1_0000) as u16
    }

    /// The number of the overload.
    pub closed spec fn overload(self) -> u16 {
        (self.0 % 0x1_0000) as u16
    }

    /// The handle of nothing: the last function's last overload.
    pub fn unresolved() -> (r: FunctionHandle)
        ensures
            handle_parts(r) == (0xFFFFu16, 0xFFFFu16),
    {
        FunctionHandle(u32::MAX)
    }

    /// The handle of an overload.
    pub fn new(fn_id: u16, overload_idx: u16) -> (r: FunctionHandle)
        ensures
            handle_parts(r) == (fn_id, overload_idx),
    {
        let high = (fn_id as u32) << 16;
        let word = high | overload_idx as u32;
        assert(word == fn_id * 0x1_0000 + overload_idx) by (bit_vector)
            requires
                high == (fn_id as u32) << 16,
                word == high | overload_idx as u32,
        ;
        FunctionHandle(word)
    }

    /// The number of the function.
    pub fn fn_id(self) -> (r: u16)
        ensures
            r == self.function(),
    {
        let w = self.0;
        assert(w >> 16 == w / 0x1_0000) by (bit_vector);
        (self.0 >> 16) as u16
    }

    /// The number of the overload.
    pub fn overload_idx(self) -> (r: u16)
        ensures
            r == self.overload(),
    {
        let w = self.0;
        assert(w as u16 == (w % 0x1_0000) as u16) by (bit_vector);
        self.0 as u16
    }

    /// Whether the handle is not the one of nothing.
    pub fn is_resolved(self) -> (r: bool)
        ensures
            r == (handle_parts(self) != (0xFFFFu16, 0xFFFFu16)),
    {
        self.0 != u32::MAX
    }
}

/// Two handles of one function and one overload are one handle.
pub proof fn law_handle_injective(a: FunctionHandle, b: FunctionHandle)
    requires
        handle_parts(a) == handle_parts(b),
    ensures
        a == b,
{
}

/// What is known of an argument's type ahead of evaluation.
#[derive(Clone, Copy, Debug, PartialEq, Eq, Structural)]
pub enum TypeHint {
    String,
    Int,
    UInt,
    Float,
    Bool,
    Bytes,
    List,
    Dict,
    Null,
    Unknown,
}

/// The kind that a hint names.
pub open spec fn hint_kind(h: TypeHint) -> Option<Kind> {
    match h {
        TypeHint::String => Some(Kind::String),
        TypeHint::Int => Some(Kind::Int),
        TypeHint::UInt => Some(Kind::UInt),
        TypeHint::Float => Some(Kind::Double),
        TypeHint::Bool => Some(Kind::Boolean),
        TypeHint::Bytes => Some(Kind::Bytes),
        TypeHint::List => Some(Kind::List),
        TypeHint::Dict => Some(Kind::Dict),
        TypeHint::Null => Some(Kind::NullType),
        TypeHint::Unknown => None,
    }
}

/// A hint fits a type of its kind; where nothing is known, any type.
pub open spec fn hint_fits(h: TypeHint, t: TypeModel) -> bool {
    match hint_kind(h) {
        Some(k) => t.kind == k,
        None => true,
    }
}

impl TypeHint {
    /// Whether the hint fits a type.
    pub fn fits(&self, target: &Type) -> (r: bool)
        ensures
            r == hint_fits(*self, target@),
    {
        let kind = target.kind();
        match self {
            TypeHint::Unknown => true,
            TypeHint::String => kind == Kind::String,
            TypeHint::Int => kind == Kind::Int,
            TypeHint::UInt => kind == Kind::UInt,
            TypeHint::Float => kind == Kind::Double,
            TypeHint::Bool => kind == Kind::Boolean,
            TypeHint::Bytes => kind == Kind::Bytes,
            TypeHint::List => kind == Kind::List,
            TypeHint::Dict => kind == Kind::Dict,
            TypeHint::Null => kind == Kind::NullType,
        }
    }
}

/// What is known of the type of an expression: that of a constant, a list or a map.
pub open spec fn hint_of(e: Expr) -> TypeHint {
    match e {
        Expr::Literal(l) => match l {
            LiteralValue::Boolean(_) => TypeHint::Bool,
            LiteralValue::Bytes(_) => TypeHint::Bytes,
            LiteralValue::Double(_) => TypeHint::Float,
            LiteralValue::Int(_) => TypeHint::Int,
            LiteralValue::Null => TypeHint::Null,
            LiteralValue::String(_) => TypeHint::String,
            LiteralValue::UInt(_) => TypeHint::UInt,
        },
        Expr::List(_) => TypeHint::List,
        Expr::Dict(_) => TypeHint::Dict,
        _ => TypeHint::Unknown,
    }
}

/// What is known of the type of an expression.
pub fn expr_type_hint(expr: &Expr) -> (r: TypeHint)
    ensures
        r == hint_of(*expr),
{
    match expr {
        Expr::Literal(lit) => match lit {
            LiteralValue::Boolean(_) => TypeHint::Bool,
            LiteralValue::Bytes(_) => TypeHint::Bytes,
            LiteralValue::Double(_) => TypeHint::Float,
            LiteralValue::Int(_) => TypeHint::Int,
            LiteralValue::Null => TypeHint::Null,
            LiteralValue::String(_) => TypeHint::String,
            LiteralValue::UInt(_) => TypeHint::UInt,
        },
        Expr::List(_) => TypeHint::List,
        Expr::Dict(_) => TypeHint::Dict,
        _ => TypeHint::Unknown,
    }
}

/// Hints fit an overload: in number, and each the type of its argument.
pub open spec fn hints_accept(o: Overload, member: bool, hints: Seq<TypeHint>) -> bool {
    &&& o.member_function == member
    &&& hints.len() == o.arg_types.len()
    &&& forall|i: int| 0 <= i < hints.len() ==> hint_fits(hints[i], #[trigger] o.arg_types[i])
}

/// The position, from `from` on, of the first overload that hints fit.
pub open spec fn first_hinted(
    s: Seq<Overload>,
    member: bool,
    hints: Seq<TypeHint>,
    from: int,
) -> Option<int>
    decreases s.len() - from,
{
    if from < 0 || from >= s.len() {
        None
    } else if hints_accept(s[from], member, hints) {
        Some(from)
    } else {
        first_hinted(s, member, hints, from + 1)
    }
}

/// The function's position and its overload that hints lead to.
pub open spec fn hinted(
    env: EnvModel,
    name: Seq<char>,
    member: bool,
    hints: Seq<TypeHint>,
) -> Option<(int, int)> {
    match assoc::position(env::keys(env.functions), name) {
        Some(f) => match first_hinted(env.functions[f].1, member, hints, 0) {
            Some(o) => Some((f, o)),
            None => None,
        },
        None => None,
    }
}

/// The function's position and its overload that a call finds.
pub open spec fn called(env: EnvModel, name: Seq<char>, member: bool, args: Seq<Val>) -> Option<
    (int, int),
> {
    match assoc::position(env::keys(env.functions), name) {
        Some(f) => match decls::first_accepting(env.functions[f].1, member, args, 0) {
            Some(o) => Some((f, o)),
            None => None,
        },
        None => None,
    }
}

/// What the overload at a place computes.
pub open spec fn op_at(env: EnvModel, at: Option<(int, int)>) -> Option<Function> {
    match at {
        Some((f, o)) => Some(env.functions[f].1[o].op),
        None => None,
    }
}

/// Functions and overloads have numbers of 16 bits.
pub open spec fn numbered(env: EnvModel) -> bool {
    &&& env.functions.len() <= 0x1_0000
    &&& forall|f: int|
        0 <= f < env.functions.len() ==> (#[trigger] env.functions[f]).1.len() <= 0x1_0000
}

/// That a handle is the one of a place, where there is a place.
pub open spec fn is_handle(h: Option<FunctionHandle>, at: Option<(int, int)>) -> bool {
    match (h, at) {
        (Some(h), Some((f, o))) => h.function() == f && h.overload() == o,
        (None, None) => true,
        _ => false,
    }
}

fn hints_fit(o: &OverloadDecl, member: bool, hints: &[TypeHint]) -> (r: bool)
    ensures
        r == hints_accept(o@, member, hints@),
{
    if o.member_function != member || hints.len() != o.arg_types.len() {
        return false;
    }
    let mut i: usize = 0;
    while i < hints.len()
        invariant
            i <= hints@.len(),
            hints@.len() == o.arg_types@.len(),
            forall|j: int| 0 <= j < i ==> hint_fits(hints@[j], #[trigger] o@.arg_types[j]),
        decreases hints@.len() - i,
    {
        if !hints[i].fits(&o.arg_types[i]) {
            assert(!hint_fits(hints@[i as int], o@.arg_types[i as int]));
            return false;
        }
        i += 1;
    }
    true
}

/// Resolves calls against an environment.
pub struct FunctionResolver<'a> {
    env: &'a Env,
    functions: Vec<&'a FunctionDecl>,
}

impl<'a> FunctionResolver<'a> {
    /// The environment.
    pub closed spec fn env(&self) -> EnvModel {
        self.env@
    }

    /// The functions are those of the environment, in the order of their names.
    pub closed spec fn wf(&self) -> bool {
        &&& numbered(self.env@)
        &&& env::orderly(self.env@)
        &&& self.functions@.len() == self.env@.functions.len()
        &&& forall|f: int|
            0 <= f < self.functions@.len() ==> (#[trigger] self.functions@[f])@
                == self.env@.functions[f].1 && self.functions@[f].name@
                == self.env@.functions[f].0
    }

    /// A resolver for an environment.
    pub fn new(env: &'a Env) -> (r: FunctionResolver<'a>)
        requires
            numbered(env@),
        ensures
            r.wf(),
            r.env() == env@,
    {
        let mut functions: Vec<&'a FunctionDecl> = Vec::new();
        let table = env.functions();
        let ghost rows = table@.map_values(|e: (String, FunctionDecl)| (e.0@, e.1@));
        let mut i: usize = 0;
        while i < table.len()
            invariant
                i <= table@.len(),
                rows == table@.map_values(|e: (String, FunctionDecl)| (e.0@, e.1@)),
                rows == env@.functions,
                forall|k: int|
                    0 <= k < table@.len() ==> (#[trigger] table@[k]).1.name@ == table@[k].0@,
                functions@.len() == i,
                forall|f: int|
                    0 <= f < i ==> (#[trigger] functions@[f])@ == env@.functions[f].1
                        && functions@[f].name@ == env@.functions[f].0,
            decreases table@.len() - i,
        {
            functions.push(&table[i].1);
            assert(rows[i as int] == (table@[i as int].0@, table@[i as int].1@));
            i += 1;
        }
        FunctionResolver { env, functions }
    }

    fn position(&self, name: &str) -> (r: Option<usize>)
        requires
            self.wf(),
        ensures
            match r {
                Some(f) => assoc::position(env::keys(self.env().functions), name@) == Some(
                    f as int,
                ) && f < self.functions@.len(),
                None => assoc::position(env::keys(self.env().functions), name@) is None,
            },
    {
        let table = self.env.functions();
        proof {
            let rows = table@.map_values(|e: (String, FunctionDecl)| (e.0@, e.1@));
            assert(assoc::names(table@) =~= env::keys(self.env@.functions)) by {
                assert forall|k: int| 0 <= k < table@.len() implies #[trigger] assoc::names(
                    table@,
                )[k] == env::keys(self.env@.functions)[k] by {
                    assert(rows[k].0 == table@[k].0@);
                }
            }
        }
        assoc::find(table, name)
    }

    fn place(&self, name: &str, member: bool, arg_types: &[TypeHint]) -> (r: Option<
        (usize, usize),
    >)
        requires
            self.wf(),
        ensures
            match r {
                Some((f, o)) => {
                    &&& hinted(self.env(), name@, member, arg_types@) == Some((f as int, o as int))
                    &&& f < self.functions@.len()
                    &&& o < self.functions@[f as int]@.len()
                },
                None => hinted(self.env(), name@, member, arg_types@) is None,
            },
    {
        let f = match self.position(name) {
            Some(f) => f,
            None => {
                return None;
            },
        };
        let decl = self.functions[f];
        let ghost s = decl@;
        let mut o: usize = 0;
        while o < decl.overloads.len()
            invariant
                o <= decl.overloads@.len(),
                s == decl@,
                s == self.env().functions[f as int].1,
                f < self.functions@.len(),
                self.functions@[f as int]@ == s,
                assoc::position(env::keys(self.env().functions), name@) == Some(f as int),
                first_hinted(s, member, arg_types@, 0) == first_hinted(
                    s,
                    member,
                    arg_types@,
                    o as int,
                ),
            decreases decl.overloads@.len() - o,
        {
            assert(s[o as int] == decl.overloads@[o as int]@);
            if hints_fit(&decl.overloads[o], member, arg_types) {
                return Some((f, o));
            }
            o += 1;
        }
        None
    }

    /// The function that a call leads to, by what is known of its arguments.
    pub fn resolve_op(&self, name: &str, member: bool, arg_types: &[TypeHint]) -> (r: Option<
        Function,
    >)
        requires
            self.wf(),
        ensures
            r == op_at(self.env(), hinted(self.env(), name@, member, arg_types@)),
    {
        match self.place(name, member, arg_types) {
            Some((f, o)) => {
                assert(self.functions@[f as int]@[o as int] == self.functions@[f as int].overloads@[o as int]@);
                Some(self.functions[f].overloads[o].op)
            },
            None => None,
        }
    }

    /// The handle of the overload that a call leads to, by what is known of its arguments.
    pub fn resolve(&self, name: &str, member: bool, arg_types: &[TypeHint]) -> (r: Option<
        FunctionHandle,
    >)
        requires
            self.wf(),
        ensures
            is_handle(r, hinted(self.env(), name@, member, arg_types@)),
            r matches Some(h) ==> {
                &&& h.function() < self.env().functions.len()
                &&& h.overload() < self.env().functions[h.function() as int].1.len()
                &&& self.env().functions[h.function() as int].0 == name@
            },
    {
        proof {
            if hinted(self.env(), name@, member, arg_types@) is Some {
                law_hinted_place(self.env(), name@, member, arg_types@);
            }
        }
        match self.place(name, member, arg_types) {
            Some((f, o)) => {
                assert(self.env@.functions[f as int].1.len() <= 0x1_0000);
                Some(FunctionHandle::new(f as u16, o as u16))
            },
            None => None,
        }
    }

    /// The handle of the overload that a call on values finds.
    pub fn resolve_runtime(&self, name: &str, member: bool, args: &[Value]) -> (r: Option<
        FunctionHandle,
    >)
        requires
            self.wf(),
        ensures
            is_handle(r, called(self.env(), name@, member, objects::values_view(args@))),
            r matches Some(h) ==> {
                &&& h.function() < self.env().functions.len()
                &&& h.overload() < self.env().functions[h.function() as int].1.len()
                &&& self.env().functions[h.function() as int].0 == name@
            },
    {
        proof {
            let names = env::keys(self.env().functions);
            assoc::lemma_lower_bound(names, name@, 0);
            if let Some(f) = assoc::position(names, name@) {
                assert(names[f] == self.env().functions[f].0);
            }
        }
        let f = match self.position(name) {
            Some(f) => f,
            None => {
                return None;
            },
        };
        let decl = self.functions[f];
        let ghost s = decl@;
        let ghost vs = objects::values_view(args@);
        assert(self.env@.functions[f as int].1.len() <= 0x1_0000);
        let mut o: usize = 0;
        while o < decl.overloads.len()
            invariant
                o <= decl.overloads@.len(),
                decl.overloads@.len() <= 0x1_0000,
                f < 0x1_0000,
                s == decl@,
                vs == objects::values_view(args@),
                s == self.env().functions[f as int].1,
                assoc::position(env::keys(self.env().functions), name@) == Some(f as int),
                decls::first_accepting(s, member, vs, 0) == decls::first_accepting(
                    s,
                    member,
                    vs,
                    o as int,
                ),
            decreases decl.overloads@.len() - o,
        {
            assert(s[o as int] == decl.overloads@[o as int]@);
            if decl.overloads[o].accepts(member, args) {
                return Some(FunctionHandle::new(f as u16, o as u16));
            }
            o += 1;
        }
        None
    }

    /// What the overload of a handle computes.
    pub fn get_function(&self, handle: FunctionHandle) -> (r: Function)
        requires
            self.wf(),
            handle.function() < self.env().functions.len(),
            handle.overload() < self.env().functions[handle.function() as int].1.len(),
        ensures
            Some(r) == op_at(
                self.env(),
                Some((handle.function() as int, handle.overload() as int)),
            ),
    {
        let f = handle.fn_id() as usize;
        let o = handle.overload_idx() as usize;
        let decl = self.functions[f];
        assert(decl@[o as int] == decl.overloads@[o as int]@);
        decl.overloads[o].op
    }

    /// The functions, by their numbers, which are given in the order of the names.
    pub fn functions(&self) -> (r: &[&'a FunctionDecl])
        requires
            self.wf(),
        ensures
            r@.len() == self.env().functions.len(),
            forall|f: int|
                0 <= f < r@.len() ==> (#[trigger] r@[f])@ == self.env().functions[f].1
                    && r@[f].name@ == self.env().functions[f].0,
            forall|f: int, g: int|
                0 <= f < g < r@.len() ==> strings::text_lt(
                    (#[trigger] r@[f]).name@,
                    (#[trigger] r@[g]).name@,
                ),
            env::orderly(self.env()),
    {
        proof {
            let names = env::keys(self.env().functions);
            assert forall|f: int, g: int|
                0 <= f < g < self.functions@.len() implies strings::text_lt(
                (#[trigger] self.functions@[f]).name@,
                (#[trigger] self.functions@[g]).name@,
            ) by {
                assert(strings::text_lt(names[f], names[g]));
            }
        }
        self.functions.as_slice()
    }
}

/// A place that hints lead to is there.
pub proof fn law_hinted_place(
    env: EnvModel,
    name: Seq<char>,
    member: bool,
    hints: Seq<TypeHint>,
)
    requires
        hinted(env, name, member, hints) is Some,
    ensures
        ({
            let (f, o) = hinted(env, name, member, hints)->Some_0;
            &&& 0 <= f < env.functions.len()
            &&& 0 <= o < env.functions[f].1.len()
            &&& env.functions[f].0 == name
            &&& hints_accept(env.functions[f].1[o], member, hints)
        }),
{
    let (f, o) = hinted(env, name, member, hints)->Some_0;
    assoc::lemma_lower_bound(env::keys(env.functions), name, 0);
    lemma_first_hinted(env.functions[f].1, member, hints, 0);
    assert(env::keys(env.functions)[f] == env.functions[f].0);
}

proof fn lemma_first_hinted(s: Seq<Overload>, member: bool, hints: Seq<TypeHint>, from: int)
    ensures
        first_hinted(s, member, hints, from) matches Some(i) ==> from <= i < s.len()
            && hints_accept(s[i], member, hints),
    decreases s.len() - from,
{
    if 0 <= from < s.len() && !hints_accept(s[from], member, hints) {
        lemma_first_hinted(s, member, hints, from + 1);
    }
}

/// The overloads name types by their kinds alone, and none takes any type.
pub open spec fn plain(s: Seq<Overload>) -> bool {
    forall|i: int, j: int|
        0 <= i < s.len() && 0 <= j < s[i].arg_types.len() ==> {
            let t = #[trigger] s[i].arg_types[j];
            t == types::kind_type(t.kind) && t.kind != Kind::Dyn
        }
}

/// The hints say of the values what they are.
pub open spec fn hints_true(hints: Seq<TypeHint>, args: Seq<Val>) -> bool {
    &&& hints.len() == args.len()
    &&& forall|i: int|
        0 <= i < hints.len() ==> hint_kind(#[trigger] hints[i]) == Some(
            types::type_of(args[i]).kind,
        )
}

/// Hints that are true of the values lead to the overload that the call finds, where the
/// overloads name plain types.
pub proof fn law_hints_agree(
    env: EnvModel,
    name: Seq<char>,
    member: bool,
    hints: Seq<TypeHint>,
    args: Seq<Val>,
)
    requires
        hints_true(hints, args),
        env::lookup(env.functions, name) matches Some(s) ==> plain(s),
    ensures
        hinted(env, name, member, hints) == called(env, name, member, args),
        op_at(env, hinted(env, name, member, hints)) == env::find(env, name, member, args),
{
    match assoc::position(env::keys(env.functions), name) {
        Some(f) => {
            lemma_hints_agree(env.functions[f].1, member, hints, args, 0);
        },
        None => {},
    }
}

proof fn lemma_hints_agree(
    s: Seq<Overload>,
    member: bool,
    hints: Seq<TypeHint>,
    args: Seq<Val>,
    from: int,
)
    requires
        hints_true(hints, args),
        plain(s),
    ensures
        first_hinted(s, member, hints, from) == decls::first_accepting(s, member, args, from),
    decreases s.len() - from,
{
    if 0 <= from < s.len() {
        let o = s[from];
        assert(hints_accept(o, member, hints) == decls::accepts(o, member, args)) by {
            if hints.len() == o.arg_types.len() {
                assert forall|i: int| 0 <= i < hints.len() implies hint_fits(
                    hints[i],
                    #[trigger] o.arg_types[i],
                ) == types::assignable(o.arg_types[i], args[i]) by {
                    let t = s[from].arg_types[i];
                    assert(t == types::kind_type(t.kind) && t.kind != Kind::Dyn);
                    assert(hint_kind(hints[i]) == Some(types::type_of(args[i]).kind));
                }
                if decls::accepts(o, member, args) {
                    assert forall|i: int| 0 <= i < hints.len() implies hint_fits(
                        hints[i],
                        #[trigger] o.arg_types[i],
                    ) by {
                        assert(types::assignable(o.arg_types[i], args[i]));
                    }
                }
                if hints_accept(o, member, hints) {
                    assert forall|i: int| 0 <= i < args.len() implies types::assignable(
                        #[trigger] o.arg_types[i],
                        args[i],
                    ) by {
                        assert(hint_fits(hints[i], o.arg_types[i]));
                    }
                }
            }
        }
        if !hints_accept(o, member, hints) {
            lemma_hints_agree(s, member, hints, args, from + 1);
        }
    }
}

/// A handle of the overload that hints lead to names the function that they lead to.
pub proof fn law_handle_function(
    env: EnvModel,
    name: Seq<char>,
    member: bool,
    hints: Seq<TypeHint>,
    h: FunctionHandle,
)
    requires
        is_handle(Some(h), hinted(env, name, member, hints)),
    ensures
        h.function() < env.functions.len(),
        h.overload() < env.functions[h.function() as int].1.len(),
        op_at(env, Some((h.function() as int, h.overload() as int))) == op_at(
            env,
            hinted(env, name, member, hints),
        ),
{
    law_hinted_place(env, name, member, hints);
}

/// What is known of the types of expressions.
pub open spec fn hints_of(s: Seq<IdedExpr>) -> Seq<TypeHint> {
    s.map_values(|e: IdedExpr| hint_of(e.expr))
}

/// That one expression is another with its calls resolved: they are alike but for what the
/// calls lead to, and that is what is known of it. Inside a struct nothing is resolved.
pub open spec fn resolved(a: Expr, b: Expr, env: EnvModel) -> bool
    decreases a, 0nat,
{
    match (a, b) {
        (Expr::Call(x), Expr::Call(y)) => {
            &&& y.func_name == x.func_name
            &&& match (x.target, y.target) {
                (Some(t), Some(u)) => t.id == u.id && resolved(t.expr, u.expr, env),
                (None, None) => true,
                _ => false,
            }
            &&& all_resolved(x.args@, y.args@, env)
            &&& y.resolved_op == op_at(
                env,
                hinted(env, x.func_name@, x.target is Some, hints_of(x.args@)),
            )
        },
        (Expr::Select(x), Expr::Select(y)) => {
            &&& y.field == x.field
            &&& y.test == x.test
            &&& y.operand.id == x.operand.id
            &&& resolved(x.operand.expr, y.operand.expr, env)
        },
        (Expr::List(x), Expr::List(y)) => {
            &&& y.optional_indices == x.optional_indices
            &&& all_resolved(x.elements@, y.elements@, env)
        },
        (Expr::Dict(x), Expr::Dict(y)) => entries_resolved(x.entries@, y.entries@, env),
        (Expr::Comprehension(x), Expr::Comprehension(y)) => {
            &&& y.iter_var == x.iter_var
            &&& y.iter_var2 == x.iter_var2
            &&& y.accu_var == x.accu_var
            &&& y.iter_range.id == x.iter_range.id
            &&& resolved(x.iter_range.expr, y.iter_range.expr, env)
            &&& y.accu_init.id == x.accu_init.id
            &&& resolved(x.accu_init.expr, y.accu_init.expr, env)
            &&& y.loop_cond.id == x.loop_cond.id
            &&& resolved(x.loop_cond.expr, y.loop_cond.expr, env)
            &&& y.loop_step.id == x.loop_step.id
            &&& resolved(x.loop_step.expr, y.loop_step.expr, env)
            &&& y.result.id == x.result.id
            &&& resolved(x.result.expr, y.result.expr, env)
        },
        (Expr::Call(_), _) => false,
        (Expr::Select(_), _) => false,
        (Expr::List(_), _) => false,
        (Expr::Dict(_), _) => false,
        (Expr::Comprehension(_), _) => false,
        _ => b == a,
    }
}

pub open spec fn all_resolved(a: Seq<IdedExpr>, b: Seq<IdedExpr>, env: EnvModel) -> bool
    decreases a, 1nat,
{
    a.len() == b.len() && (a.len() == 0 || {
        &&& all_resolved(a.drop_last(), b.drop_last(), env)
        &&& a.last().id == b.last().id
        &&& resolved(a.last().expr, b.last().expr, env)
    })
}

pub open spec fn entries_resolved(
    a: Seq<IdedEntryExpr>,
    b: Seq<IdedEntryExpr>,
    env: EnvModel,
) -> bool
    decreases a, 1nat,
{
    a.len() == b.len() && (a.len() == 0 || {
        &&& entries_resolved(a.drop_last(), b.drop_last(), env)
        &&& a.last().id == b.last().id
        &&& match (a.last().expr, b.last().expr) {
            (EntryExpr::MapEntry(x), EntryExpr::MapEntry(y)) => {
                &&& y.optional == x.optional
                &&& y.key.id == x.key.id
                &&& resolved(x.key.expr, y.key.expr, env)
                &&& y.value.id == x.value.id
                &&& resolved(x.value.expr, y.value.expr, env)
            },
            (EntryExpr::StructField(x), EntryExpr::StructField(y)) => {
                &&& y.optional == x.optional
                &&& y.field == x.field
                &&& y.value.id == x.value.id
                &&& resolved(x.value.expr, y.value.expr, env)
            },
            _ => false,
        }
    })
}

/// Two expressions are alike in all their parts, in what their calls lead to as well.
pub open spec fn alike(a: Expr, b: Expr) -> bool
    decreases a, 0nat,
{
    match (a, b) {
        (Expr::Call(x), Expr::Call(y)) => {
            &&& y.func_name == x.func_name
            &&& match (x.target, y.target) {
                (Some(t), Some(u)) => t.id == u.id && alike(t.expr, u.expr),
                (None, None) => true,
                _ => false,
            }
            &&& all_alike(x.args@, y.args@)
            &&& y.resolved_op == x.resolved_op
        },
        (Expr::Select(x), Expr::Select(y)) => {
            &&& y.field == x.field
            &&& y.test == x.test
            &&& y.operand.id == x.operand.id
            &&& alike(x.operand.expr, y.operand.expr)
        },
        (Expr::List(x), Expr::List(y)) => {
            &&& y.optional_indices == x.optional_indices
            &&& all_alike(x.elements@, y.elements@)
        },
        (Expr::Dict(x), Expr::Dict(y)) => entries_alike(x.entries@, y.entries@),
        (Expr::Comprehension(x), Expr::Comprehension(y)) => {
            &&& y.iter_var == x.iter_var
            &&& y.iter_var2 == x.iter_var2
            &&& y.accu_var == x.accu_var
            &&& y.iter_range.id == x.iter_range.id
            &&& alike(x.iter_range.expr, y.iter_range.expr)
            &&& y.accu_init.id == x.accu_init.id
            &&& alike(x.accu_init.expr, y.accu_init.expr)
            &&& y.loop_cond.id == x.loop_cond.id
            &&& alike(x.loop_cond.expr, y.loop_cond.expr)
            &&& y.loop_step.id == x.loop_step.id
            &&& alike(x.loop_step.expr, y.loop_step.expr)
            &&& y.result.id == x.result.id
            &&& alike(x.result.expr, y.result.expr)
        },
        (Expr::Call(_), _) => false,
        (Expr::Select(_), _) => false,
        (Expr::List(_), _) => false,
        (Expr::Dict(_), _) => false,
        (Expr::Comprehension(_), _) => false,
        _ => b == a,
    }
}

pub open spec fn all_alike(a: Seq<IdedExpr>, b: Seq<IdedExpr>) -> bool
    decreases a, 1nat,
{
    a.len() == b.len() && (a.len() == 0 || {
        &&& all_alike(a.drop_last(), b.drop_last())
        &&& a.last().id == b.last().id
        &&& alike(a.last().expr, b.last().expr)
    })
}

pub open spec fn entries_alike(a: Seq<IdedEntryExpr>, b: Seq<IdedEntryExpr>) -> bool
    decreases a, 1nat,
{
    a.len() == b.len() && (a.len() == 0 || {
        &&& entries_alike(a.drop_last(), b.drop_last())
        &&& a.last().id == b.last().id
        &&& match (a.last().expr, b.last().expr) {
            (EntryExpr::MapEntry(x), EntryExpr::MapEntry(y)) => {
                &&& y.optional == x.optional
                &&& y.key.id == x.key.id
                &&& alike(x.key.expr, y.key.expr)
                &&& y.value.id == x.value.id
                &&& alike(x.value.expr, y.value.expr)
            },
            (EntryExpr::StructField(x), EntryExpr::StructField(y)) => {
                &&& y.optional == x.optional
                &&& y.field == x.field
                &&& y.value.id == x.value.id
                &&& alike(x.value.expr, y.value.expr)
            },
            _ => false,
        }
    })
}

/// Resolving an expression a second time changes nothing.
pub proof fn law_resolved_twice(a: Expr, b: Expr, c: Expr, env: EnvModel)
    requires
        resolved(a, b, env),
        resolved(b, c, env),
    ensures
        alike(b, c),
    decreases a, 0nat,
{
    match (a, b, c) {
        (Expr::Call(x), Expr::Call(y), Expr::Call(z)) => {
            match (x.target, y.target, z.target) {
                (Some(t), Some(u), Some(v)) => {
                    law_resolved_twice(t.expr, u.expr, v.expr, env);
                },
                _ => {},
            }
            lemma_all_twice(x.args@, y.args@, z.args@, env);
        },
        (Expr::Select(x), Expr::Select(y), Expr::Select(z)) => {
            law_resolved_twice(x.operand.expr, y.operand.expr, z.operand.expr, env);
        },
        (Expr::List(x), Expr::List(y), Expr::List(z)) => {
            lemma_all_twice(x.elements@, y.elements@, z.elements@, env);
        },
        (Expr::Dict(x), Expr::Dict(y), Expr::Dict(z)) => {
            lemma_entries_twice(x.entries@, y.entries@, z.entries@, env);
        },
        (Expr::Comprehension(x), Expr::Comprehension(y), Expr::Comprehension(z)) => {
            law_resolved_twice(x.iter_range.expr, y.iter_range.expr, z.iter_range.expr, env);
            law_resolved_twice(x.accu_init.expr, y.accu_init.expr, z.accu_init.expr, env);
            law_resolved_twice(x.loop_cond.expr, y.loop_cond.expr, z.loop_cond.expr, env);
            law_resolved_twice(x.loop_step.expr, y.loop_step.expr, z.loop_step.expr, env);
            law_resolved_twice(x.result.expr, y.result.expr, z.result.expr, env);
        },
        _ => {},
    }
}

proof fn lemma_resolved_hint(a: Expr, b: Expr, env: EnvModel)
    requires
        resolved(a, b, env),
    ensures
        hint_of(a) == hint_of(b),
{
}

proof fn lemma_all_twice(
    a: Seq<IdedExpr>,
    b: Seq<IdedExpr>,
    c: Seq<IdedExpr>,
    env: EnvModel,
)
    requires
        all_resolved(a, b, env),
        all_resolved(b, c, env),
    ensures
        all_alike(b, c),
        hints_of(a) == hints_of(b),
    decreases a, 1nat,
{
    if a.len() > 0 {
        lemma_all_twice(a.drop_last(), b.drop_last(), c.drop_last(), env);
        law_resolved_twice(a.last().expr, b.last().expr, c.last().expr, env);
        lemma_resolved_hint(a.last().expr, b.last().expr, env);
        assert(hints_of(a) =~= hints_of(a.drop_last()).push(hint_of(a.last().expr)));
        assert(hints_of(b) =~= hints_of(b.drop_last()).push(hint_of(b.last().expr)));
    } else {
        assert(hints_of(a) =~= hints_of(b));
    }
}

proof fn lemma_entries_twice(
    a: Seq<IdedEntryExpr>,
    b: Seq<IdedEntryExpr>,
    c: Seq<IdedEntryExpr>,
    env: EnvModel,
)
    requires
        entries_resolved(a, b, env),
        entries_resolved(b, c, env),
    ensures
        entries_alike(b, c),
    decreases a, 1nat,
{
    if a.len() > 0 {
        lemma_entries_twice(a.drop_last(), b.drop_last(), c.drop_last(), env);
        match (a.last().expr, b.last().expr, c.last().expr) {
            (EntryExpr::MapEntry(x), EntryExpr::MapEntry(y), EntryExpr::MapEntry(z)) => {
                law_resolved_twice(x.key.expr, y.key.expr, z.key.expr, env);
                law_resolved_twice(x.value.expr, y.value.expr, z.value.expr, env);
            },
            (EntryExpr::StructField(x), EntryExpr::StructField(y), EntryExpr::StructField(z)) => {
                law_resolved_twice(x.value.expr, y.value.expr, z.value.expr, env);
            },
            _ => {},
        }
    }
}

fn resolve_ided(e: IdedExpr, resolver: &FunctionResolver<'_>) -> (r: IdedExpr)
    requires
        resolver.wf(),
    ensures
        r.id == e.id,
        resolved(e.expr, r.expr, resolver.env()),
        hint_of(r.expr) == hint_of(e.expr),
    decreases e, 1nat,
{
    IdedExpr { id: e.id, expr: resolve_expr(e.expr, resolver) }
}

fn resolve_all(s: Vec<IdedExpr>, resolver: &FunctionResolver<'_>) -> (r: Vec<IdedExpr>)
    requires
        resolver.wf(),
    ensures
        all_resolved(s@, r@, resolver.env()),
        hints_of(r@) == hints_of(s@),
    decreases s, 1nat,
{
    let ghost whole = s@;
    let mut rest = s;
    let mut out: Vec<IdedExpr> = Vec::new();
    let ghost mut k: int = 0;
    let n = rest.len();
    while rest.len() > 0
        invariant
            resolver.wf(),
            0 <= k <= whole.len(),
            n == whole.len(),
            out@.len() == k,
            rest@ == whole.subrange(k, whole.len() as int),
            all_resolved(whole.subrange(0, k), out@, resolver.env()),
            hints_of(out@) == hints_of(whole).subrange(0, k),
            forall|j: int| 0 <= j < whole.len() ==> decreases_to!(s => #[trigger] whole[j]),
        decreases rest@.len(),
    {
        let e = rest.remove(0);
        assert(e == whole[k]);
        assert(decreases_to!(s => whole[k]));
        let ghost before = out@;
        let r = resolve_ided(e, resolver);
        out.push(r);
        proof {
            let pre = whole.subrange(0, k + 1);
            assert(pre.drop_last() =~= whole.subrange(0, k));
            assert(out@.drop_last() =~= before);
            assert(pre.last() == e);
            k = k + 1;
            assert(rest@ =~= whole.subrange(k, whole.len() as int));
            assert(hints_of(out@) =~= hints_of(whole).subrange(0, k));
        }
    }
    proof {
        assert(whole.subrange(0, k) =~= whole);
        assert(hints_of(whole).subrange(0, k) =~= hints_of(whole));
    }
    out
}

fn resolve_entry(e: IdedEntryExpr, resolver: &FunctionResolver<'_>) -> (r: IdedEntryExpr)
    requires
        resolver.wf(),
    ensures
        entries_resolved(seq![e], seq![r], resolver.env()),
    decreases e, 1nat,
{
    let r = match e.expr {
        EntryExpr::MapEntry(m) => IdedEntryExpr {
            id: e.id,
            expr: EntryExpr::MapEntry(
                MapEntryExpr {
                    key: resolve_ided(m.key, resolver),
                    value: resolve_ided(m.value, resolver),
                    optional: m.optional,
                },
            ),
        },
        EntryExpr::StructField(f) => IdedEntryExpr {
            id: e.id,
            expr: EntryExpr::StructField(
                StructFieldExpr {
                    field: f.field,
                    value: resolve_ided(f.value, resolver),
                    optional: f.optional,
                },
            ),
        },
    };
    proof {
        let a = seq![e];
        let b = seq![r];
        assert(a.drop_last() =~= Seq::<IdedEntryExpr>::empty());
        assert(b.drop_last() =~= Seq::<IdedEntryExpr>::empty());
        assert(entries_resolved(a.drop_last(), b.drop_last(), resolver.env()));
        assert(a.last() == e && b.last() == r);
    }
    r
}

fn resolve_entries(s: Vec<IdedEntryExpr>, resolver: &FunctionResolver<'_>) -> (r: Vec<
    IdedEntryExpr,
>)
    requires
        resolver.wf(),
    ensures
        entries_resolved(s@, r@, resolver.env()),
    decreases s, 1nat,
{
    let ghost whole = s@;
    let mut rest = s;
    let mut out: Vec<IdedEntryExpr> = Vec::new();
    let ghost mut k: int = 0;
    let n = rest.len();
    while rest.len() > 0
        invariant
            resolver.wf(),
            0 <= k <= whole.len(),
            n == whole.len(),
            out@.len() == k,
            rest@ == whole.subrange(k, whole.len() as int),
            entries_resolved(whole.subrange(0, k), out@, resolver.env()),
            forall|j: int| 0 <= j < whole.len() ==> decreases_to!(s => #[trigger] whole[j]),
        decreases rest@.len(),
    {
        let e = rest.remove(0);
        assert(e == whole[k]);
        assert(decreases_to!(s => whole[k]));
        let ghost before = out@;
        let r = resolve_entry(e, resolver);
        out.push(r);
        proof {
            let pre = whole.subrange(0, k + 1);
            assert(pre.drop_last() =~= whole.subrange(0, k));
            assert(out@.drop_last() =~= before);
            assert(pre.last() == e);
            assert(seq![e].last() == e && seq![r].last() == r);
            k = k + 1;
            assert(rest@ =~= whole.subrange(k, whole.len() as int));
        }
    }
    proof {
        assert(whole.subrange(0, k) =~= whole);
    }
    out
}

fn resolve_expr(e: Expr, resolver: &FunctionResolver<'_>) -> (r: Expr)
    requires
        resolver.wf(),
    ensures
        resolved(e, r, resolver.env()),
        hint_of(r) == hint_of(e),
    decreases e, 0nat,
{
    match e {
        Expr::Call(call) => {
            let target = match call.target {
                Some(t) => Some(Box::new(resolve_ided(*t, resolver))),
                None => None,
            };
            let args = resolve_all(call.args, resolver);
            let member = target.is_some();
            let mut hints: Vec<TypeHint> = Vec::new();
            let mut i: usize = 0;
            while i < args.len()
                invariant
                    i <= args@.len(),
                    hints@ == hints_of(args@).subrange(0, i as int),
                decreases args@.len() - i,
            {
                hints.push(expr_type_hint(&args[i].expr));
                i += 1;
                assert(hints@ =~= hints_of(args@).subrange(0, i as int));
            }
            assert(hints@ =~= hints_of(args@));
            let resolved_op = resolver.resolve_op(
                call.func_name.as_str(),
                member,
                hints.as_slice(),
            );
            Expr::Call(CallExpr { func_name: call.func_name, target, args, resolved_op })
        },
        Expr::Select(sel) => Expr::Select(
            SelectExpr {
                operand: Box::new(resolve_ided(*sel.operand, resolver)),
                field: sel.field,
                test: sel.test,
            },
        ),
        Expr::List(list) => Expr::List(
            ListExpr {
                elements: resolve_all(list.elements, resolver),
                optional_indices: list.optional_indices,
            },
        ),
        Expr::Dict(map) => Expr::Dict(
            MapExpr { entries: resolve_entries(map.entries, resolver) },
        ),
        Expr::Comprehension(comp) => {
            let c = *comp;
            Expr::Comprehension(
                Box::new(
                    ComprehensionExpr {
                        iter_range: resolve_ided(c.iter_range, resolver),
                        iter_var: c.iter_var,
                        iter_var2: c.iter_var2,
                        accu_var: c.accu_var,
                        accu_init: resolve_ided(c.accu_init, resolver),
                        loop_cond: resolve_ided(c.loop_cond, resolver),
                        loop_step: resolve_ided(c.loop_step, resolver),
                        result: resolve_ided(c.result, resolver),
                    },
                ),
            )
        },
        other => other,
    }
}

/// Resolves the calls of an expression as far as what is known of their arguments allows.
pub fn resolve_ast(expr: &mut IdedExpr, resolver: &FunctionResolver<'_>)
    requires
        resolver.wf(),
    ensures
        final(expr).id == old(expr).id,
        resolved(old(expr).expr, final(expr).expr, resolver.env()),
{
    let mut e = Expr::Unspecified;
    core::mem::swap(&mut expr.expr, &mut e);
    expr.expr = resolve_expr(e, resolver);
}

/// Values that the hints allow: as many, and each of the kind that its hint names, if any.
pub open spec fn allowed(hints: Seq<TypeHint>, args: Seq<Val>) -> bool {
    &&& hints.len() == args.len()
    &&& forall|i: int|
        0 <= i < hints.len() ==> (hint_kind(#[trigger] hints[i]) matches Some(k)
            ==> types::type_of(args[i]).kind == k)
}

/// A call that was not resolved, and that leads to the same overload whatever its arguments
/// are, or to none ahead of evaluation, or is told apart by its operator or target alone.
pub open spec fn sure_call(x: CallExpr, env: EnvModel) -> bool {
    let hints = hints_of(x.args@);
    let op = op_at(env, hinted(env, x.func_name@, x.target is Some, hints));
    &&& x.resolved_op is None
    &&& {
        ||| op is None
        ||| semantics::call_kind(ast::operator_of(x.func_name@), x.args@.len())
            != CallKind::General
        ||| x.target matches Some(t) && !(t.expr is Ident)
        ||| x.target is None && forall|args: Seq<Val>|
            allowed(hints, args) ==> #[trigger] env::find(env, x.func_name@, false, args) == op
    }
}

/// Every call of an expression is sure of its overload.
pub open spec fn sure(a: Expr, env: EnvModel) -> bool
    decreases a, 0nat,
{
    match a {
        Expr::Call(x) => {
            &&& sure_call(x, env)
            &&& x.target matches Some(t) ==> sure(t.expr, env)
            &&& all_sure(x.args@, env)
        },
        Expr::Select(x) => sure(x.operand.expr, env),
        Expr::List(x) => all_sure(x.elements@, env),
        Expr::Dict(x) => entries_sure(x.entries@, env),
        Expr::Comprehension(x) => {
            &&& sure(x.iter_range.expr, env)
            &&& sure(x.accu_init.expr, env)
            &&& sure(x.loop_cond.expr, env)
            &&& sure(x.loop_step.expr, env)
            &&& sure(x.result.expr, env)
        },
        _ => true,
    }
}

pub open spec fn all_sure(a: Seq<IdedExpr>, env: EnvModel) -> bool
    decreases a, 1nat,
{
    a.len() == 0 || (all_sure(a.drop_last(), env) && sure(a.last().expr, env))
}

pub open spec fn entries_sure(a: Seq<IdedEntryExpr>, env: EnvModel) -> bool
    decreases a, 1nat,
{
    a.len() == 0 || {
        &&& entries_sure(a.drop_last(), env)
        &&& match a.last().expr {
            EntryExpr::MapEntry(x) => sure(x.key.expr, env) && sure(x.value.expr, env),
            EntryExpr::StructField(x) => sure(x.value.expr, env),
        }
    }
}

/// Arguments have values that their hints allow.
proof fn lemma_hints_allow(a: Seq<IdedExpr>, p: Seq<usize>, c: Scope)
    ensures
        semantics::eval_args(a, p, c) matches Ok(v) ==> allowed(hints_of(a), v),
    decreases a.len(),
{
    if a.len() > 0 {
        lemma_hints_allow(a.drop_last(), p, c);
        match semantics::eval_args(a, p, c) {
            Ok(v) => {
                let hints = hints_of(a);
                let before = hints_of(a.drop_last());
                assert forall|i: int| 0 <= i < hints.len() implies (hint_kind(
                    #[trigger] hints[i],
                ) matches Some(k) ==> types::type_of(v[i]).kind == k) by {
                    if i < a.len() - 1 {
                        assert(before[i] == hints[i]);
                        assert(v[i] == semantics::eval_args(a.drop_last(), p, c)->Ok_0[i]);
                    } else {
                        assert(hints[i] == hint_of(a.last().expr));
                        assert(semantics::eval_expr(
                            a.last().expr,
                            to_arg(p, a.len() - 1),
                            c,
                        ) == Ok::<Val, Fault>(v[i]));
                    }
                }
            },
            Err(_) => {},
        }
    }
}

/// Resolving the calls of an expression ahead does not change what it means, where every
/// call is sure of its overload. Left out are calls with arguments of unknown types on whose
/// types the overload depends: they are resolved to the first that could be meant.
pub proof fn law_resolution_keeps(a: Expr, b: Expr, p: Seq<usize>, c: Scope)
    requires
        resolved(a, b, c.env),
        sure(a, c.env),
    ensures
        semantics::eval_expr(b, p, c) == semantics::eval_expr(a, p, c),
    decreases a, 0int,
{
    match (a, b) {
        (Expr::Call(x), Expr::Call(y)) => {
            lemma_call_kept(x, y, p, c);
        },
        (Expr::Select(x), Expr::Select(y)) => {
            law_resolution_keeps(x.operand.expr, y.operand.expr, to_target(p), c);
        },
        (Expr::List(x), Expr::List(y)) => {
            lemma_elements_kept(x.elements@, y.elements@, p, x.optional_indices@, c);
        },
        (Expr::Dict(x), Expr::Dict(y)) => {
            lemma_entries_kept(x.entries@, y.entries@, p, c);
        },
        (Expr::Comprehension(x), Expr::Comprehension(y)) => {
            law_resolution_keeps(x.accu_init.expr, y.accu_init.expr, p.push(1), c);
            law_resolution_keeps(x.iter_range.expr, y.iter_range.expr, p.push(0), c);
            match (
                semantics::eval_expr(x.accu_init.expr, p.push(1), c),
                semantics::eval_expr(x.iter_range.expr, p.push(0), c),
            ) {
                (Ok(init), Ok(range)) => {
                    match semantics::loop_items(range) {
                        Some(items) => {
                            lemma_loop_kept(*x, *y, p, c, items, range is Dict, 0, init);
                            match semantics::eval_loop(*x, p, c, items, range is Dict, 0, init) {
                                Ok(accu) => {
                                    law_resolution_keeps(
                                        x.result.expr,
                                        y.result.expr,
                                        p.push(4),
                                        context::bind(c, x.accu_var@, accu),
                                    );
                                },
                                Err(_) => {},
                            }
                        },
                        None => {},
                    }
                },
                _ => {},
            }
        },
        _ => {},
    }
}

proof fn lemma_call_kept(x: CallExpr, y: CallExpr, p: Seq<usize>, c: Scope)
    requires
        resolved(Expr::Call(x), Expr::Call(y), c.env),
        sure(Expr::Call(x), c.env),
    ensures
        semantics::eval_expr(Expr::Call(y), p, c) == semantics::eval_expr(Expr::Call(x), p, c),
    decreases x, 0int,
{
    lemma_args_kept(x.args@, y.args@, p, c);
    match (x.target, y.target) {
        (Some(t), Some(u)) => {
            lemma_target_kept(*t, *u, p, c);
        },
        _ => {},
    }
    assert(sure_call(x, c.env));
    lemma_outcome_kept(x, y, p, c);
}

proof fn lemma_target_kept(t: IdedExpr, u: IdedExpr, p: Seq<usize>, c: Scope)
    requires
        resolved(t.expr, u.expr, c.env),
        sure(t.expr, c.env),
    ensures
        semantics::eval_expr(u.expr, to_target(p), c) == semantics::eval_expr(
            t.expr,
            to_target(p),
            c,
        ),
        t.expr is Ident || u.expr is Ident ==> u.expr == t.expr,
    decreases t, 0int,
{
    law_resolution_keeps(t.expr, u.expr, to_target(p), c);
}

/// A call whose parts have the same outcomes has the same outcome.
proof fn lemma_outcome_kept(x: CallExpr, y: CallExpr, p: Seq<usize>, c: Scope)
    requires
        y.func_name == x.func_name,
        y.args@.len() == x.args@.len(),
        sure_call(x, c.env),
        y.resolved_op == op_at(
            c.env,
            hinted(c.env, x.func_name@, x.target is Some, hints_of(x.args@)),
        ),
        semantics::eval_args(y.args@, p, c) == semantics::eval_args(x.args@, p, c),
        forall|i: int|
            0 <= i < x.args@.len() ==> semantics::eval_expr(
                (#[trigger] y.args@[i]).expr,
                to_arg(p, i),
                c,
            )
                == semantics::eval_expr(x.args@[i].expr, to_arg(p, i), c),
        match (x.target, y.target) {
            (Some(t), Some(u)) => semantics::eval_expr(
                u.expr,
                to_target(p),
                c,
            ) == semantics::eval_expr(
                t.expr,
                to_target(p),
                c,
            ) && (t.expr is Ident || u.expr is Ident ==> u.expr == t.expr),
            (None, None) => true,
            _ => false,
        },
    ensures
        semantics::eval_expr(Expr::Call(y), p, c) == semantics::eval_expr(Expr::Call(x), p, c),
{
    if semantics::call_kind(ast::operator_of(x.func_name@), x.args@.len()) == CallKind::General {
        lemma_general_alike(x, y, p, c);
    } else {
        lemma_operator_alike(x, y, p, c);
    }
}

/// An operator on operands with the same outcomes has the same outcome.
proof fn lemma_operator_alike(x: CallExpr, y: CallExpr, p: Seq<usize>, c: Scope)
    requires
        y.func_name == x.func_name,
        y.args@.len() == x.args@.len(),
        semantics::call_kind(ast::operator_of(x.func_name@), x.args@.len()) != CallKind::General,
        forall|i: int|
            0 <= i < x.args@.len() ==> semantics::eval_expr(
                (#[trigger] y.args@[i]).expr,
                to_arg(p, i),
                c,
            )
                == semantics::eval_expr(x.args@[i].expr, to_arg(p, i), c),
    ensures
        semantics::eval_expr(Expr::Call(y), p, c) == semantics::eval_expr(Expr::Call(x), p, c),
{
    let n = x.args@.len();
    if n > 0 {
        assert(semantics::eval_expr(y.args@[0].expr, to_arg(p, 0), c) == semantics::eval_expr(
            x.args@[0].expr,
            to_arg(p, 0),
            c,
        ));
    }
    if n > 1 {
        assert(semantics::eval_expr(y.args@[1].expr, to_arg(p, 1), c) == semantics::eval_expr(
            x.args@[1].expr,
            to_arg(p, 1),
            c,
        ));
    }
    if n > 2 {
        assert(semantics::eval_expr(y.args@[2].expr, to_arg(p, 2), c) == semantics::eval_expr(
            x.args@[2].expr,
            to_arg(p, 2),
            c,
        ));
    }
}

/// A call with the same arguments has the same outcome, resolved or not.
proof fn lemma_general_alike(x: CallExpr, y: CallExpr, p: Seq<usize>, c: Scope)
    requires
        y.func_name == x.func_name,
        y.args@.len() == x.args@.len(),
        semantics::call_kind(ast::operator_of(x.func_name@), x.args@.len()) == CallKind::General,
        sure_call(x, c.env),
        y.resolved_op == op_at(
            c.env,
            hinted(c.env, x.func_name@, x.target is Some, hints_of(x.args@)),
        ),
        semantics::eval_args(y.args@, p, c) == semantics::eval_args(x.args@, p, c),
        match (x.target, y.target) {
            (Some(t), Some(u)) => semantics::eval_expr(
                u.expr,
                to_target(p),
                c,
            ) == semantics::eval_expr(
                t.expr,
                to_target(p),
                c,
            ) && (t.expr is Ident || u.expr is Ident ==> u.expr == t.expr),
            (None, None) => true,
            _ => false,
        },
    ensures
        semantics::eval_expr(Expr::Call(y), p, c) == semantics::eval_expr(Expr::Call(x), p, c),
{
    if x.target is None && y.resolved_op is Some {
        lemma_hints_allow(x.args@, p, c);
        match semantics::eval_args(x.args@, p, c) {
            Ok(v) => {
                assert(env::find(c.env, x.func_name@, false, v) == y.resolved_op);
            },
            Err(_) => {},
        }
    }
}

proof fn lemma_args_kept(a: Seq<IdedExpr>, b: Seq<IdedExpr>, p: Seq<usize>, c: Scope)
    requires
        all_resolved(a, b, c.env),
        all_sure(a, c.env),
    ensures
        a.len() == b.len(),
        semantics::eval_args(b, p, c) == semantics::eval_args(a, p, c),
        forall|i: int|
            0 <= i < a.len() ==> semantics::eval_expr((#[trigger] b[i]).expr, to_arg(p, i), c)
                == semantics::eval_expr(a[i].expr, to_arg(p, i), c),
    decreases a, 0int,
{
    if a.len() > 0 {
        lemma_args_kept(a.drop_last(), b.drop_last(), p, c);
        law_resolution_keeps(a.last().expr, b.last().expr, to_arg(p, a.len() - 1), c);
        assert forall|i: int| 0 <= i < a.len() implies semantics::eval_expr(
            (#[trigger] b[i]).expr,
            to_arg(p, i),
            c,
        ) == semantics::eval_expr(a[i].expr, to_arg(p, i), c) by {
            if i < a.len() - 1 {
                assert(b.drop_last()[i] == b[i]);
                assert(a.drop_last()[i] == a[i]);
            }
        }
    }
}

proof fn lemma_elements_kept(
    a: Seq<IdedExpr>,
    b: Seq<IdedExpr>,
    p: Seq<usize>,
    optional: Seq<usize>,
    c: Scope,
)
    requires
        all_resolved(a, b, c.env),
        all_sure(a, c.env),
    ensures
        semantics::eval_elements(b, p, optional, c) == semantics::eval_elements(a, p, optional, c),
    decreases a, 0int,
{
    if a.len() > 0 {
        lemma_elements_kept(a.drop_last(), b.drop_last(), p, optional, c);
        law_resolution_keeps(a.last().expr, b.last().expr, to_arg(p, a.len() - 1), c);
    }
}

proof fn lemma_entries_kept(a: Seq<IdedEntryExpr>, b: Seq<IdedEntryExpr>, p: Seq<usize>, c: Scope)
    requires
        entries_resolved(a, b, c.env),
        entries_sure(a, c.env),
    ensures
        semantics::eval_entries(b, p, c) == semantics::eval_entries(a, p, c),
    decreases a, 0int,
{
    if a.len() > 0 {
        lemma_entries_kept(a.drop_last(), b.drop_last(), p, c);
        match (a.last().expr, b.last().expr) {
            (EntryExpr::MapEntry(x), EntryExpr::MapEntry(y)) => {
                law_resolution_keeps(x.key.expr, y.key.expr, to_arg(p, a.len() - 1).push(0), c);
                law_resolution_keeps(x.value.expr, y.value.expr, to_arg(p, a.len() - 1).push(1), c);
            },
            _ => {},
        }
    }
}

proof fn lemma_loop_kept(
    x: ComprehensionExpr,
    y: ComprehensionExpr,
    p: Seq<usize>,
    c: Scope,
    items: Seq<Val>,
    is_map: bool,
    i: int,
    accu: Val,
)
    requires
        y.iter_var == x.iter_var,
        y.iter_var2 == x.iter_var2,
        y.accu_var == x.accu_var,
        resolved(x.loop_cond.expr, y.loop_cond.expr, c.env),
        resolved(x.loop_step.expr, y.loop_step.expr, c.env),
        sure(x.loop_cond.expr, c.env),
        sure(x.loop_step.expr, c.env),
    ensures
        semantics::eval_loop(y, p, c, items, is_map, i, accu) == semantics::eval_loop(
            x,
            p,
            c,
            items,
            is_map,
            i,
            accu,
        ),
    decreases x, items.len() - i,
{
    if 0 <= i < items.len() {
        let inner = context::bind(
            semantics::bind_item(
                context::in_round(c, i as usize),
                x.iter_var@,
                semantics::opt_name(x.iter_var2),
                is_map,
                items[i],
            ),
            x.accu_var@,
            accu,
        );
        assert(inner.env == c.env);
        law_resolution_keeps(x.loop_cond.expr, y.loop_cond.expr, p.push(2), inner);
        law_resolution_keeps(x.loop_step.expr, y.loop_step.expr, p.push(3), inner);
        match semantics::eval_expr(x.loop_step.expr, p.push(3), inner) {
            Ok(next) => {
                lemma_loop_kept(x, y, p, c, items, is_map, i + 1, next);
            },
            Err(_) => {},
        }
    }
}

/// Where the types of all the arguments are known and the overloads name plain types, a call
/// is sure of its overload.
pub proof fn law_known_types_sure(x: CallExpr, env: EnvModel)
    requires
        x.resolved_op is None,
        x.target is None,
        forall|i: int|
            0 <= i < x.args@.len() ==> hint_of((#[trigger] x.args@[i]).expr) != TypeHint::Unknown,
        env::lookup(env.functions, x.func_name@) matches Some(s) ==> plain(s),
    ensures
        sure_call(x, env),
{
    let hints = hints_of(x.args@);
    assert forall|args: Seq<Val>| allowed(hints, args) implies #[trigger] env::find(
        env,
        x.func_name@,
        false,
        args,
    ) == op_at(env, hinted(env, x.func_name@, false, hints)) by {
        assert forall|i: int| 0 <= i < hints.len() implies hint_kind(#[trigger] hints[i]) == Some(
            types::type_of(args[i]).kind,
        ) by {
            assert(hints[i] == hint_of(x.args@[i].expr));
        }
        law_hints_agree(env, x.func_name@, false, hints, args);
    }
}

} // verus!
