//! Declarations of functions and their overloads.

use crate::common::functions::Function;
use crate::common::types;
use crate::common::types::{Type, TypeModel};
use crate::objects;
use crate::objects::{Val, Value};
use crate::strings;
use vstd::prelude::*;

verus! {

/// One way to call a function.
#[derive(Debug)]
pub struct OverloadDecl {
    pub id: String,
    pub arg_types: Vec<Type>,
    pub member_function: bool,
    pub op: Function,
}

/// A function: its name and its overloads, in the order in which they were declared.
#[derive(Debug)]
pub struct FunctionDecl {
    pub name: String,
    pub overloads: Vec<OverloadDecl>,
}

/// What an [`OverloadDecl`] stands for.
pub struct Overload {
    pub id: Seq<char>,
    pub arg_types: Seq<TypeModel>,
    pub member_function: bool,
    pub op: Function,
}

impl View for OverloadDecl {
    type V = Overload;

    open spec fn view(&self) -> Overload {
        Overload {
            id: self.id@,
            arg_types: types::types_view(self.arg_types@),
            member_function: self.member_function,
            op: self.op,
        }
    }
}

impl View for FunctionDecl {
    type V = Seq<Overload>;

    /// The overloads.
    open spec fn view(&self) -> Seq<Overload> {
        self.overloads@.map_values(|o: OverloadDecl| o@)
    }
}

/// The arguments fit the overload: in number, and each in its type.
pub open spec fn accepts(o: Overload, member_function: bool, args: Seq<Val>) -> bool {
    &&& o.member_function == member_function
    &&& args.len() == o.arg_types.len()
    &&& forall|i: int|
        0 <= i < args.len() ==> types::assignable(#[trigger] o.arg_types[i], args[i])
}

/// The position, from `from` on, of the first overload that the arguments fit.
pub open spec fn first_accepting(
    s: Seq<Overload>,
    member_function: bool,
    args: Seq<Val>,
    from: int,
) -> Option<int>
    decreases s.len() - from,
{
    if from < 0 || from >= s.len() {
        None
    } else if accepts(s[from], member_function, args) {
        Some(from)
    } else {
        first_accepting(s, member_function, args, from + 1)
    }
}

/// The function of the first overload that the arguments fit.
pub open spec fn overload_for(s: Seq<Overload>, member_function: bool, args: Seq<Val>) -> Option<
    Function,
> {
    match first_accepting(s, member_function, args, 0) {
        Some(i) => Some(s[i].op),
        None => None,
    }
}

/// An overload clashes with one that is there: by its id, or by how it is called.
pub open spec fn clashes(s: Seq<Overload>, o: Overload) -> bool {
    exists|i: int|
        0 <= i < s.len() && ((#[trigger] s[i]).id == o.id || (s[i].member_function
            == o.member_function && s[i].arg_types == o.arg_types))
}

/// No two overloads have an id in common, and no two are called alike.
pub open spec fn distinct(s: Seq<Overload>) -> bool {
    forall|i: int, j: int|
        #![trigger s[i], s[j]]
        0 <= i < j < s.len() ==> s[i].id != s[j].id && !(s[i].member_function
            == s[j].member_function && s[i].arg_types == s[j].arg_types)
}

impl OverloadDecl {
    /// Whether the arguments fit.
    pub fn accepts(&self, member_function: bool, args: &[Value]) -> (r: bool)
        ensures
            r == accepts(self@, member_function, objects::values_view(args@)),
    {
        if self.member_function != member_function || args.len() != self.arg_types.len() {
            return false;
        }
        let ghost vs = objects::values_view(args@);
        let mut i: usize = 0;
        while i < args.len()
            invariant
                i <= args@.len(),
                args@.len() == self.arg_types@.len(),
                vs == objects::values_view(args@),
                forall|j: int|
                    0 <= j < i ==> types::assignable(#[trigger] self@.arg_types[j], vs[j]),
            decreases args@.len() - i,
        {
            if !self.arg_types[i].is_assignable(&args[i]) {
                assert(!types::assignable(self@.arg_types[i as int], vs[i as int]));
                return false;
            }
            i += 1;
        }
        true
    }
}

impl FunctionDecl {
    /// A function without overloads.
    pub fn new(name: &str) -> (r: FunctionDecl)
        ensures
            r.name@ == name@,
            r@ == Seq::<Overload>::empty(),
    {
        let r = FunctionDecl { name: name.to_owned(), overloads: Vec::new() };
        assert(r@ =~= Seq::<Overload>::empty());
        r
    }

    /// The function of the first overload that the arguments fit.
    pub fn find_overload(&self, member_function: bool, args: &[Value]) -> (r: Option<Function>)
        ensures
            r == overload_for(self@, member_function, objects::values_view(args@)),
    {
        let ghost vs = objects::values_view(args@);
        let mut i: usize = 0;
        while i < self.overloads.len()
            invariant
                i <= self.overloads@.len(),
                vs == objects::values_view(args@),
                first_accepting(self@, member_function, vs, 0) == first_accepting(
                    self@,
                    member_function,
                    vs,
                    i as int,
                ),
            decreases self.overloads@.len() - i,
        {
            assert(self@[i as int] == self.overloads@[i as int]@);
            if self.overloads[i].accepts(member_function, args) {
                return Some(self.overloads[i].op);
            }
            i += 1;
        }
        None
    }

    /// Adds an overload, unless one is there that it clashes with.
    pub fn add_overload(
        &mut self,
        id: String,
        member_function: bool,
        arg_types: Vec<Type>,
        op: Function,
    ) -> (r: Result<(), ()>)
        ensures
            final(self).name == old(self).name,
            ({
                let o = Overload {
                    id: id@,
                    arg_types: types::types_view(arg_types@),
                    member_function,
                    op,
                };
                if clashes(old(self)@, o) {
                    r is Err && final(self)@ == old(self)@
                } else {
                    r is Ok && final(self)@ == old(self)@.push(o)
                }
            }),
    {
        if self.is_present(id.as_str(), member_function, arg_types.as_slice(), op) {
            return Err(());
        }
        let o = OverloadDecl { id, arg_types, member_function, op };
        self.overloads.push(o);
        assert(self@ =~= old(self)@.push(o@));
        Ok(())
    }

    fn is_present(&self, id: &str, member_function: bool, arg_types: &[Type], op: Function) -> (r:
        bool)
        ensures
            r == clashes(
                self@,
                (Overload {
                    id: id@,
                    arg_types: types::types_view(arg_types@),
                    member_function,
                    op,
                }),
            ),
    {
        let mut i: usize = 0;
        while i < self.overloads.len()
            invariant
                i <= self.overloads@.len(),
                forall|j: int|
                    0 <= j < i ==> !((#[trigger] self@[j]).id == id@ || (self@[j].member_function
                        == member_function && self@[j].arg_types == types::types_view(
                        arg_types@,
                    ))),
            decreases self.overloads@.len() - i,
        {
            let o = &self.overloads[i];
            assert(self@[i as int] == o@);
            if strings::str_eq(o.id.as_str(), id) || (o.member_function == member_function
                && types::types_same(o.arg_types.as_slice(), arg_types)) {
                return true;
            }
            i += 1;
        }
        false
    }
}

/// An overload that was added is found by arguments that fit it, if none before it fits,
/// and what was found before is found still.
pub proof fn law_added_overload_found(
    s: Seq<Overload>,
    o: Overload,
    member_function: bool,
    args: Seq<Val>,
)
    ensures
        overload_for(s, member_function, args) matches Some(f) ==> overload_for(
            s.push(o),
            member_function,
            args,
        ) == Some(f),
        overload_for(s, member_function, args) is None && accepts(o, member_function, args)
            ==> overload_for(s.push(o), member_function, args) == Some(o.op),
{
    lemma_accepting_push(s, o, member_function, args, 0);
}

proof fn lemma_accepting_push(
    s: Seq<Overload>,
    o: Overload,
    member_function: bool,
    args: Seq<Val>,
    from: int,
)
    requires
        0 <= from <= s.len(),
    ensures
        first_accepting(s.push(o), member_function, args, from) == (match first_accepting(
            s,
            member_function,
            args,
            from,
        ) {
            Some(i) => Some(i),
            None => if accepts(o, member_function, args) {
                Some(s.len() as int)
            } else {
                None
            },
        }),
        first_accepting(s, member_function, args, from) matches Some(i) ==> from <= i < s.len(),
    decreases s.len() - from,
{
    if from < s.len() {
        if !accepts(s[from], member_function, args) {
            lemma_accepting_push(s, o, member_function, args, from + 1);
        }
    } else {
        assert(first_accepting(s.push(o), member_function, args, from + 1) is None);
    }
}

} // verus!
