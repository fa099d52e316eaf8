//! Tables from names to things, kept as vectors in the order of the names.

use crate::strings;
use vstd::prelude::*;

verus! {

/// The names of a table.
pub open spec fn names<T>(s: Seq<(String, T)>) -> Seq<Seq<char>> {
    s.map_values(|e: (String, T)| e.0@)
}

/// The names rise.
pub open spec fn rising(names: Seq<Seq<char>>) -> bool {
    forall|i: int, j: int| 0 <= i < j < names.len() ==> strings::text_lt(names[i], names[j])
}

/// The first position, from `from` on, of a name that does not come before `k`.
pub open spec fn lower_bound(names: Seq<Seq<char>>, k: Seq<char>, from: int) -> int
    decreases names.len() - from,
{
    if from >= names.len() {
        names.len() as int
    } else if strings::text_lt(names[from], k) {
        lower_bound(names, k, from + 1)
    } else {
        from
    }
}

/// The position of a name.
pub open spec fn position(names: Seq<Seq<char>>, k: Seq<char>) -> Option<int> {
    let i = lower_bound(names, k, 0);
    if i < names.len() && names[i] == k {
        Some(i)
    } else {
        None
    }
}

/// A sequence in which the entry of a name was replaced, or put in its place.
pub open spec fn put_entry<E>(s: Seq<E>, names: Seq<Seq<char>>, k: Seq<char>, e: E) -> Seq<E> {
    match position(names, k) {
        Some(i) => s.update(i, e),
        None => s.insert(lower_bound(names, k, 0), e),
    }
}

pub proof fn lemma_lower_bound(names: Seq<Seq<char>>, k: Seq<char>, from: int)
    requires
        0 <= from <= names.len(),
    ensures
        from <= lower_bound(names, k, from) <= names.len(),
        forall|j: int|
            from <= j < lower_bound(names, k, from) ==> strings::text_lt(#[trigger] names[j], k),
        lower_bound(names, k, from) < names.len() ==> !strings::text_lt(
            names[lower_bound(names, k, from)],
            k,
        ),
    decreases names.len() - from,
{
    if from < names.len() && strings::text_lt(names[from], k) {
        lemma_lower_bound(names, k, from + 1);
    }
}

/// In a table whose names rise, a name is found wherever it stands.
pub proof fn lemma_position(names: Seq<Seq<char>>, k: Seq<char>)
    requires
        rising(names),
    ensures
        position(names, k) is Some <==> names.contains(k),
        forall|i: int| 0 <= i < names.len() && names[i] == k ==> position(names, k) == Some(i),
{
    let b = lower_bound(names, k, 0);
    lemma_lower_bound(names, k, 0);
    assert forall|i: int| 0 <= i < names.len() && names[i] == k implies position(names, k) == Some(
        i,
    ) by {
        strings::lemma_text_lt_irreflexive(k);
        if b < i {
            assert(strings::text_lt(names[b], names[i]));
        }
    }
}

/// Putting an entry keeps the names rising and makes its name found; of the other names the
/// same are found as before.
pub proof fn law_put(
    names: Seq<Seq<char>>,
    k: Seq<char>,
    other: Seq<char>,
)
    requires
        rising(names),
    ensures
        rising(put_entry(names, names, k, k)),
        position(put_entry(names, names, k, k), k) is Some,
        other != k ==> (position(put_entry(names, names, k, k), other) is Some <==> position(
            names,
            other,
        ) is Some),
{
    let t = put_entry(names, names, k, k);
    let b = lower_bound(names, k, 0);
    lemma_lower_bound(names, k, 0);
    lemma_position(names, k);
    match position(names, k) {
        Some(i) => {
            assert(t =~= names);
        },
        None => {
            assert forall|i: int, j: int| 0 <= i < j < t.len() implies strings::text_lt(
                t[i],
                t[j],
            ) by {
                if j == b {
                    assert(t[i] == names[i]);
                } else if i == b {
                    assert(t[j] == names[j - 1]);
                    strings::lemma_text_lt_total(names[b], k);
                    if j - 1 > b {
                        strings::lemma_text_lt_transitive(k, names[b], names[j - 1]);
                    }
                } else {
                    let i0 = if i < b {
                        i
                    } else {
                        i - 1
                    };
                    let j0 = if j < b {
                        j
                    } else {
                        j - 1
                    };
                    assert(t[i] == names[i0] && t[j] == names[j0]);
                }
            }
        },
    }
    assert(rising(t));
    match position(names, k) {
        Some(i) => {
            assert(t[i] == k);
        },
        None => {
            assert(t[b] == k);
        },
    }
    lemma_position(t, k);
    lemma_position(t, other);
    lemma_position(names, other);
    if other != k {
        if names.contains(other) {
            let i = choose|i: int| 0 <= i < names.len() && names[i] == other;
            if position(names, k) is Some || i < b {
                assert(t[i] == other);
            } else {
                assert(t[i + 1] == other);
            }
        }
        if t.contains(other) {
            let i = choose|i: int| 0 <= i < t.len() && t[i] == other;
            if position(names, k) is Some || i < b {
                assert(names[i] == other);
            } else {
                assert(names[i - 1] == other);
            }
        }
    }
}

fn find_bound<T>(s: &Vec<(String, T)>, k: &str) -> (r: usize)
    ensures
        r == lower_bound(names(s@), k@, 0),
        r <= s@.len(),
{
    let mut i: usize = 0;
    while i < s.len() && strings::str_lt(s[i].0.as_str(), k)
        invariant
            i <= s@.len(),
            lower_bound(names(s@), k@, 0) == lower_bound(names(s@), k@, i as int),
        decreases s@.len() - i,
    {
        assert(names(s@)[i as int] == s@[i as int].0@);
        i += 1;
    }
    if i < s.len() {
        assert(names(s@)[i as int] == s@[i as int].0@);
    }
    i
}

/// The position of a name.
pub(crate) fn find<T>(s: &Vec<(String, T)>, k: &str) -> (r: Option<usize>)
    ensures
        match r {
            Some(i) => i < s@.len() && position(names(s@), k@) == Some(i as int) && s@[i as int].0@
                == k@,
            None => position(names(s@), k@) is None,
        },
{
    let i = find_bound(s, k);
    if i < s.len() {
        assert(names(s@)[i as int] == s@[i as int].0@);
        if strings::str_eq(s[i].0.as_str(), k) {
            return Some(i);
        }
    }
    None
}

/// Gives a name an entry.
pub(crate) fn put<T>(s: &mut Vec<(String, T)>, k: String, x: T)
    ensures
        final(s)@ == put_entry(old(s)@, names(old(s)@), k@, (k, x)),
{
    match find(&*s, k.as_str()) {
        Some(i) => {
            s.set(i, (k, x));
        },
        None => {
            let i = find_bound(&*s, k.as_str());
            s.insert(i, (k, x));
        },
    }
}

} // verus!
