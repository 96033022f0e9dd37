//! Name-keyed tables kept as vectors of entries with distinct names: the
//! shapes, functions and template parameters that the ownership analysis looks up.

use vstd::prelude::*;
use crate::compiler::ast::{copy_strings, view_strings};
use crate::compiler::signature::{view_funcs, view_shapes};
use crate::text::str_eq;

verus! {

/// The value of the first entry named `name`.
pub open spec fn find_entry<V>(t: Seq<(Seq<char>, V)>, name: Seq<char>) -> Option<V>
    decreases t.len(),
{
    if t.len() == 0 {
        None
    } else if t[0].0 == name {
        Some(t[0].1)
    } else {
        find_entry(t.drop_first(), name)
    }
}

/// The position of the first entry named `name`.
pub open spec fn entry_index<V>(t: Seq<(Seq<char>, V)>, name: Seq<char>) -> Option<nat>
    decreases t.len(),
{
    if t.len() == 0 {
        None
    } else if t[0].0 == name {
        Some(0)
    } else {
        match entry_index(t.drop_first(), name) {
            Some(i) => Some(i + 1),
            None => None,
        }
    }
}

/// Inserting `(name, v)`: the entry named `name` takes the new value, or the
/// pair is appended when there is none.
pub open spec fn table_insert<V>(t: Seq<(Seq<char>, V)>, name: Seq<char>, v: V) -> Seq<(Seq<char>, V)> {
    match entry_index(t, name) {
        Some(i) => t.update(i as int, (name, v)),
        None => t.push((name, v)),
    }
}

pub proof fn lemma_entry_index<V>(t: Seq<(Seq<char>, V)>, name: Seq<char>)
    ensures
        entry_index(t, name) matches Some(i) ==> i < t.len() && t[i as int].0 == name && find_entry(t, name)
            == Some(t[i as int].1) && forall|j: int| 0 <= j < i ==> t[j].0 != name,
        entry_index(t, name) is None ==> find_entry(t, name) is None && forall|j: int|
            0 <= j < t.len() ==> t[j].0 != name,
    decreases t.len(),
{
    if t.len() > 0 && t[0].0 != name {
        lemma_entry_index(t.drop_first(), name);
        assert forall|j: int| 0 < j < t.len() implies t[j] == t.drop_first()[j - 1] by {}
    }
}

/// The first entry with a name has that name's value, whatever comes after.
pub proof fn lemma_find_entry_first<V>(t: Seq<(Seq<char>, V)>, name: Seq<char>, i: int)
    requires
        0 <= i < t.len(),
        t[i].0 == name,
        forall|j: int| 0 <= j < i ==> t[j].0 != name,
    ensures
        find_entry(t, name) == Some(t[i].1),
    decreases i,
{
    if i > 0 {
        lemma_find_entry_first(t.drop_first(), name, i - 1);
    }
}

/// No entry with a name: nothing is found for it.
pub proof fn lemma_find_entry_none<V>(t: Seq<(Seq<char>, V)>, name: Seq<char>)
    requires
        forall|j: int| 0 <= j < t.len() ==> t[j].0 != name,
    ensures
        find_entry(t, name) is None,
    decreases t.len(),
{
    if t.len() > 0 {
        lemma_find_entry_none(t.drop_first(), name);
    }
}

/// A lookup gives back what was last inserted under a name, and inserting
/// under one name leaves the lookups of every other name as they were.
pub proof fn lemma_table_insert<V>(t: Seq<(Seq<char>, V)>, name: Seq<char>, v: V, other: Seq<char>)
    ensures
        find_entry(table_insert(t, name, v), name) == Some(v),
        other != name ==> find_entry(table_insert(t, name, v), other) == find_entry(t, other),
{
    lemma_entry_index(t, name);
    lemma_entry_index(t, other);
    let u = table_insert(t, name, v);
    match entry_index(t, name) {
        Some(i) => {
            lemma_find_entry_first(u, name, i as int);
            if other != name {
                match entry_index(t, other) {
                    Some(k) => lemma_find_entry_first(u, other, k as int),
                    None => lemma_find_entry_none(u, other),
                }
            }
        },
        None => {
            lemma_find_entry_first(u, name, t.len() as int);
            if other != name {
                match entry_index(t, other) {
                    Some(k) => lemma_find_entry_first(u, other, k as int),
                    None => lemma_find_entry_none(u, other),
                }
            }
        },
    }
}

/// The number stored under `name`.
pub fn lookup_number(t: &Vec<(String, usize)>, name: &str) -> (r: Option<usize>)
    ensures
        r == find_entry(view_funcs(t@), name@),
{
    let ghost tv = view_funcs(t@);
    let mut i: usize = 0;
    proof {
        assert(tv.skip(0) =~= tv);
    }
    while i < t.len()
        invariant
            i <= t@.len(),
            tv == view_funcs(t@),
            find_entry(tv, name@) == find_entry(tv.skip(i as int), name@),
        decreases t@.len() - i,
    {
        proof {
            assert(tv.skip(i as int).drop_first() =~= tv.skip(i + 1));
            assert(tv.skip(i as int)[0] == tv[i as int]);
        }
        if str_eq(t[i].0.as_str(), name) {
            return Some(t[i].1);
        }
        i = i + 1;
    }
    None
}

/// The position of the entry named `name`, if there is one.
fn position_of_shape(t: &Vec<(String, Vec<String>)>, name: &str) -> (r: Option<usize>)
    ensures
        match r {
            Some(i) => entry_index(view_shapes(t@), name@) == Some(i as nat),
            None => entry_index(view_shapes(t@), name@) is None,
        },
{
    let ghost tv = view_shapes(t@);
    let mut i: usize = 0;
    proof {
        assert(tv.skip(0) =~= tv);
    }
    while i < t.len()
        invariant
            i <= t@.len(),
            tv == view_shapes(t@),
            entry_index(tv, name@) == match entry_index(tv.skip(i as int), name@) {
                Some(k) => Some((k + i) as nat),
                None => None,
            },
        decreases t@.len() - i,
    {
        proof {
            assert(tv.skip(i as int).drop_first() =~= tv.skip(i + 1));
            assert(tv.skip(i as int)[0] == tv[i as int]);
        }
        if str_eq(t[i].0.as_str(), name) {
            return Some(i);
        }
        i = i + 1;
    }
    None
}

/// The position of the entry named `name`, if there is one.
fn position_of_number(t: &Vec<(String, usize)>, name: &str) -> (r: Option<usize>)
    ensures
        match r {
            Some(i) => entry_index(view_funcs(t@), name@) == Some(i as nat),
            None => entry_index(view_funcs(t@), name@) is None,
        },
{
    let ghost tv = view_funcs(t@);
    let mut i: usize = 0;
    proof {
        assert(tv.skip(0) =~= tv);
    }
    while i < t.len()
        invariant
            i <= t@.len(),
            tv == view_funcs(t@),
            entry_index(tv, name@) == match entry_index(tv.skip(i as int), name@) {
                Some(k) => Some((k + i) as nat),
                None => None,
            },
        decreases t@.len() - i,
    {
        proof {
            assert(tv.skip(i as int).drop_first() =~= tv.skip(i + 1));
            assert(tv.skip(i as int)[0] == tv[i as int]);
        }
        if str_eq(t[i].0.as_str(), name) {
            return Some(i);
        }
        i = i + 1;
    }
    None
}

/// The fields stored under `name`, copied.
pub fn lookup_fields(t: &Vec<(String, Vec<String>)>, name: &str) -> (r: Option<Vec<String>>)
    ensures
        match (r, find_entry(view_shapes(t@), name@)) {
            (Some(a), Some(b)) => view_strings(a@) == b,
            (None, None) => true,
            _ => false,
        },
{
    proof {
        lemma_entry_index(view_shapes(t@), name@);
    }
    match position_of_shape(t, name) {
        Some(i) => {
            let f = copy_strings(&t[i].1);
            proof {
                assert(view_strings(t@[i as int].1@) =~= t@[i as int].1@.map_values(|s: String| s@));
            }
            Some(f)
        },
        None => None,
    }
}

/// Stores `n` under `name`, replacing the number stored there before.
pub fn insert_number(t: &mut Vec<(String, usize)>, name: String, n: usize)
    ensures
        view_funcs(final(t)@) == table_insert(view_funcs(old(t)@), name@, n),
{
    let ghost tv = view_funcs(t@);
    let ghost nv = name@;
    proof {
        lemma_entry_index(tv, nv);
    }
    match position_of_number(t, name.as_str()) {
        Some(i) => {
            t.set(i, (name, n));
            proof {
                assert(view_funcs(t@) =~= tv.update(i as int, (nv, n)));
            }
        },
        None => {
            t.push((name, n));
            proof {
                assert(view_funcs(t@) =~= tv.push((nv, n)));
            }
        },
    }
}

/// Stores `fields` under `name`, replacing the fields stored there before.
pub fn insert_fields(t: &mut Vec<(String, Vec<String>)>, name: String, fields: Vec<String>)
    ensures
        view_shapes(final(t)@) == table_insert(view_shapes(old(t)@), name@, view_strings(fields@)),
{
    let ghost tv = view_shapes(t@);
    let ghost nv = name@;
    let ghost fv = view_strings(fields@);
    proof {
        assert(fields@.map_values(|s: String| s@) =~= fv);
        lemma_entry_index(tv, nv);
    }
    match position_of_shape(t, name.as_str()) {
        Some(i) => {
            t.set(i, (name, fields));
            proof {
                assert(view_shapes(t@) =~= tv.update(i as int, (nv, fv)));
            }
        },
        None => {
            t.push((name, fields));
            proof {
                assert(view_shapes(t@) =~= tv.push((nv, fv)));
            }
        },
    }
}

/// The text stored under `name`.
pub fn lookup_text(t: &Vec<(String, String)>, name: &str) -> (r: Option<String>)
    ensures
        match (r, find_entry(t@.map_values(|p: (String, String)| (p.0@, p.1@)), name@)) {
            (Some(a), Some(b)) => a@ == b,
            (None, None) => true,
            _ => false,
        },
{
    let ghost tv = t@.map_values(|p: (String, String)| (p.0@, p.1@));
    let mut i: usize = 0;
    proof {
        assert(tv.skip(0) =~= tv);
    }
    while i < t.len()
        invariant
            i <= t@.len(),
            tv == t@.map_values(|p: (String, String)| (p.0@, p.1@)),
            find_entry(tv, name@) == find_entry(tv.skip(i as int), name@),
        decreases t@.len() - i,
    {
        proof {
            assert(tv.skip(i as int).drop_first() =~= tv.skip(i + 1));
            assert(tv.skip(i as int)[0] == tv[i as int]);
        }
        if str_eq(t[i].0.as_str(), name) {
            return Some(crate::text::copy_string(&t[i].1));
        }
        i = i + 1;
    }
    None
}

} // verus!
