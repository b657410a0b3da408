//! Lists of names (servos, cameras) compared by their text.

use vstd::prelude::*;

verus! {

/// The names of a list of strings.
pub open spec fn names(list: Seq<String>) -> Seq<Seq<char>> {
    list.map_values(|s: String| s@)
}

/// The name held by an optional string.
pub open spec fn opt_name(s: Option<String>) -> Option<Seq<char>> {
    match s {
        Some(s) => Some(s@),
        None => None,
    }
}

/// Position of the first entry of `list` with the given name.
pub fn position_of(list: &Vec<String>, name: &String) -> (p: Option<usize>)
    ensures
        p == (match names(list@).index_of_first(name@) {
            Some(i) => Some(i as usize),
            None => None,
        }),
{
    let ghost ns = names(list@);
    proof {
        ns.index_of_first_ensures(name@);
    }
    let mut i: usize = 0;
    while i < list.len()
        invariant
            ns == names(list@),
            ns.len() == list@.len(),
            i <= list@.len(),
            forall|j: int| 0 <= j < i ==> ns[j] != name@,
        decreases list@.len() - i,
    {
        if list[i] == *name {
            proof {
                assert(ns[i as int] == name@);
                assert(ns.contains(name@));
                ns.index_of_first_ensures(name@);
                let k = ns.index_of_first(name@).unwrap();
                if k < i {
                    assert(ns[k] != name@);
                }
                if k > i {
                    assert(ns[i as int] != name@);
                }
            }
            return Some(i);
        }
        i = i + 1;
    }
    proof {
        if ns.contains(name@) {
            let k = choose|k: int| 0 <= k < ns.len() && ns[k] == name@;
            assert(ns[k] != name@);
        }
    }
    None
}

/// Whether `list` has an entry with the given name.
pub fn contains_name(list: &Vec<String>, name: &String) -> (b: bool)
    ensures
        b == names(list@).contains(name@),
{
    let p = position_of(list, name);
    proof {
        names(list@).index_of_first_ensures(name@);
    }
    p.is_some()
}



} // verus!
