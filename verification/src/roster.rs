//! Verified operations on rosters: the id and name lists that the actors
//! key their channel tables by.
//!
//! A room keeps the ids of its connected users and the names of its peer
//! rooms; a user keeps the names of the rooms it subscribed to. All three
//! are rosters: duplicate-free lists with membership, insertion and
//! removal.

use vstd::prelude::*;

use crate::json::str_eq;

verus! {

broadcast use vstd::std_specs::vec::group_vec_axioms;

/// No element occurs twice.
pub open spec fn unique_seq<A>(s: Seq<A>) -> bool {
    forall|i: int, j: int| 0 <= i < j < s.len() ==> s[i] != s[j]
}

/// The character sequences of a list of names, in order.
pub open spec fn name_views(s: Seq<String>) -> Seq<Seq<char>> {
    s.map_values(|n: String| n@)
}

/// `s` with every occurrence of `x` dropped, in order.
pub open spec fn seq_drop<A>(s: Seq<A>, x: A) -> Seq<A>
    decreases s.len(),
{
    if s.len() == 0 {
        Seq::empty()
    } else {
        let init = seq_drop(s.drop_last(), x);
        if s.last() == x {
            init
        } else {
            init.push(s.last())
        }
    }
}

/// Membership looks one element deeper: a sequence holds `y` exactly when
/// its last element is `y` or the rest holds `y`.
pub proof fn lemma_contains_split<A>(s: Seq<A>, y: A)
    requires
        s.len() > 0,
    ensures
        s.contains(y) == (s.drop_last().contains(y) || s.last() == y),
{
    if s.contains(y) {
        let i = choose|i: int| 0 <= i < s.len() && s[i] == y;
        if i < s.len() - 1 {
            assert(s.drop_last()[i] == y);
            assert(s.drop_last().contains(y));
        }
    }
    if s.drop_last().contains(y) {
        let i = choose|i: int| 0 <= i < s.drop_last().len() && s.drop_last()[i] == y;
        assert(s[i] == y);
        assert(s.contains(y));
    }
    if s.last() == y {
        assert(s[s.len() - 1] == y);
        assert(s.contains(y));
    }
}

/// Membership after a push: the pushed element, or an element that was
/// already there.
pub proof fn lemma_contains_push<A>(s: Seq<A>, x: A, y: A)
    ensures
        s.push(x).contains(y) == (s.contains(y) || x == y),
{
    assert(s.push(x).drop_last() =~= s);
    lemma_contains_split(s.push(x), y);
}

/// Dropping `x` keeps exactly the other elements.
pub proof fn lemma_seq_drop_contains<A>(s: Seq<A>, x: A, y: A)
    ensures
        seq_drop(s, x).contains(y) == (s.contains(y) && y != x),
    decreases s.len(),
{
    if s.len() == 0 {
        assert(!s.contains(y));
    } else {
        lemma_seq_drop_contains(s.drop_last(), x, y);
        lemma_contains_split(s, y);
        if s.last() != x {
            lemma_contains_push(seq_drop(s.drop_last(), x), s.last(), y);
        }
    }
}

/// Dropping an element keeps a roster duplicate-free.
pub proof fn lemma_seq_drop_unique<A>(s: Seq<A>, x: A)
    requires
        unique_seq(s),
    ensures
        unique_seq(seq_drop(s, x)),
    decreases s.len(),
{
    if s.len() > 0 {
        assert(forall|i: int, j: int|
            0 <= i < j < s.drop_last().len() ==> s.drop_last()[i] != s.drop_last()[j]);
        lemma_seq_drop_unique(s.drop_last(), x);
        if s.last() != x {
            let init = seq_drop(s.drop_last(), x);
            assert(forall|k: int| 0 <= k < s.drop_last().len() ==> s.drop_last()[k] != s.last());
            assert(!s.drop_last().contains(s.last()));
            lemma_seq_drop_contains(s.drop_last(), x, s.last());
            assert(!init.contains(s.last()));
            assert(forall|k: int| 0 <= k < init.len() ==> init[k] != s.last());
        }
    }
}

/// A pushed element comes last and everything else keeps its place, so a
/// push of a fresh element keeps a roster duplicate-free.
pub proof fn lemma_push_unique<A>(s: Seq<A>, x: A)
    requires
        unique_seq(s),
        !s.contains(x),
    ensures
        unique_seq(s.push(x)),
{
    assert(forall|k: int| 0 <= k < s.len() ==> s[k] != x);
}

/// Mapping distributes over a push.
pub proof fn lemma_map_values_push<A, B>(s: Seq<A>, x: A, f: spec_fn(A) -> B)
    ensures
        s.push(x).map_values(f) == s.map_values(f).push(f(x)),
{
    assert(s.push(x).map_values(f) =~= s.map_values(f).push(f(x)));
}

/// Does the roster contain this id?
#[verifier::loop_isolation(false)]
pub fn contains_id(v: &Vec<u128>, id: u128) -> (r: bool)
    ensures
        r == v@.contains(id),
{
    let n = v.len();
    let mut i: usize = 0;
    while i < n
        invariant
            i <= n,
            forall|k: int| 0 <= k < i ==> v@[k] != id,
        decreases n - i,
    {
        if v[i] == id {
            return true;
        }
        i = i + 1;
    }
    false
}

/// Does the roster contain this name?
#[verifier::loop_isolation(false)]
pub fn contains_name(v: &Vec<String>, name: &str) -> (r: bool)
    ensures
        r == name_views(v@).contains(name@),
{
    let n = v.len();
    let mut i: usize = 0;
    while i < n
        invariant
            i <= n,
            forall|k: int| 0 <= k < i ==> name_views(v@)[k] != name@,
        decreases n - i,
    {
        if str_eq(v[i].as_str(), name) {
            proof {
                assert(name_views(v@)[i as int] == name@);
            }
            return true;
        }
        i = i + 1;
    }
    proof {
        if name_views(v@).contains(name@) {
            let k = choose|k: int| 0 <= k < name_views(v@).len() && name_views(v@)[k] == name@;
            assert(name_views(v@)[k] != name@);
        }
    }
    false
}

/// Removes every occurrence of `id`, keeping the order of the rest.
#[verifier::loop_isolation(false)]
pub fn remove_id(v: &mut Vec<u128>, id: u128)
    ensures
        final(v)@ == seq_drop(old(v)@, id),
{
    let n = v.len();
    let mut out: Vec<u128> = Vec::new();
    let mut i: usize = 0;
    while i < n
        invariant
            i <= n,
            out@ == seq_drop(v@.take(i as int), id),
        decreases n - i,
    {
        proof {
            assert(v@.take(i + 1).drop_last() =~= v@.take(i as int));
        }
        if v[i] != id {
            out.push(v[i]);
        }
        i = i + 1;
    }
    proof {
        assert(v@.take(n as int) =~= v@);
    }
    *v = out;
}

/// Removes every occurrence of `name`, keeping the order of the rest.
#[verifier::loop_isolation(false)]
pub fn remove_name(v: &mut Vec<String>, name: &str)
    ensures
        name_views(final(v)@) == seq_drop(name_views(old(v)@), name@),
{
    let n = v.len();
    let mut out: Vec<String> = Vec::new();
    let mut i: usize = 0;
    while i < n
        invariant
            i <= n,
            name_views(out@) == seq_drop(name_views(v@).take(i as int), name@),
        decreases n - i,
    {
        proof {
            assert(name_views(v@).take(i + 1).drop_last() =~= name_views(v@).take(i as int));
        }
        if !str_eq(v[i].as_str(), name) {
            let ghost prev = out@;
            let entry = v[i].clone();
            out.push(entry);
            proof {
                lemma_map_values_push(prev, out@.last(), |s: String| s@);
            }
        }
        i = i + 1;
    }
    proof {
        assert(name_views(v@).take(n as int) =~= name_views(v@));
    }
    *v = out;
}


/// Is the id roster duplicate-free?
#[verifier::loop_isolation(false)]
pub fn ids_unique(v: &Vec<u128>) -> (r: bool)
    ensures
        r == unique_seq(v@),
{
    let n = v.len();
    let mut i: usize = 0;
    while i < n
        invariant
            i <= n,
            forall|a: int, b: int| 0 <= a < b < n && a < i ==> v@[a] != v@[b],
        decreases n - i,
    {
        let mut j: usize = i + 1;
        while j < n
            invariant
                i < j <= n,
                forall|b: int| i < b < j ==> v@[i as int] != v@[b],
            decreases n - j,
        {
            if v[i] == v[j] {
                return false;
            }
            j = j + 1;
        }
        i = i + 1;
    }
    true
}

/// Is the name roster duplicate-free?
#[verifier::loop_isolation(false)]
pub fn names_unique(v: &Vec<String>) -> (r: bool)
    ensures
        r == unique_seq(name_views(v@)),
{
    let n = v.len();
    let mut i: usize = 0;
    while i < n
        invariant
            i <= n,
            forall|a: int, b: int|
                0 <= a < b < n && a < i ==> name_views(v@)[a] != name_views(v@)[b],
        decreases n - i,
    {
        let mut j: usize = i + 1;
        while j < n
            invariant
                i < j <= n,
                forall|b: int| i < b < j ==> name_views(v@)[i as int] != name_views(v@)[b],
            decreases n - j,
        {
            if str_eq(v[i].as_str(), v[j].as_str()) {
                proof {
                    assert(name_views(v@)[i as int] == name_views(v@)[j as int]);
                }
                return false;
            }
            j = j + 1;
        }
        i = i + 1;
    }
    true
}

} // verus!
