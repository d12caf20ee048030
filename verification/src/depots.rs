//! The depots of a game, from the answers about its packages.
use vstd::prelude::*;
use crate::json::{at, items_at, u64_items, u64_items_at, Json};
use crate::number::{decimal, to_decimal};
use std::collections::BTreeSet;
use vstd::std_specs::cmp::OrdSpec;
use vstd::std_specs::iter::IteratorSpec;

verus! {

// ─── Depots ───────────────────────────────────────────────────────────────────

/// The depot ids listed in the answer about package `pkg` (`None`: the
/// request failed).
pub open spec fn package_depots(pkg: u64, resp: Option<Json>) -> Seq<u64> {
    match items_at(at(at(at(resp, decimal(pkg as nat)), "data"@), "depot_ids"@)) {
        Some(items) => u64_items(items),
        None => seq![],
    }
}

/// Every depot id listed in the answers about the packages.
pub open spec fn all_depots(answers: Seq<(u64, Option<Json>)>) -> Set<u64>
    decreases answers.len(),
{
    if answers.len() == 0 {
        Set::empty()
    } else {
        all_depots(answers.drop_last()).union(
            package_depots(answers.last().0, answers.last().1).to_set(),
        )
    }
}

/// A depot id is among those of a game exactly when the answer about one of
/// its packages, the first, the last or any other, lists it.
pub proof fn law_depots_of_every_package(answers: Seq<(u64, Option<Json>)>, x: u64)
    ensures
        all_depots(answers).contains(x) <==> exists|k: int|
            0 <= k < answers.len() && #[trigger] package_depots(answers[k].0, answers[k].1).contains(x),
    decreases answers.len(),
{
    if answers.len() > 0 {
        let prev = answers.drop_last();
        law_depots_of_every_package(prev, x);
        let last = answers.len() - 1;
        if all_depots(answers).contains(x) {
            if !all_depots(prev).contains(x) {
                assert(package_depots(answers[last].0, answers[last].1).contains(x));
            } else {
                let k = choose|k: int|
                    0 <= k < prev.len() && #[trigger] package_depots(prev[k].0, prev[k].1).contains(x);
                assert(answers[k] == prev[k]);
            }
        }
        if exists|k: int|
            0 <= k < answers.len() && #[trigger] package_depots(answers[k].0, answers[k].1).contains(x)
        {
            let k = choose|k: int|
                0 <= k < answers.len() && #[trigger] package_depots(answers[k].0, answers[k].1).contains(x);
            if k < last {
                assert(prev[k] == answers[k]);
                assert(package_depots(prev[k].0, prev[k].1).contains(x));
            }
        }
    }
}

/// Appending `x` to a sequence adds `x` to the set of its elements.
pub(crate) proof fn lemma_push_to_set<T>(s: Seq<T>, x: T)
    ensures
        s.push(x).to_set() == s.to_set().insert(x),
{
    assert forall|y: T| s.push(x).contains(y) <==> s.to_set().insert(x).contains(y) by {
        if s.push(x).contains(y) {
            let i = choose|i: int| 0 <= i < s.push(x).len() && s.push(x)[i] == y;
            if i < s.len() {
                assert(s[i] == y);
            }
        }
        if s.contains(y) {
            let i = choose|i: int| 0 <= i < s.len() && s[i] == y;
            assert(s.push(x)[i] == y);
        }
        if y == x {
            assert(s.push(x)[s.len() as int] == x);
        }
    }
    assert(s.push(x).to_set() =~= s.to_set().insert(x));
}

/// Whether every element of `s` is smaller than the next.
pub open spec fn strictly_increasing(s: Seq<u64>) -> bool {
    forall|i: int, j: int| 0 <= i < j < s.len() ==> s[i] < s[j]
}

/// Adds `x` to a set of ids.
fn insert_id(set: &mut BTreeSet<u64>, x: u64)
    ensures
        final(set)@ == old(set)@.insert(x),
{
    broadcast use vstd::laws_cmp::group_laws_cmp;

    set.insert(x);
}

/// The ids of a set, in increasing order.
fn ids_in_order(set: &BTreeSet<u64>) -> (r: Vec<u64>)
    ensures
        strictly_increasing(r@),
        r@.to_set() == set@,
{
    broadcast use vstd::laws_cmp::group_laws_cmp;

    let ghost sq = vstd::std_specs::btree::spec_btree_keys_iter(set).remaining();
    let mut r: Vec<u64> = Vec::new();
    for x in it: set.iter()
        invariant
            it.seq() == sq,
            r@.len() == it.index(),
            forall|a: int| 0 <= a < r@.len() ==> r@[a] == *sq[a],
    {
        r.push(*x);
    }
    proof {
        assert(r@.len() == sq.len());
        assert(r@ =~= sq.map_values(|v: &u64| *v));
        assert(vstd::laws_cmp::obeys_cmp::<u64>());
        assert(vstd::laws_cmp::obeys_cmp::<&u64>());
        assert(vstd::std_specs::btree::increasing_seq(sq));
        vstd::std_specs::btree::axiom_increasing_seq_meaning(sq);
        assert forall|a: int, b: int| 0 <= a < b < r@.len() implies r@[a] < r@[b] by {
            assert(OrdSpec::cmp_spec(&sq[a], &sq[b]) is Less);
        }
        assert forall|y: u64| r@.contains(y) <==> set@.contains(y) by {
            if r@.contains(y) {
                let a = choose|a: int| 0 <= a < r@.len() && r@[a] == y;
                assert(sq.unref()[a] == y);
            }
            if set@.contains(y) {
                assert(sq.unref().to_set().contains(y));
                let a = choose|a: int| 0 <= a < sq.unref().len() && sq.unref()[a] == y;
                assert(r@[a] == y);
            }
        }
        assert(r@.to_set() =~= set@);
    }
    r
}

/// The depot ids of a game, from the answers about its packages (each
/// package id with the answer, `None` when the request failed): every depot
/// id listed in any answer, once, in increasing order.
pub fn depots(answers: &Vec<(u64, Option<Json>)>) -> (r: Vec<u64>)
    ensures
        strictly_increasing(r@),
        r@.to_set() == all_depots(answers@),
{
    let mut set: BTreeSet<u64> = BTreeSet::new();
    let n = answers.len();
    proof {
        assert(set@ =~= all_depots(answers@.take(0)));
    }
    for i in 0..n
        invariant
            n == answers@.len(),
            set@ == all_depots(answers@.take(i as int)),
    {
        proof {
            assert(answers@.take(i + 1).drop_last() =~= answers@.take(i as int));
        }
        let (pkg, resp) = &answers[i];
        let ids: Vec<u64> = match resp {
            Some(j) => {
                let key = to_decimal(*pkg);
                match j.get(key.as_str()) {
                    Some(e) => match e.get("data") {
                        Some(d) => u64_items_at(d, "depot_ids"),
                        None => Vec::new(),
                    },
                    None => Vec::new(),
                }
            },
            None => Vec::new(),
        };
        let ghost before = set@;
        proof {
            assert(ids@ == package_depots(*pkg, *resp));
            assert(before.union(ids@.take(0).to_set()) =~= before);
        }
        let m = ids.len();
        for k in 0..m
            invariant
                m == ids@.len(),
                set@ == before.union(ids@.take(k as int).to_set()),
        {
            insert_id(&mut set, ids[k]);
            proof {
                assert(ids@.take(k + 1) =~= ids@.take(k as int).push(ids@[k as int]));
                lemma_push_to_set(ids@.take(k as int), ids@[k as int]);
                assert(set@ =~= before.union(ids@.take(k + 1).to_set()));
            }
        }
        proof {
            assert(ids@.take(m as int) =~= ids@);
        }
    }
    proof {
        assert(answers@.take(n as int) =~= answers@);
    }
    ids_in_order(&set)
}

} // verus!
