//! Grouping of positions by key, in order of first occurrence.
use vstd::prelude::*;

verus! {

/// The positions, in increasing order, at which `keys` holds `Some(k)`.
pub open spec fn positions_of<K>(keys: Seq<Option<K>>, k: K) -> Seq<int>
    decreases keys.len(),
{
    if keys.len() == 0 {
        Seq::empty()
    } else {
        let rest = positions_of(keys.drop_last(), k);
        if keys.last() == Some(k) {
            rest.push(keys.len() - 1)
        } else {
            rest
        }
    }
}

/// `groups` holds each key present in `keys` exactly once, in order of first
/// occurrence, each with all the positions at which it occurs.
pub open spec fn is_grouping<K>(keys: Seq<Option<K>>, groups: Seq<(K, Seq<int>)>) -> bool {
    &&& forall|a: int, b: int| 0 <= a < b < groups.len() ==> groups[a].0 != groups[b].0
    &&& forall|a: int|
        0 <= a < groups.len() ==> groups[a].1 == positions_of(keys, groups[a].0)
            && groups[a].1.len() > 0
    &&& forall|i: int|
        0 <= i < keys.len() && keys[i] is Some ==> exists|a: int|
            0 <= a < groups.len() && groups[a].0 == keys[i]->0
    &&& forall|a: int, b: int| 0 <= a < b < groups.len() ==> groups[a].1[0] < groups[b].1[0]
}

/// The keys of a sequence of optional strings, as character sequences.
pub open spec fn text_keys(keys: Seq<Option<String>>) -> Seq<Option<Seq<char>>> {
    keys.map_values(|o: Option<String>| match o {
        Some(s) => Some(s@),
        None => None,
    })
}

/// A computed grouping, seen as keys and positions.
pub open spec fn groups_view(groups: Seq<(String, Vec<usize>)>) -> Seq<(Seq<char>, Seq<int>)> {
    groups.map_values(|g: (String, Vec<usize>)| (g.0@, g.1@.map_values(|p: usize| p as int)))
}

/// Every listed position holds the key, and the positions increase.
pub proof fn lemma_positions_hold_key<K>(keys: Seq<Option<K>>, k: K)
    ensures
        forall|p: int|
            0 <= p < positions_of(keys, k).len() ==> 0 <= #[trigger] positions_of(keys, k)[p]
                < keys.len() && keys[positions_of(keys, k)[p]] == Some(k),
        forall|p: int, q: int|
            0 <= p < q < positions_of(keys, k).len() ==> positions_of(keys, k)[p] < positions_of(
                keys,
                k,
            )[q],
    decreases keys.len(),
{
    if keys.len() > 0 {
        lemma_positions_hold_key(keys.drop_last(), k);
    }
}

/// A key that occurs nowhere has no positions.
pub proof fn lemma_positions_absent<K>(keys: Seq<Option<K>>, k: K)
    requires
        forall|i: int| 0 <= i < keys.len() ==> keys[i] != Some(k),
    ensures
        positions_of(keys, k).len() == 0,
    decreases keys.len(),
{
    if keys.len() > 0 {
        lemma_positions_absent(keys.drop_last(), k);
    }
}

/// Extending the keys by one entry extends the positions of that entry's key only.
pub proof fn lemma_positions_step<K>(keys: Seq<Option<K>>, i: int, k: K)
    requires
        0 <= i < keys.len(),
    ensures
        positions_of(keys.take(i + 1), k) == if keys[i] == Some(k) {
            positions_of(keys.take(i), k).push(i)
        } else {
            positions_of(keys.take(i), k)
        },
{
    assert(keys.take(i + 1).drop_last() =~= keys.take(i));
}

fn find_group(groups: &Vec<(String, Vec<usize>)>, k: &String) -> (r: Option<usize>)
    ensures
        match r {
            Some(a) => a < groups@.len() && groups@[a as int].0@ == k@,
            None => forall|a: int| 0 <= a < groups@.len() ==> groups@[a].0@ != k@,
        },
{
    let mut a: usize = 0;
    while a < groups.len()
        invariant
            a <= groups@.len(),
            forall|b: int| 0 <= b < a ==> groups@[b].0@ != k@,
        decreases groups@.len() - a,
    {
        if groups[a].0 == *k {
            return Some(a);
        }
        a = a + 1;
    }
    None
}

/// Groups the positions of `keys` by key, skipping `None`, in order of first occurrence.
pub fn group_by_text(keys: &Vec<Option<String>>) -> (groups: Vec<(String, Vec<usize>)>)
    ensures
        is_grouping(text_keys(keys@), groups_view(groups@)),
{
    let ghost ks = text_keys(keys@);
    let mut groups: Vec<(String, Vec<usize>)> = Vec::new();
    let mut i: usize = 0;
    while i < keys.len()
        invariant
            i <= keys@.len(),
            ks == text_keys(keys@),
            is_grouping(ks.take(i as int), groups_view(groups@)),
        decreases keys@.len() - i,
    {
        let ghost old_view = groups_view(groups@);
        let ghost prev = ks.take(i as int);
        let ghost next = ks.take(i + 1);
        proof {
            assert forall|k: Seq<char>| true implies positions_of(next, k) == if ks[i as int] == Some(k) {
                positions_of(prev, k).push(i as int)
            } else {
                positions_of(prev, k)
            } by {
                lemma_positions_step(ks, i as int, k);
            }
        }
        match &keys[i] {
            Some(k) => {
                assert(ks[i as int] == Some(k@));
                match find_group(&groups, k) {
                    Some(a) => {
                        let ghost old_groups = groups@;
                        groups[a].1.push(i);
                        proof {
                            assert(groups@[a as int].1@ == old_groups[a as int].1@.push(i));
                            assert(groups@[a as int].1@.map_values(|p: usize| p as int)
                                =~= old_groups[a as int].1@.map_values(|p: usize| p as int).push(i as int));
                            assert forall|b: int| 0 <= b < groups@.len() && b != a implies groups@[b] == old_groups[b] by {}
                        }
                        assert(groups_view(groups@) =~= old_view.update(
                            a as int,
                            (old_view[a as int].0, old_view[a as int].1.push(i as int)),
                        ));
                        assert(is_grouping(next, groups_view(groups@))) by {
                            let nv = groups_view(groups@);
                            assert forall|j: int|
                                0 <= j < next.len() && next[j] is Some implies exists|b: int|
                                    0 <= b < nv.len() && #[trigger] nv[b].0 == next[j]->0 by {
                                if j < i {
                                    assert(prev[j] == next[j]);
                                    let b = choose|b: int| 0 <= b < old_view.len() && old_view[b].0 == prev[j]->0;
                                    assert(nv[b].0 == old_view[b].0);
                                } else {
                                    assert(next[j] == ks[i as int]);
                                    assert(nv[a as int].0 == k@);
                                }
                            }
                            assert forall|b: int| 0 <= b < nv.len() implies nv[b].1 == positions_of(next, nv[b].0) && nv[b].1.len() > 0 by {
                                if b != a {
                                    assert(nv[b] == old_view[b]);
                                }
                            }
                        }
                    },
                    None => {
                        let mut members: Vec<usize> = Vec::new();
                        members.push(i);
                        let ghost old_groups = groups@;
                        let key = k.clone();
                        groups.push((key, members));
                        proof {
                            let nv = groups_view(groups@);
                            assert(groups@ == old_groups.push((key, members)));
                            assert(members@.map_values(|p: usize| p as int) =~= seq![i as int]);
                            assert(nv =~= old_view.push((k@, seq![i as int])));
                            assert forall|j: int| 0 <= j < i implies #[trigger] prev[j] != Some(k@) by {
                                if prev[j] == Some(k@) {
                                    let b = choose|b: int| 0 <= b < old_view.len() && old_view[b].0 == prev[j]->0;
                                    assert(groups@[b].0@ == old_view[b].0);
                                }
                            }
                            lemma_positions_absent(prev, k@);
                            assert(positions_of(next, k@) =~= seq![i as int]);
                            assert forall|b: int| 0 <= b < old_view.len() implies old_view[b].1[0] < i by {
                                lemma_positions_hold_key(prev, old_view[b].0);
                            }
                            assert forall|j: int|
                                0 <= j < next.len() && next[j] is Some implies exists|b: int|
                                    0 <= b < nv.len() && #[trigger] nv[b].0 == next[j]->0 by {
                                if j < i {
                                    assert(prev[j] == next[j]);
                                    let b = choose|b: int| 0 <= b < old_view.len() && old_view[b].0 == prev[j]->0;
                                    assert(nv[b] == old_view[b]);
                                } else {
                                    assert(next[j] == ks[i as int]);
                                    assert(nv[old_view.len() as int].0 == k@);
                                }
                            }
                            assert forall|b: int| 0 <= b < nv.len() implies nv[b].1 == positions_of(next, nv[b].0) && nv[b].1.len() > 0 by {
                                if b < old_view.len() {
                                    assert(nv[b] == old_view[b]);
                                    assert(old_view[b].0 != k@);
                                }
                            }
                        }
                    },
                }
            },
            None => {
                proof {
                    let nv = groups_view(groups@);
                    assert forall|j: int|
                        0 <= j < next.len() && next[j] is Some implies exists|b: int|
                            0 <= b < nv.len() && #[trigger] nv[b].0 == next[j]->0 by {
                        assert(prev[j] == next[j]);
                    }
                }
            },
        }
        i = i + 1;
    }
    assert(ks.take(keys@.len() as int) =~= ks);
    groups
}

} // verus!
