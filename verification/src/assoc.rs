//! String-keyed association lists with a `Map` view, used for the per-key
//! bucket table of the rate limiter and the claim cache of the JWT
//! validator.

use vstd::prelude::*;

verus! {

/// The map denoted by an association list; a later pair wins over an
/// earlier one under the same key.
pub open spec fn assoc_map<T>(s: Seq<(String, T)>) -> Map<Seq<char>, T>
    decreases s.len(),
{
    if s.len() == 0 {
        Map::empty()
    } else {
        assoc_map(s.drop_last()).insert(s.last().0@, s.last().1)
    }
}

/// Pairwise distinct keys.
pub open spec fn assoc_distinct<T>(s: Seq<(String, T)>) -> bool {
    forall|i: int, j: int| 0 <= i < j < s.len() ==> s[i].0@ != s[j].0@
}

/// With distinct keys, the association list and its map agree entry by
/// entry, and absent keys are absent from the map.
pub proof fn lemma_assoc_map_index<T>(s: Seq<(String, T)>)
    requires
        assoc_distinct(s),
    ensures
        forall|i: int| 0 <= i < s.len() ==> assoc_map(s).contains_key(#[trigger] s[i].0@),
        forall|i: int| 0 <= i < s.len() ==> assoc_map(s)[#[trigger] s[i].0@] == s[i].1,
        forall|k: Seq<char>| assoc_map(s).contains_key(k)
            ==> exists|i: int| 0 <= i < s.len() && #[trigger] s[i].0@ == k,
    decreases s.len(),
{
    if s.len() > 0 {
        assert(forall|i: int| 0 <= i < s.len() - 1 ==> #[trigger] s.drop_last()[i] == s[i]);
        lemma_assoc_map_index(s.drop_last());
        let m0 = assoc_map(s.drop_last());
        let last = s.last();
        assert forall|i: int| 0 <= i < s.len()
            implies assoc_map(s).contains_key(#[trigger] s[i].0@)
                && assoc_map(s)[s[i].0@] == s[i].1 by {
            if i < s.len() - 1 {
                assert(m0.contains_key(s.drop_last()[i].0@));
                assert(s[i].0@ != last.0@);
            } else {
                assert(s[i] == last);
            }
        }
    }
}

/// Updating the pair at index `i` in place, keeping its key, denotes a map
/// insert under that key.
pub proof fn lemma_assoc_map_update<T>(s: Seq<(String, T)>, i: int, p: (String, T))
    requires
        assoc_distinct(s),
        0 <= i < s.len(),
        p.0@ == s[i].0@,
    ensures
        assoc_map(s.update(i, p)) == assoc_map(s).insert(p.0@, p.1),
        assoc_distinct(s.update(i, p)),
    decreases s.len(),
{
    let su = s.update(i, p);
    assert(forall|j: int| 0 <= j < s.len() - 1 ==> #[trigger] s.drop_last()[j] == s[j]);
    if i == s.len() - 1 {
        assert(su.drop_last() =~= s.drop_last());
        assert(su.last() == p);
        assert(assoc_map(su) == assoc_map(s.drop_last()).insert(p.0@, p.1));
        assert(assoc_map(s) == assoc_map(s.drop_last()).insert(s.last().0@, s.last().1));
        assert(assoc_map(su) =~= assoc_map(s).insert(p.0@, p.1));
    } else {
        assert(su.drop_last() =~= s.drop_last().update(i, p));
        assert(su.last() == s.last());
        lemma_assoc_map_update(s.drop_last(), i, p);
        // The two inserted keys differ, so the inserts commute.
        assert(p.0@ != s.last().0@);
        assert(assoc_map(su) == assoc_map(s.drop_last()).insert(p.0@, p.1).insert(
            s.last().0@, s.last().1));
        assert(assoc_map(s.drop_last()).insert(p.0@, p.1).insert(s.last().0@, s.last().1)
            =~= assoc_map(s.drop_last()).insert(s.last().0@, s.last().1).insert(p.0@, p.1));
    }
}

/// Appending a pair with a fresh key denotes a map insert under that key.
pub proof fn lemma_assoc_map_push<T>(s: Seq<(String, T)>, p: (String, T))
    requires
        assoc_distinct(s),
        forall|i: int| 0 <= i < s.len() ==> #[trigger] s[i].0@ != p.0@,
    ensures
        assoc_map(s.push(p)) == assoc_map(s).insert(p.0@, p.1),
        assoc_distinct(s.push(p)),
{
    assert(s.push(p).drop_last() =~= s);
    assert(s.push(p).last() == p);
}

} // verus!
