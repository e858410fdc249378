//! A plain `key=value` reading of a query string, without the query grammar.

use crate::query::EntryModel;
use crate::text::{
    key_index, lemma_key_index, pair_views, split_on, split_once, split_once_str, split_str,
    str_eq, views,
};
use vstd::prelude::*;

verus! {

/// `pairs` with `k` set to `v`: an existing pair for `k` keeps its place and
/// takes the new value, else the pair goes last.
pub open spec fn upsert(pairs: Seq<EntryModel>, k: Seq<char>, v: Seq<char>) -> Seq<EntryModel> {
    let i = key_index(pairs, k);
    if i >= 0 {
        pairs.update(i, (k, v))
    } else {
        pairs.push((k, v))
    }
}

/// The pairs that `pieces` set, in order; a piece without `=` sets nothing.
pub open spec fn pairs_of(pieces: Seq<Seq<char>>) -> Seq<EntryModel>
    decreases pieces.len(),
{
    if pieces.len() == 0 {
        Seq::empty()
    } else {
        let pairs = pairs_of(pieces.drop_last());
        match split_once(pieces.last(), '=') {
            Some((k, v)) => upsert(pairs, k, v),
            None => pairs,
        }
    }
}

/// The pairs of an optional query string: none when it is absent.
pub open spec fn query_pairs(query: Option<Seq<char>>) -> Seq<EntryModel> {
    match query {
        Some(q) => pairs_of(split_on(q, '&')),
        None => Seq::empty(),
    }
}

/// Splits a query string into `key=value` pairs, one per key: the last value
/// given for a key wins, and keys keep the order of their first occurrence.
pub fn parse_query(query: Option<&str>) -> (r: Vec<(&str, &str)>)
    ensures
        pair_views(r@) == query_pairs(
            match query {
                Some(q) => Some(q@),
                None => None,
            },
        ),
{
    let mut query_map: Vec<(&str, &str)> = Vec::new();
    let q = match query {
        Some(q) => q,
        None => {
            assert(pair_views(query_map@) =~= Seq::<EntryModel>::empty());
            return query_map;
        },
    };
    let queries = split_str(q, '&');
    let ghost pieces = views(queries@);
    let mut i: usize = 0;
    assert(pieces.take(0) =~= Seq::<Seq<char>>::empty());
    assert(pair_views(query_map@) =~= Seq::<EntryModel>::empty());
    while i < queries.len()
        invariant
            pieces == views(queries@),
            i <= queries@.len(),
            pair_views(query_map@) == pairs_of(pieces.take(i as int)),
        decreases queries.len() - i,
    {
        assert(pieces.take(i + 1).drop_last() =~= pieces.take(i as int));
        assert(pieces.take(i + 1).last() == queries@[i as int]@);
        if let Some((k, v)) = split_once_str(queries[i], '=') {
            let ghost before = pair_views(query_map@);
            proof {
                lemma_key_index(before, k@);
            }
            let mut j: usize = 0;
            while j < query_map.len() && !str_eq(query_map[j].0, k)
                invariant
                    before == pair_views(query_map@),
                    j <= query_map@.len(),
                    forall|x: int| 0 <= x < j ==> (#[trigger] before[x]).0 != k@,
                decreases query_map.len() - j,
            {
                j = j + 1;
            }
            proof {
                lemma_key_index(before, k@);
                let x = key_index(before, k@);
                if 0 <= x < j {
                    assert(before[x].0 != k@);
                }
                if j < query_map@.len() {
                    assert(before[j as int].0 == k@);
                }
            }
            if j < query_map.len() {
                query_map.set(j, (k, v));
                assert(pair_views(query_map@) =~= before.update(j as int, (k@, v@)));
            } else {
                proof {
                    let x = key_index(before, k@);
                    if x >= 0 {
                        assert(before[x].0 == k@);
                    }
                }
                query_map.push((k, v));
                assert(pair_views(query_map@) =~= before.push((k@, v@)));
            }
        }
        i = i + 1;
    }
    assert(pieces.take(queries@.len() as int) =~= pieces);
    query_map
}

} // verus!
