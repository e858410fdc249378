//! The parsed form of a query string, and the checks run on it before compiling.

use crate::error::{viewed, ParseError};
use crate::filter::{filter_of, Condition, Filter};
use crate::sort::{sort_of, Sort, SortBy};
use crate::text::{
    all_digits, is_all_digits, lemma_seq_lt_total,
    lemma_seq_lt_transitive, seq_lt, split_on, split_once, split_once_str, split_str, str_eq,
    str_lt, views,
};
use vstd::prelude::*;

verus! {

/// One `key=value` pair of the equality map, as character sequences.
pub type EntryModel = (Seq<char>, Seq<char>);

/// What a query holds, as mathematical values.
pub struct QueryModel {
    /// Equality constraints, sorted by key.
    pub query: Seq<EntryModel>,
    /// Comparison filters, in request order.
    pub filters: Seq<(Seq<char>, Condition, Seq<char>)>,
    pub sort: Option<(Seq<char>, SortBy)>,
    pub limit: Option<Seq<char>>,
    pub offset: Option<Seq<char>>,
    pub group_by: Option<Seq<char>>,
}

/// A query string parsed against an endpoint's allowlist.
#[derive(Debug, PartialEq)]
pub struct Query {
    /// Equality constraints, one per key, kept in ascending key order.
    pub query: Vec<(String, String)>,
    /// Comparison filters, in the order their tokens appeared.
    pub filters: Vec<Filter>,
    /// The last sort token, if any.
    pub sort: Option<Sort>,
    /// The raw `limit` and `offset` values, if given.
    pub limit_offset: (Option<String>, Option<String>),
    /// A field to group rows by, set by the caller after parsing.
    pub group_by: Option<String>,
}

pub open spec fn entries_view(v: Seq<(String, String)>) -> Seq<EntryModel> {
    v.map_values(|p: (String, String)| (p.0@, p.1@))
}

pub open spec fn filters_view(v: Seq<Filter>) -> Seq<(Seq<char>, Condition, Seq<char>)> {
    v.map_values(|f: Filter| f@)
}

pub open spec fn sort_view(s: Option<Sort>) -> Option<(Seq<char>, SortBy)> {
    match s {
        Some(x) => Some(x@),
        None => None,
    }
}

pub open spec fn string_view(s: Option<String>) -> Option<Seq<char>> {
    match s {
        Some(x) => Some(x@),
        None => None,
    }
}

impl View for Query {
    type V = QueryModel;

    open spec fn view(&self) -> QueryModel {
        QueryModel {
            query: entries_view(self.query@),
            filters: filters_view(self.filters@),
            sort: sort_view(self.sort),
            limit: string_view(self.limit_offset.0),
            offset: string_view(self.limit_offset.1),
            group_by: string_view(self.group_by),
        }
    }
}

/// Keys in strictly ascending order (so each key occurs once).
pub open spec fn keys_sorted(entries: Seq<EntryModel>) -> bool {
    forall|i: int, j: int|
        0 <= i < j < entries.len() ==> seq_lt(#[trigger] entries[i].0, #[trigger] entries[j].0)
}

/// Whether some entry has key `k`.
pub open spec fn has_key(entries: Seq<EntryModel>, k: Seq<char>) -> bool {
    exists|j: int| 0 <= j < entries.len() && (#[trigger] entries[j]).0 == k
}

/// Position of the first entry whose key does not sort before `k`, or the length.
pub open spec fn entry_pos(entries: Seq<EntryModel>, k: Seq<char>) -> int
    decreases entries.len(),
{
    if entries.len() == 0 {
        0
    } else {
        let r = entry_pos(entries.drop_last(), k);
        if r < entries.len() - 1 {
            r
        } else if seq_lt(entries.last().0, k) {
            entries.len() as int
        } else {
            entries.len() - 1
        }
    }
}

/// `entries` with `k` set to `v`: an entry with key `k` is overwritten, else a
/// new one goes where the key order puts it.
pub open spec fn insert_sorted(entries: Seq<EntryModel>, k: Seq<char>, v: Seq<char>) -> Seq<
    EntryModel,
> {
    let i = entry_pos(entries, k);
    if i < entries.len() && entries[i].0 == k {
        entries.update(i, (k, v))
    } else {
        entries.insert(i, (k, v))
    }
}

pub open spec fn empty_model() -> QueryModel {
    QueryModel {
        query: Seq::empty(),
        filters: Seq::empty(),
        sort: None,
        limit: None,
        offset: None,
        group_by: None,
    }
}

/// The effect of one `&`-separated piece of the query string.
pub open spec fn step(m: QueryModel, piece: Seq<char>, allowed: Seq<Seq<char>>) -> Result<
    QueryModel,
    ParseError,
> {
    match split_once(piece, '=') {
        None => Ok(m),
        Some((k, v)) => if k == "filter[]"@ {
            match filter_of(v, allowed) {
                Ok(f) => Ok(QueryModel { filters: m.filters.push(f), ..m }),
                Err(e) => Err(e),
            }
        } else if k == "sort"@ {
            match sort_of(v, allowed) {
                Ok(s) => Ok(QueryModel { sort: Some(s), ..m }),
                Err(e) => Err(e),
            }
        } else if k == "limit"@ {
            Ok(QueryModel { limit: Some(v), ..m })
        } else if k == "offset"@ {
            Ok(QueryModel { offset: Some(v), ..m })
        } else {
            Ok(QueryModel { query: insert_sorted(m.query, k, v), ..m })
        },
    }
}

/// The pieces applied in order from the empty query; the first error stops it.
pub open spec fn parse_pieces(pieces: Seq<Seq<char>>, allowed: Seq<Seq<char>>) -> Result<
    QueryModel,
    ParseError,
>
    decreases pieces.len(),
{
    if pieces.len() == 0 {
        Ok(empty_model())
    } else {
        match parse_pieces(pieces.drop_last(), allowed) {
            Ok(m) => step(m, pieces.last(), allowed),
            Err(e) => Err(e),
        }
    }
}

/// The query that the string `s` denotes under the allowlist `allowed`.
pub open spec fn query_of(s: Seq<char>, allowed: Seq<Seq<char>>) -> Result<QueryModel, ParseError> {
    parse_pieces(split_on(s, '&'), allowed)
}

pub proof fn lemma_entry_pos(entries: Seq<EntryModel>, k: Seq<char>)
    ensures
        0 <= entry_pos(entries, k) <= entries.len(),
        forall|j: int| 0 <= j < entry_pos(entries, k) ==> seq_lt(#[trigger] entries[j].0, k),
        entry_pos(entries, k) < entries.len() ==> !seq_lt(entries[entry_pos(entries, k)].0, k),
    decreases entries.len(),
{
    if entries.len() > 0 {
        lemma_entry_pos(entries.drop_last(), k);
        assert forall|j: int| 0 <= j < entries.len() - 1 implies #[trigger] entries[j]
            == entries.drop_last()[j] by {}
    }
}

/// Setting a key keeps the keys strictly ascending, gives the key the new
/// value, and leaves every entry of another key as it was.
pub proof fn lemma_insert_sorted(entries: Seq<EntryModel>, k: Seq<char>, v: Seq<char>)
    requires
        keys_sorted(entries),
    ensures
        keys_sorted(insert_sorted(entries, k, v)),
        has_key(insert_sorted(entries, k, v), k),
        insert_sorted(entries, k, v).contains((k, v)),
        forall|x: EntryModel|
            x.0 != k ==> (insert_sorted(entries, k, v).contains(x) <==> entries.contains(x)),
{
    lemma_entry_pos(entries, k);
    let i = entry_pos(entries, k);
    let r = insert_sorted(entries, k, v);
    assert(r[i] == (k, v));
    assert forall|x: EntryModel| x.0 != k implies (r.contains(x) <==> entries.contains(x)) by {
        if r.contains(x) {
            let j = choose|j: int| 0 <= j < r.len() && r[j] == x;
            if i < entries.len() && entries[i].0 == k {
                assert(entries[j] == x);
            } else if j < i {
                assert(entries[j] == x);
            } else {
                assert(entries[j - 1] == x);
            }
        }
        if entries.contains(x) {
            let j = choose|j: int| 0 <= j < entries.len() && entries[j] == x;
            if i < entries.len() && entries[i].0 == k {
                assert(r[j] == x);
            } else if j < i {
                assert(r[j] == x);
            } else {
                assert(r[j + 1] == x);
            }
        }
    }
    if i < entries.len() && entries[i].0 == k {
        assert forall|a: int, b: int| 0 <= a < b < r.len() implies seq_lt(
            #[trigger] r[a].0,
            #[trigger] r[b].0,
        ) by {
            assert(r[a].0 == entries[a].0);
            assert(r[b].0 == entries[b].0);
        }
        assert(r[i].0 == k);
    } else {
        if i < entries.len() {
            lemma_seq_lt_total(entries[i].0, k);
        }
        assert forall|a: int, b: int| 0 <= a < b < r.len() implies seq_lt(
            #[trigger] r[a].0,
            #[trigger] r[b].0,
        ) by {
            if b < i {
                assert(r[a] == entries[a] && r[b] == entries[b]);
            } else if b == i {
                assert(r[a] == entries[a]);
            } else if a < i {
                assert(r[a] == entries[a] && r[b] == entries[b - 1]);
                assert(seq_lt(k, entries[i].0));
                if b - 1 > i {
                    lemma_seq_lt_transitive(k, entries[i].0, entries[b - 1].0);
                }
                lemma_seq_lt_transitive(entries[a].0, k, entries[b - 1].0);
            } else if a == i {
                assert(r[b] == entries[b - 1]);
                if b - 1 > i {
                    lemma_seq_lt_transitive(k, entries[i].0, entries[b - 1].0);
                }
            } else {
                assert(r[a] == entries[a - 1] && r[b] == entries[b - 1]);
            }
        }
        assert(r[i].0 == k);
    }
}

/// Once a prefix of the pieces fails, the whole fails with the same error.
pub proof fn lemma_error_persists(pieces: Seq<Seq<char>>, n: int, allowed: Seq<Seq<char>>)
    requires
        0 <= n <= pieces.len(),
        parse_pieces(pieces.take(n), allowed) is Err,
    ensures
        parse_pieces(pieces, allowed) == parse_pieces(pieces.take(n), allowed),
    decreases pieces.len() - n,
{
    if n < pieces.len() {
        assert(pieces.take(n + 1).drop_last() =~= pieces.take(n));
        lemma_error_persists(pieces, n + 1, allowed);
    } else {
        assert(pieces.take(n) =~= pieces);
    }
}

/// Index of the first of `required` that no entry has as key, or -1.
pub open spec fn first_missing(required: Seq<Seq<char>>, entries: Seq<EntryModel>) -> int
    decreases required.len(),
{
    if required.len() == 0 {
        -1
    } else {
        let r = first_missing(required.drop_last(), entries);
        if r >= 0 {
            r
        } else if !has_key(entries, required.last()) {
            required.len() - 1
        } else {
            -1
        }
    }
}

pub proof fn lemma_first_missing(required: Seq<Seq<char>>, entries: Seq<EntryModel>)
    ensures
        -1 <= first_missing(required, entries) < required.len(),
        first_missing(required, entries) >= 0 ==> !has_key(
            entries,
            required[first_missing(required, entries)],
        ),
        forall|j: int|
            0 <= j < required.len() && (first_missing(required, entries) < 0 || j
                < first_missing(required, entries)) ==> has_key(entries, #[trigger] required[j]),
    decreases required.len(),
{
    if required.len() > 0 {
        lemma_first_missing(required.drop_last(), entries);
        assert forall|j: int| 0 <= j < required.len() - 1 implies #[trigger] required[j]
            == required.drop_last()[j] by {}
    }
}

/// The outcome of checking that `limit` and `offset` are both given as digit runs.
pub open spec fn limit_offset_check(limit: Option<Seq<char>>, offset: Option<Seq<char>>) -> Result<
    (Seq<char>, Seq<char>),
    Seq<char>,
> {
    match (limit, offset) {
        (None, _) => Err("limit is required"@),
        (Some(_), None) => Err("offset is required"@),
        (Some(l), Some(o)) => if !all_digits(l) {
            Err("limit must be a non-negative integer"@)
        } else if !all_digits(o) {
            Err("offset must be a non-negative integer"@)
        } else {
            Ok((l, o))
        },
    }
}

/// Index of the entry with key `k`, if any.
fn find_key(entries: &Vec<(String, String)>, k: &str) -> (r: Option<usize>)
    ensures
        match r {
            Some(i) => i < entries@.len() && entries_view(entries@)[i as int].0 == k@,
            None => !has_key(entries_view(entries@), k@),
        },
{
    let mut i: usize = 0;
    while i < entries.len()
        invariant
            i <= entries@.len(),
            forall|j: int| 0 <= j < i ==> (#[trigger] entries_view(entries@)[j]).0 != k@,
        decreases entries.len() - i,
    {
        if str_eq(entries[i].0.as_str(), k) {
            return Some(i);
        }
        i = i + 1;
    }
    None
}

/// Sets `k` to `v` in an equality map kept in key order.
fn insert_entry(entries: &mut Vec<(String, String)>, k: &str, v: &str)
    ensures
        entries_view(final(entries)@) == insert_sorted(entries_view(old(entries)@), k@, v@),
{
    let ghost e = entries_view(entries@);
    let mut i: usize = 0;
    while i < entries.len() && str_lt(entries[i].0.as_str(), k)
        invariant
            e == entries_view(entries@),
            i <= entries@.len(),
            forall|j: int| 0 <= j < i ==> seq_lt(#[trigger] e[j].0, k@),
        decreases entries.len() - i,
    {
        i = i + 1;
    }
    proof {
        lemma_entry_pos(e, k@);
        let p = entry_pos(e, k@);
        if p < i {
            assert(seq_lt(e[p].0, k@));
        }
        if i < p {
            assert(seq_lt(e[i as int].0, k@));
        }
        assert(p == i);
    }
    let entry = (String::from_str(k), String::from_str(v));
    if i < entries.len() && str_eq(entries[i].0.as_str(), k) {
        entries.set(i, entry);
        assert(entries_view(entries@) =~= e.update(i as int, (k@, v@)));
    } else {
        entries.insert(i, entry);
        assert(entries_view(entries@) =~= e.insert(i as int, (k@, v@)));
    }
}

impl Query {
    /// Parses a query string against the allowlist `fields` of filter and sort fields.
    pub fn new(str: &str, fields: &[&str]) -> (r: Result<Self, ParseError>)
        ensures
            viewed(r) == query_of(str@, views(fields@)),
            r matches Ok(q) ==> keys_sorted(q@.query),
    {
        let ghost allowed = views(fields@);
        let queries = split_str(str, '&');
        let ghost pieces = views(queries@);
        let mut query: Vec<(String, String)> = Vec::new();
        let mut filters: Vec<Filter> = Vec::new();
        let mut sort: Option<Sort> = None;
        let mut limit_offset: (Option<String>, Option<String>) = (None, None);
        let mut i: usize = 0;
        assert(pieces.take(0) =~= Seq::<Seq<char>>::empty());
        assert(entries_view(query@) =~= Seq::<EntryModel>::empty());
        assert(filters_view(filters@) =~= Seq::<(Seq<char>, Condition, Seq<char>)>::empty());
        while i < queries.len()
            invariant
                pieces == views(queries@),
                pieces == split_on(str@, '&'),
                allowed == views(fields@),
                i <= queries@.len(),
                keys_sorted(entries_view(query@)),
                parse_pieces(pieces.take(i as int), allowed) == Ok::<QueryModel, ParseError>(
                    QueryModel {
                        query: entries_view(query@),
                        filters: filters_view(filters@),
                        sort: sort_view(sort),
                        limit: string_view(limit_offset.0),
                        offset: string_view(limit_offset.1),
                        group_by: None,
                    },
                ),
            decreases queries.len() - i,
        {
            let ghost m = QueryModel {
                query: entries_view(query@),
                filters: filters_view(filters@),
                sort: sort_view(sort),
                limit: string_view(limit_offset.0),
                offset: string_view(limit_offset.1),
                group_by: None,
            };
            let q = queries[i];
            proof {
                assert(pieces.take(i + 1).drop_last() =~= pieces.take(i as int));
                assert(pieces.take(i + 1).last() == q@);
                reveal_strlit("filter[]");
                reveal_strlit("sort");
                reveal_strlit("limit");
                reveal_strlit("offset");
            }
            match split_once_str(q, '=') {
                None => {},
                Some((k, v)) => {
                    if str_eq(k, "filter[]") {
                        match Filter::new(v, fields) {
                            Ok(f) => {
                                let ghost old_filters = filters@;
                                filters.push(f);
                                assert(filters_view(filters@) =~= filters_view(old_filters).push(
                                    f@,
                                ));
                            },
                            Err(e) => {
                                proof {
                                    lemma_error_persists(pieces, i + 1, allowed);
                                }
                                return Err(e);
                            },
                        }
                    } else if str_eq(k, "sort") {
                        match Sort::new(v, fields) {
                            Ok(s) => {
                                sort = Some(s);
                            },
                            Err(e) => {
                                proof {
                                    lemma_error_persists(pieces, i + 1, allowed);
                                }
                                return Err(e);
                            },
                        }
                    } else if str_eq(k, "limit") {
                        limit_offset.0 = Some(String::from_str(v));
                    } else if str_eq(k, "offset") {
                        limit_offset.1 = Some(String::from_str(v));
                    } else {
                        proof {
                            lemma_insert_sorted(entries_view(query@), k@, v@);
                        }
                        insert_entry(&mut query, k, v);
                    }
                },
            }
            i = i + 1;
        }
        assert(pieces.take(queries@.len() as int) =~= pieces);
        Ok(Query { query, filters, sort, limit_offset, group_by: None })
    }

    /// Whether the equality map has the key `k`.
    pub fn has_key(&self, k: &str) -> (r: bool)
        ensures
            r == has_key(self@.query, k@),
    {
        find_key(&self.query, k).is_some()
    }

    /// Requires each of `required` as a key of the equality map; the first one
    /// missing is reported as `<key> is required`.
    pub fn check_valid(&self, required: Vec<&str>) -> (r: Result<(), String>)
        ensures
            ({
                let i = first_missing(views(required@), self@.query);
                &&& i < 0 ==> r is Ok
                &&& i >= 0 ==> (r matches Err(msg) && msg@ == required@[i]@ + " is required"@)
            }),
    {
        let ghost req = views(required@);
        let mut i: usize = 0;
        while i < required.len()
            invariant
                req == views(required@),
                i <= required@.len(),
                forall|j: int| 0 <= j < i ==> has_key(self@.query, #[trigger] req[j]),
            decreases required.len() - i,
        {
            let r = required[i];
            if find_key(&self.query, r).is_none() {
                proof {
                    lemma_first_missing(req, self@.query);
                    let k = first_missing(req, self@.query);
                    assert(!has_key(self@.query, req[i as int]));
                    if 0 <= k < i {
                        assert(has_key(self@.query, req[k]));
                    }
                    assert(k == i);
                }
                let mut res = String::new();
                res.append(r);
                res.append(" is required");
                return Err(res);
            }
            i = i + 1;
        }
        proof {
            lemma_first_missing(req, self@.query);
            let k = first_missing(req, self@.query);
            if k >= 0 {
                assert(has_key(self@.query, req[k]));
            }
        }
        Ok(())
    }

    /// Requires both `limit` and `offset`, each a non-empty run of ASCII digits,
    /// and returns them.
    pub fn check_limit_and_offset(&self) -> (r: Result<(&str, &str), String>)
        ensures
            match limit_offset_check(self@.limit, self@.offset) {
                Ok((l, o)) => r matches Ok((x, y)) && x@ == l && y@ == o,
                Err(msg) => r matches Err(m) && m@ == msg,
            },
    {
        let limit = match &self.limit_offset.0 {
            Some(l) => l.as_str(),
            None => {
                return Err(String::from_str("limit is required"));
            },
        };
        let offset = match &self.limit_offset.1 {
            Some(o) => o.as_str(),
            None => {
                return Err(String::from_str("offset is required"));
            },
        };
        if !is_all_digits(limit) {
            return Err(String::from_str("limit must be a non-negative integer"));
        }
        if !is_all_digits(offset) {
            return Err(String::from_str("offset must be a non-negative integer"));
        }
        Ok((limit, offset))
    }
}

} // verus!
