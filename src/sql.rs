//! Compilation of a parsed query into SQL text with positional placeholders.

use crate::case::{snake_of, to_snake};
use crate::error::ParseError;
use crate::filter::{operator_of, space, Condition};
use crate::query::{EntryModel, Query, QueryModel};
use crate::sort::keyword_of;
use crate::text::{
    all_digits, decimal, decimal_string, is_all_digits, join_with, key_index, lemma_key_index,
    pair_views, str_eq, views,
};
use vstd::prelude::*;

verus! {

/// SQL text and its parameters, one `(field, raw value)` pair per placeholder.
pub type CompiledModel = (Seq<char>, Seq<EntryModel>);

/// The column a field is stored in: its snake_case form, prefixed with the
/// owning table where the qualification map names one.
pub open spec fn column_of(field: Seq<char>, columns: Seq<(Seq<char>, Seq<char>)>) -> Seq<char> {
    let i = key_index(columns, field);
    if i >= 0 {
        columns[i].1 + seq!['.'] + snake_of(field)
    } else {
        snake_of(field)
    }
}

/// `column = $n` for each equality entry, numbered from 1.
pub open spec fn eq_predicates(
    entries: Seq<EntryModel>,
    columns: Seq<(Seq<char>, Seq<char>)>,
) -> Seq<Seq<char>> {
    Seq::new(
        entries.len(),
        |i: int| column_of(entries[i].0, columns) + " = $"@ + decimal((i + 1) as nat),
    )
}

/// `column op $n` for each filter, numbered on from `first`.
pub open spec fn filter_predicates(
    filters: Seq<(Seq<char>, Condition, Seq<char>)>,
    columns: Seq<(Seq<char>, Seq<char>)>,
    first: nat,
) -> Seq<Seq<char>> {
    Seq::new(
        filters.len(),
        |j: int|
            column_of(filters[j].0, columns) + space() + operator_of(filters[j].1) + " $"@
                + decimal((first + j) as nat),
    )
}

/// All predicates: equality entries first, then filters.
pub open spec fn predicates_of(q: QueryModel, columns: Seq<(Seq<char>, Seq<char>)>) -> Seq<
    Seq<char>,
> {
    eq_predicates(q.query, columns) + filter_predicates(q.filters, columns, q.query.len() + 1)
}

/// The parameters, in placeholder order.
pub open spec fn params_of(q: QueryModel) -> Seq<EntryModel> {
    q.query + Seq::new(q.filters.len(), |j: int| (q.filters[j].0, q.filters[j].2))
}

pub open spec fn where_clause(preds: Seq<Seq<char>>) -> Seq<char> {
    if preds.len() > 0 {
        " WHERE "@ + join_with(preds, " AND "@)
    } else {
        Seq::empty()
    }
}

pub open spec fn group_clause(q: QueryModel, columns: Seq<(Seq<char>, Seq<char>)>) -> Seq<char> {
    match q.group_by {
        Some(g) => " GROUP BY "@ + column_of(g, columns),
        None => Seq::empty(),
    }
}

pub open spec fn order_clause(q: QueryModel, columns: Seq<(Seq<char>, Seq<char>)>) -> Seq<char> {
    match q.sort {
        Some((f, d)) => " ORDER BY "@ + column_of(f, columns) + space() + keyword_of(d),
        None => Seq::empty(),
    }
}

pub open spec fn page_clause(q: QueryModel) -> Seq<char> {
    match (q.limit, q.offset) {
        (Some(l), Some(o)) => " LIMIT "@ + l + " OFFSET "@ + o,
        _ => Seq::empty(),
    }
}

/// What compiling `q` onto the statement prefix `base` yields. A limit or offset
/// that is given but is not a run of digits is rejected, as is a query with more
/// predicates than a `usize` can number.
pub open spec fn sql_of(
    base: Seq<char>,
    q: QueryModel,
    columns: Seq<(Seq<char>, Seq<char>)>,
) -> Result<CompiledModel, ParseError> {
    if q.query.len() + q.filters.len() >= usize::MAX {
        Err(ParseError::TooManyParameters)
    } else if q.limit is Some && !all_digits(q.limit->0) {
        Err(ParseError::InvalidLimit)
    } else if q.offset is Some && !all_digits(q.offset->0) {
        Err(ParseError::InvalidOffset)
    } else {
        Ok(
            (
                base + where_clause(predicates_of(q, columns)) + group_clause(q, columns)
                    + order_clause(q, columns) + page_clause(q),
                params_of(q),
            ),
        )
    }
}

/// `SELECT fields FROM table joins`.
pub open spec fn select_of(table: Seq<char>, fields: Seq<Seq<char>>, joins: Seq<Seq<char>>) -> Seq<
    char,
> {
    "SELECT "@ + join_with(fields, ", "@) + " FROM "@ + table + prefixed(joins)
}

/// Each of `parts` preceded by a space.
pub open spec fn prefixed(parts: Seq<Seq<char>>) -> Seq<char>
    decreases parts.len(),
{
    if parts.len() == 0 {
        Seq::empty()
    } else {
        prefixed(parts.drop_last()) + space() + parts.last()
    }
}

pub open spec fn compiled_view(r: Result<(String, Vec<(String, String)>), ParseError>) -> Result<
    CompiledModel,
    ParseError,
> {
    match r {
        Ok((sql, params)) => Ok((sql@, crate::query::entries_view(params@))),
        Err(e) => Err(e),
    }
}

proof fn lemma_entries_push(v: Seq<(String, String)>, x: (String, String))
    ensures
        crate::query::entries_view(v.push(x)) == crate::query::entries_view(v).push((x.0@, x.1@)),
{
    assert(crate::query::entries_view(v.push(x)) =~= crate::query::entries_view(v).push(
        (x.0@, x.1@),
    ));
}

/// The column for `field`, qualified by the first matching entry of `columns`.
fn column_for(field: &str, columns: &[(&str, &str)]) -> (r: String)
    ensures
        r@ == column_of(field@, pair_views(columns@)),
{
    let ghost cols = pair_views(columns@);
    proof {
        lemma_key_index(cols, field@);
    }
    let snake = to_snake(field);
    let mut i: usize = 0;
    while i < columns.len()
        invariant
            cols == pair_views(columns@),
            snake@ == snake_of(field@),
            i <= columns@.len(),
            forall|j: int| 0 <= j < i ==> (#[trigger] cols[j]).0 != field@,
            -1 <= key_index(cols, field@) < cols.len(),
            key_index(cols, field@) >= 0 ==> cols[key_index(cols, field@)].0 == field@,
            forall|j: int|
                0 <= j < cols.len() && (key_index(cols, field@) < 0 || j < key_index(
                    cols,
                    field@,
                )) ==> (#[trigger] cols[j]).0 != field@,
        decreases columns.len() - i,
    {
        let (name, table) = columns[i];
        if str_eq(name, field) {
            assert(cols[i as int].0 == field@);
            proof {
                let k = key_index(cols, field@);
                if 0 <= k < i {
                    assert(cols[k].0 != field@);
                }
            }
            assert(key_index(cols, field@) == i);
            proof {
                reveal_strlit(".");
                assert("."@ =~= seq!['.']);
                assert(cols[i as int].1 == table@);
            }
            let mut r = String::from_str(table);
            r.append(".");
            r.append(snake.as_str());
            return r;
        }
        i = i + 1;
    }
    proof {
        let k = key_index(cols, field@);
        if k >= 0 {
            assert(cols[k].0 == field@);
        }
    }
    snake
}

/// Appends `pred` to a predicate list being joined with ` AND `.
fn push_predicate(clause: &mut String, count: usize, pred: &str, preds: Ghost<Seq<Seq<char>>>)
    requires
        count < preds@.len(),
        preds@[count as int] == pred@,
        old(clause)@ == join_with(preds@.take(count as int), " AND "@),
    ensures
        final(clause)@ == join_with(preds@.take(count + 1), " AND "@),
{
    let ghost p = preds@.take(count + 1);
    assert(p.drop_last() =~= preds@.take(count as int));
    if count > 0 {
        clause.append(" AND ");
    }
    clause.append(pred);
    proof {
        if count == 0 {
            assert(old(clause)@ =~= Seq::<char>::empty());
            assert(final(clause)@ =~= p[0]);
        }
    }
}

/// Appends the predicates and parameters of the equality entries.
fn compile_entries(
    input: &Query,
    columns: &[(&str, &str)],
    clause: &mut String,
    params: &mut Vec<(String, String)>,
)
    requires
        old(clause)@ == Seq::<char>::empty(),
        old(params)@ == Seq::<(String, String)>::empty(),
    ensures
        final(clause)@ == join_with(
            predicates_of(input@, pair_views(columns@)).take(input.query@.len() as int),
            " AND "@,
        ),
        crate::query::entries_view(final(params)@) == input@.query,
{
    let ghost q = input@;
    let ghost cols = pair_views(columns@);
    let ghost preds = predicates_of(q, cols);
    let n_eq = input.query.len();
    let mut i: usize = 0;
    assert(preds.take(0) =~= Seq::<Seq<char>>::empty());
    assert(crate::query::entries_view(params@) =~= q.query.take(0));
    while i < n_eq
        invariant
            q == input@,
            cols == pair_views(columns@),
            preds == predicates_of(q, cols),
            n_eq == input.query@.len(),
            i <= n_eq,
            clause@ == join_with(preds.take(i as int), " AND "@),
            crate::query::entries_view(params@) == q.query.take(i as int),
        decreases n_eq - i,
    {
        let (key, value) = (&input.query[i].0, &input.query[i].1);
        let column = column_for(key.as_str(), columns);
        let number = decimal_string((i + 1) as u64);
        let mut pred = column;
        pred.append(" = $");
        pred.append(number.as_str());
        assert(preds[i as int] == pred@);
        push_predicate(clause, i, pred.as_str(), Ghost(preds));
        let ghost old_params = params@;
        params.push((key.clone(), value.clone()));
        proof {
            lemma_entries_push(old_params, (*key, *value));
        }
        assert(q.query[i as int] == (key@, value@));
        assert(crate::query::entries_view(params@) =~= q.query.take(i + 1));
        i = i + 1;
    }
    assert(q.query.take(n_eq as int) =~= q.query);
}

/// Appends the predicates and parameters of the filters, numbered after the
/// equality entries.
fn compile_filters(
    input: &Query,
    columns: &[(&str, &str)],
    clause: &mut String,
    params: &mut Vec<(String, String)>,
)
    requires
        input.query@.len() + input.filters@.len() < usize::MAX,
        old(clause)@ == join_with(
            predicates_of(input@, pair_views(columns@)).take(input.query@.len() as int),
            " AND "@,
        ),
        crate::query::entries_view(old(params)@) == input@.query,
    ensures
        final(clause)@ == join_with(predicates_of(input@, pair_views(columns@)), " AND "@),
        crate::query::entries_view(final(params)@) == params_of(input@),
{
    let ghost q = input@;
    let ghost cols = pair_views(columns@);
    let ghost preds = predicates_of(q, cols);
    let n_eq = input.query.len();
    let mut j: usize = 0;
    assert(params_of(q).take(n_eq as int) =~= q.query);
    while j < input.filters.len()
        invariant
            q == input@,
            cols == pair_views(columns@),
            preds == predicates_of(q, cols),
            n_eq == input.query@.len(),
            n_eq + input.filters@.len() < usize::MAX,
            j <= input.filters@.len(),
            clause@ == join_with(preds.take(n_eq + j), " AND "@),
            crate::query::entries_view(params@) == params_of(q).take(n_eq + j),
        decreases input.filters.len() - j,
    {
        let filter = &input.filters[j];
        proof {
            reveal_strlit(" ");
            assert(" "@ =~= space());
        }
        let column = column_for(filter.field.as_str(), columns);
        let number = decimal_string((n_eq + j + 1) as u64);
        let mut pred = column;
        pred.append(" ");
        pred.append(filter.condition.as_str());
        pred.append(" $");
        pred.append(number.as_str());
        assert(q.filters[j as int] == filter@);
        assert(filter_predicates(q.filters, cols, q.query.len() + 1)[j as int] == pred@);
        assert(preds[n_eq + j] == pred@);
        push_predicate(clause, n_eq + j, pred.as_str(), Ghost(preds));
        let ghost old_params = params@;
        params.push((filter.field.clone(), filter.value.clone()));
        proof {
            lemma_entries_push(old_params, (filter.field, filter.value));
        }
        assert(params_of(q)[n_eq + j] == (filter.field@, filter.value@));
        assert(crate::query::entries_view(params@) =~= params_of(q).take(n_eq + j + 1));
        j = j + 1;
    }
    assert(preds.take(preds.len() as int) =~= preds);
    assert(params_of(q).take(params_of(q).len() as int) =~= params_of(q));
}

/// Appends the GROUP BY, ORDER BY and LIMIT/OFFSET clauses.
fn compile_tail(input: &Query, columns: &[(&str, &str)], sql: &mut String)
    ensures
        final(sql)@ == old(sql)@ + group_clause(input@, pair_views(columns@)) + order_clause(
            input@,
            pair_views(columns@),
        ) + page_clause(input@),
{
    let ghost q = input@;
    let ghost cols = pair_views(columns@);
    let ghost start = sql@;
    if let Some(g) = &input.group_by {
        let column = column_for(g.as_str(), columns);
        sql.append(" GROUP BY ");
        sql.append(column.as_str());
    }
    assert(sql@ =~= start + group_clause(q, cols));
    proof {
        reveal_strlit(" ");
        assert(" "@ =~= space());
    }
    if let Some(sort) = &input.sort {
        let column = column_for(sort.field.as_str(), columns);
        sql.append(" ORDER BY ");
        sql.append(column.as_str());
        sql.append(" ");
        sql.append(sort.sort_by.as_str());
    }
    assert(sql@ =~= start + group_clause(q, cols) + order_clause(q, cols));
    if let (Some(limit), Some(offset)) = (&input.limit_offset.0, &input.limit_offset.1) {
        sql.append(" LIMIT ");
        sql.append(limit.as_str());
        sql.append(" OFFSET ");
        sql.append(offset.as_str());
    }
    assert(sql@ =~= start + group_clause(q, cols) + order_clause(q, cols) + page_clause(q));
}

/// Compiles `input` onto the statement prefix `base`, qualifying the fields that
/// `columns` maps to a table. Returns the SQL text and the `(field, raw value)`
/// parameters in placeholder order.
pub fn compile(base: &str, input: &Query, columns: &[(&str, &str)]) -> (r: Result<
    (String, Vec<(String, String)>),
    ParseError,
>)
    ensures
        compiled_view(r) == sql_of(base@, input@, pair_views(columns@)),
{
    let ghost q = input@;
    let ghost cols = pair_views(columns@);
    if input.query.len() >= usize::MAX - input.filters.len() {
        return Err(ParseError::TooManyParameters);
    }
    if let Some(l) = &input.limit_offset.0 {
        if !is_all_digits(l.as_str()) {
            return Err(ParseError::InvalidLimit);
        }
    }
    if let Some(o) = &input.limit_offset.1 {
        if !is_all_digits(o.as_str()) {
            return Err(ParseError::InvalidOffset);
        }
    }
    let mut params: Vec<(String, String)> = Vec::new();
    let mut clause = String::new();
    compile_entries(input, columns, &mut clause, &mut params);
    compile_filters(input, columns, &mut clause, &mut params);
    let mut sql = String::from_str(base);
    if input.query.len() + input.filters.len() > 0 {
        sql.append(" WHERE ");
        sql.append(clause.as_str());
    }
    assert(sql@ == base@ + where_clause(predicates_of(q, cols)));
    compile_tail(input, columns, &mut sql);
    Ok((sql, params))
}

/// Joins `parts` with `sep` between neighbours.
fn join_strs(parts: &Vec<&str>, sep: &str) -> (r: String)
    ensures
        r@ == join_with(views(parts@), sep@),
{
    let ghost p = views(parts@);
    let mut r = String::new();
    let mut i: usize = 0;
    assert(p.take(0) =~= Seq::<Seq<char>>::empty());
    while i < parts.len()
        invariant
            p == views(parts@),
            i <= parts@.len(),
            r@ == join_with(p.take(i as int), sep@),
        decreases parts.len() - i,
    {
        assert(p.take(i + 1).drop_last() =~= p.take(i as int));
        if i > 0 {
            r.append(sep);
        }
        r.append(parts[i]);
        proof {
            if i == 0 {
                assert(r@ =~= p.take(1)[0]);
            }
        }
        i = i + 1;
    }
    assert(p.take(parts@.len() as int) =~= p);
    r
}

/// Compiles `input` onto `SELECT fields FROM table joins`, with no column
/// qualification.
pub fn gen_psql(input: &Query, table: &str, fields: Vec<&str>, joins: Vec<&str>) -> (r: Result<
    (String, Vec<(String, String)>),
    ParseError,
>)
    ensures
        compiled_view(r) == sql_of(
            select_of(table@, views(fields@), views(joins@)),
            input@,
            Seq::empty(),
        ),
{
    let mut sql = String::from_str("SELECT ");
    let list = join_strs(&fields, ", ");
    sql.append(list.as_str());
    sql.append(" FROM ");
    sql.append(table);
    let ghost js = views(joins@);
    let ghost head = sql@;
    let mut i: usize = 0;
    proof {
        reveal_strlit(" ");
        assert(" "@ =~= space());
        assert(js.take(0) =~= Seq::<Seq<char>>::empty());
    }
    assert(sql@ =~= head + prefixed(js.take(0)));
    while i < joins.len()
        invariant
            js == views(joins@),
            " "@ == space(),
            i <= joins@.len(),
            sql@ == head + prefixed(js.take(i as int)),
        decreases joins.len() - i,
    {
        assert(js.take(i + 1).drop_last() =~= js.take(i as int));
        sql.append(" ");
        sql.append(joins[i]);
        assert(sql@ =~= head + prefixed(js.take(i + 1)));
        i = i + 1;
    }
    assert(js.take(joins@.len() as int) =~= js);
    let no_columns: Vec<(&str, &str)> = Vec::new();
    assert(pair_views(no_columns@) =~= Seq::<(Seq<char>, Seq<char>)>::empty());
    compile(sql.as_str(), input, no_columns.as_slice())
}

/// Compiling is a function of its inputs: any two compilations of one query,
/// onto one prefix and with one qualification map, give byte-identical SQL text
/// and identical parameter lists.
pub proof fn lemma_compile_idempotent(
    base: Seq<char>,
    input: Query,
    columns: Seq<(&str, &str)>,
    first: Result<(String, Vec<(String, String)>), ParseError>,
    second: Result<(String, Vec<(String, String)>), ParseError>,
)
    requires
        compiled_view(first) == sql_of(base, input@, pair_views(columns)),
        compiled_view(second) == sql_of(base, input@, pair_views(columns)),
    ensures
        compiled_view(first) == compiled_view(second),
        first is Ok <==> second is Ok,
        first matches Ok((s1, p1)) ==> (second matches Ok((s2, p2)) && s1@ == s2@
            && crate::query::entries_view(p1@) == crate::query::entries_view(p2@)),
{
}

/// Pagination reaches the SQL text only as digits: whenever compiling succeeds,
/// a given limit and a given offset are each a non-empty run of ASCII digits.
pub proof fn lemma_pagination_is_numeric(
    base: Seq<char>,
    q: QueryModel,
    columns: Seq<(Seq<char>, Seq<char>)>,
)
    requires
        sql_of(base, q, columns) is Ok,
    ensures
        q.limit matches Some(l) ==> all_digits(l),
        q.offset matches Some(o) ==> all_digits(o),
{
}

} // verus!
