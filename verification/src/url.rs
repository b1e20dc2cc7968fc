//! The query as a REST-style URL: a table, then `column=eq.value` filters,
//! an `order=` clause, `limit=` and `offset=`, joined with `&`.

use vstd::prelude::*;
use crate::sql::{Direction, Operator, Select, SelectView, LIMIT_DEFAULT};
use crate::text::{decimal, decimal_string, join, join_strings, lemma_join_step, texts};

verus! {

/// The tag that names an operator in a filter parameter.
pub open spec fn operator_url(o: Operator) -> Seq<char> {
    match o {
        Operator::EQUALS => "eq"@,
    }
}

/// The tag that names a direction in the order clause.
pub open spec fn direction_url(d: Direction) -> Seq<char> {
    match d {
        Direction::ASC => "asc"@,
        Direction::DESC => "desc"@,
    }
}

/// One filter as a parameter: the column, `=`, the operator's tag, a dot and
/// the value.
pub open spec fn filter_url(f: (Seq<char>, Operator, Seq<char>)) -> Seq<char> {
    f.0 + "="@ + operator_url(f.1) + "."@ + f.2
}

/// One ordering step inside the order clause: the column, a dot and the
/// direction's tag.
pub open spec fn order_url(o: (Seq<char>, Direction)) -> Seq<char> {
    o.0 + "."@ + direction_url(o.1)
}

pub open spec fn filter_params(q: SelectView) -> Seq<Seq<char>> {
    q.filter.map_values(|f| filter_url(f))
}

/// The order clause as one parameter, or none without ordering steps.
pub open spec fn order_params(q: SelectView) -> Seq<Seq<char>> {
    if q.order.len() == 0 {
        Seq::empty()
    } else {
        seq!["order="@ + join(q.order.map_values(|o| order_url(o)), ","@)]
    }
}

/// The limit as a parameter, left out where it is zero or the default.
pub open spec fn limit_params(q: SelectView) -> Seq<Seq<char>> {
    if q.limit == 0 || q.limit == LIMIT_DEFAULT {
        Seq::empty()
    } else {
        seq!["limit="@ + decimal(q.limit)]
    }
}

/// The offset as a parameter, left out where it is zero.
pub open spec fn offset_params(q: SelectView) -> Seq<Seq<char>> {
    if q.offset == 0 {
        Seq::empty()
    } else {
        seq!["offset="@ + decimal(q.offset)]
    }
}

/// The parameters of a query in canonical order: filters, order, limit,
/// offset.
pub open spec fn url_params(q: SelectView) -> Seq<Seq<char>> {
    filter_params(q) + order_params(q) + limit_params(q) + offset_params(q)
}

/// The query string: the parameters joined with `&`.
pub open spec fn url_query(q: SelectView) -> Seq<char> {
    join(url_params(q), "&"@)
}

/// The URL of a query: the table alone where there is no parameter, else
/// the table, `?` and the query string.
pub open spec fn url_text(q: SelectView) -> Seq<char> {
    if url_params(q).len() == 0 {
        q.table
    } else {
        q.table + "?"@ + url_query(q)
    }
}

fn operator_tag(o: Operator) -> (r: &'static str)
    ensures
        r@ == operator_url(o),
{
    match o {
        Operator::EQUALS => "eq",
    }
}

fn direction_tag(d: Direction) -> (r: &'static str)
    ensures
        r@ == direction_url(d),
{
    match d {
        Direction::ASC => "asc",
        Direction::DESC => "desc",
    }
}

/// The order clause of a query with at least one ordering step.
fn order_param(s: &Select) -> (r: String)
    requires
        s.order.len() > 0,
    ensures
        order_params(s@) == seq![r@],
{
    let ghost parts = s@.order.map_values(|o| order_url(o));
    let mut out = String::from_str("order=");
    let n: usize = s.order.len();
    let mut i: usize = 0;
    assert(join(parts.take(0), ","@) =~= Seq::<char>::empty());
    assert(out@ =~= "order="@ + join(parts.take(0), ","@));
    while i < n
        invariant
            n == s.order.len(),
            0 <= i <= n,
            parts == s@.order.map_values(|o| order_url(o)),
            out@ == "order="@ + join(parts.take(i as int), ","@),
        decreases n - i,
    {
        if i > 0 {
            out.append(",");
        }
        let o = &s.order[i];
        out.append(o.0.as_str());
        out.append(".");
        out.append(direction_tag(o.1));
        proof {
            lemma_join_step(parts, ","@, i as int);
            assert(parts[i as int] == order_url(s@.order[i as int]));
            assert(out@ =~= "order="@ + join(parts.take(i as int + 1), ","@));
        }
        i = i + 1;
    }
    assert(parts.take(n as int) =~= parts);
    out
}

/// The parameters of a query, each as a string of its own.
fn params_of(s: &Select) -> (params: Vec<String>)
    ensures
        texts(params@) == url_params(s@),
{
    let mut params: Vec<String> = Vec::new();
    let n: usize = s.filter.len();
    let mut i: usize = 0;
    assert(texts(params@) =~= filter_params(s@).take(0));
    while i < n
        invariant
            n == s.filter.len(),
            0 <= i <= n,
            texts(params@) == filter_params(s@).take(i as int),
        decreases n - i,
    {
        let f = &s.filter[i];
        let mut p = f.0.clone();
        p.append("=");
        p.append(operator_tag(f.1));
        p.append(".");
        p.append(f.2.as_str());
        assert(p@ =~= filter_url(s@.filter[i as int]));
        let ghost before = params@;
        params.push(p);
        proof {
            let target = filter_params(s@).take(i as int + 1);
            assert(s@.filter.len() == n);
            assert(filter_params(s@).len() == n);
            assert(texts(before).len() == before.len());
            assert(filter_params(s@).take(i as int).len() == i);
            assert(before.len() == i);
            assert(texts(params@).len() == target.len());
            assert forall|j: int| 0 <= j < target.len() implies texts(params@)[j] == target[j] by {
                if j < i {
                    assert(params@[j] == before[j]);
                    assert(texts(before)[j] == filter_params(s@).take(i as int)[j]);
                }
            }
            assert(texts(params@) =~= target);
        }
        i = i + 1;
    }
    assert(filter_params(s@).take(n as int) =~= filter_params(s@));
    if s.order.len() > 0 {
        let p = order_param(s);
        params.push(p);
    }
    assert(texts(params@) =~= filter_params(s@) + order_params(s@));
    if s.limit > 0 && s.limit != LIMIT_DEFAULT {
        let mut p = String::from_str("limit=");
        p.append(decimal_string(s.limit).as_str());
        params.push(p);
    }
    assert(texts(params@) =~= filter_params(s@) + order_params(s@) + limit_params(s@));
    if s.offset > 0 {
        let mut p = String::from_str("offset=");
        p.append(decimal_string(s.offset).as_str());
        params.push(p);
    }
    assert(texts(params@) =~= url_params(s@));
    params
}

/// Renders a query as its canonical URL.
///
/// A limit that is zero or the default, and an offset of zero, are left
/// out, so queries that differ only there share one URL.
pub fn select_to_url(s: &Select) -> (r: String)
    ensures
        r@ == url_text(s@),
{
    let params = params_of(s);
    if params.len() > 0 {
        let mut out = s.table.clone();
        out.append("?");
        out.append(join_strings(&params, "&").as_str());
        assert(out@ =~= url_text(s@));
        out
    } else {
        s.table.clone()
    }
}

/// The default limit is left out: a query with it has no limit parameter
/// and shares its URL with the query that sets none.
pub proof fn lemma_default_limit_left_out(q: SelectView)
    requires
        q.limit == LIMIT_DEFAULT,
    ensures
        limit_params(q) == Seq::<Seq<char>>::empty(),
        url_params(q) == filter_params(q) + order_params(q) + offset_params(q),
        url_text(q) == url_text(SelectView { limit: 0, ..q }),
{
    assert(url_params(q) =~= filter_params(q) + order_params(q) + offset_params(q));
    let zero = SelectView { limit: 0, ..q };
    assert(url_params(zero) =~= url_params(q));
}

/// An offset of zero is left out: a query with it has no offset parameter.
pub proof fn lemma_zero_offset_left_out(q: SelectView)
    requires
        q.offset == 0,
    ensures
        offset_params(q) == Seq::<Seq<char>>::empty(),
        url_params(q) == filter_params(q) + order_params(q) + limit_params(q),
{
    assert(url_params(q) =~= filter_params(q) + order_params(q) + limit_params(q));
}

/// With the default limit no parameter of the URL begins with `limit=`,
/// unless a filter's own parameter does.
pub proof fn lemma_no_limit_param(q: SelectView)
    requires
        q.limit == LIMIT_DEFAULT,
        forall|i: int|
            0 <= i < q.filter.len() ==> !"limit="@.is_prefix_of(filter_url(#[trigger] q.filter[i])),
    ensures
        forall|i: int|
            0 <= i < url_params(q).len() ==> !"limit="@.is_prefix_of(#[trigger] url_params(q)[i]),
{
    reveal_strlit("limit=");
    reveal_strlit("order=");
    reveal_strlit("offset=");
    let f = filter_params(q);
    let o = order_params(q);
    let p = offset_params(q);
    assert forall|i: int| 0 <= i < url_params(q).len() implies !"limit="@.is_prefix_of(
        #[trigger] url_params(q)[i],
    ) by {
        let param = url_params(q)[i];
        if i < f.len() {
            assert(param == filter_url(q.filter[i]));
        } else if i < f.len() + o.len() {
            assert(param == o[0]);
            assert(param[0] == 'o');
            if "limit="@.is_prefix_of(param) {
                assert(param.subrange(0, 6)[0] == 'l');
            }
        } else {
            assert(param == p[0]);
            assert(param[0] == 'o');
            if "limit="@.is_prefix_of(param) {
                assert(param.subrange(0, 6)[0] == 'l');
            }
        }
    }
}

/// With an offset of zero no parameter of the URL begins with `offset=`,
/// unless a filter's own parameter does.
pub proof fn lemma_no_offset_param(q: SelectView)
    requires
        q.offset == 0,
        forall|i: int|
            0 <= i < q.filter.len() ==> !"offset="@.is_prefix_of(
                filter_url(#[trigger] q.filter[i]),
            ),
    ensures
        forall|i: int|
            0 <= i < url_params(q).len() ==> !"offset="@.is_prefix_of(#[trigger] url_params(q)[i]),
{
    reveal_strlit("limit=");
    reveal_strlit("order=");
    reveal_strlit("offset=");
    let f = filter_params(q);
    let o = order_params(q);
    let l = limit_params(q);
    assert forall|i: int| 0 <= i < url_params(q).len() implies !"offset="@.is_prefix_of(
        #[trigger] url_params(q)[i],
    ) by {
        let param = url_params(q)[i];
        if i < f.len() {
            assert(param == filter_url(q.filter[i]));
        } else if i < f.len() + o.len() {
            assert(param == o[0]);
            assert(param[1] == 'r');
            if "offset="@.is_prefix_of(param) {
                assert(param.subrange(0, 7)[1] == 'f');
            }
        } else {
            assert(param == l[0]);
            assert(param[0] == 'l');
            if "offset="@.is_prefix_of(param) {
                assert(param.subrange(0, 7)[0] == 'o');
            }
        }
    }
}

} // verus!
