//! Reading back what was rendered: the URL of a query, read again, gives
//! the query.

use vstd::prelude::*;
use crate::error::QueryError;
use crate::parse::{
    filter_of,
    initial,
    order_of,
    parsed,
    parsed_url,
    with_orders,
    with_param,
    with_params,
};
use crate::sql::{capped, Direction, Operator, SelectView, LIMIT_DEFAULT, LIMIT_MAX};
use crate::text::{
    decimal,
    decimal_word,
    digit_value,
    join,
    lacks,
    lemma_decimal_digits,
    lemma_decimal_value,
    lemma_first_index_is,
    lemma_last_index_is,
    lemma_split_join,
    split,
};
use crate::url::{
    direction_url,
    filter_params,
    filter_url,
    limit_params,
    offset_params,
    order_params,
    order_url,
    url_params,
    url_query,
    url_text,
};

verus! {

/// A filter that a URL can carry: its column is a name that stands for no
/// other kind of parameter and holds neither `=` nor `&`, and its value
/// holds no `&`.
pub open spec fn filter_fits(f: (Seq<char>, Operator, Seq<char>)) -> bool {
    &&& f.0.len() > 0
    &&& lacks(f.0, '=')
    &&& lacks(f.0, '&')
    &&& f.0 != "order"@
    &&& f.0 != "limit"@
    &&& f.0 != "offset"@
    &&& lacks(f.2, '&')
}

/// An ordering step that a URL can carry: its column holds neither `,` nor
/// `&`.
pub open spec fn order_fits(o: (Seq<char>, Direction)) -> bool {
    &&& lacks(o.0, ',')
    &&& lacks(o.0, '&')
}

/// A query that a URL can carry: a table is named, without `?`; the limit
/// is at least one and within bounds; the offset fits the machine's word;
/// every filter and ordering step fits.
pub open spec fn url_fits(q: SelectView) -> bool {
    &&& q.table.len() > 0
    &&& lacks(q.table, '?')
    &&& 1 <= q.limit <= LIMIT_MAX
    &&& q.offset <= usize::MAX
    &&& forall|i: int| 0 <= i < q.filter.len() ==> filter_fits(#[trigger] q.filter[i])
    &&& forall|i: int| 0 <= i < q.order.len() ==> order_fits(#[trigger] q.order[i])
}

/// Reading the parameter of a filter adds the filter.
pub proof fn lemma_read_filter(q: SelectView, f: (Seq<char>, Operator, Seq<char>))
    requires
        filter_fits(f),
    ensures
        with_param(q, filter_url(f)) == Ok::<SelectView, QueryError>(
            SelectView { filter: q.filter.push(f), ..q },
        ),
        lacks(filter_url(f), '&'),
{
    reveal_strlit("=");
    reveal_strlit("eq");
    reveal_strlit(".");
    reveal_strlit("eq.");
    let p = filter_url(f);
    let n = f.0.len() as int;
    assert(p =~= f.0 + seq!['=', 'e', 'q', '.'] + f.2);
    assert(p[n] == '=');
    assert forall|j: int| 0 <= j < n implies p[j] != '=' by {
        assert(p[j] == f.0[j]);
    }
    lemma_first_index_is(p, '=', n);
    assert(p.take(n) =~= f.0);
    let value = p.skip(n + 1);
    assert(value =~= "eq."@ + f.2);
    assert(value.subrange(0, 3) =~= "eq."@);
    assert(value.skip(3) =~= f.2);
    assert(filter_of(f.0, value) == f);
    assert forall|j: int| 0 <= j < p.len() implies p[j] != '&' by {
        if j < n {
            assert(p[j] == f.0[j]);
        } else if j >= n + 4 {
            assert(p[j] == f.2[j - n - 4]);
        }
    }
}

/// Reading the text of an ordering step gives the step.
pub proof fn lemma_read_order(o: (Seq<char>, Direction))
    requires
        order_fits(o),
    ensures
        order_of(order_url(o)) == Ok::<(Seq<char>, Direction), QueryError>(o),
        lacks(order_url(o), ','),
        lacks(order_url(o), '&'),
{
    reveal_strlit(".");
    reveal_strlit("asc");
    reveal_strlit("desc");
    let p = order_url(o);
    let n = o.0.len() as int;
    let tag = direction_url(o.1);
    assert(p =~= o.0 + seq!['.'] + tag);
    assert(p[n] == '.');
    assert forall|j: int| n < j < p.len() implies p[j] != '.' by {
        assert(p[j] == tag[j - n - 1]);
    }
    lemma_last_index_is(p, '.', n);
    assert(p.skip(n + 1) =~= tag);
    assert(p.take(n) =~= o.0);
    assert("asc"@ != "desc"@) by {
        assert("asc"@.len() != "desc"@.len());
    }
    assert forall|j: int| 0 <= j < p.len() implies p[j] != ',' && p[j] != '&' by {
        if j < n {
            assert(p[j] == o.0[j]);
        } else if j > n {
            assert(p[j] == tag[j - n - 1]);
        }
    }
}

/// Reading the texts of ordering steps appends the steps.
pub proof fn lemma_read_orders(q: SelectView, steps: Seq<(Seq<char>, Direction)>)
    requires
        forall|i: int| 0 <= i < steps.len() ==> order_fits(#[trigger] steps[i]),
    ensures
        with_orders(q, steps.map_values(|o| order_url(o))) == Ok::<SelectView, QueryError>(
            SelectView { order: q.order + steps, ..q },
        ),
    decreases steps.len(),
{
    let items = steps.map_values(|o| order_url(o));
    if steps.len() == 0 {
        assert(q.order + steps =~= q.order);
    } else {
        lemma_read_order(steps[0]);
        assert(items[0] == order_url(steps[0]));
        let next = SelectView { order: q.order.push(steps[0]), ..q };
        let rest = steps.drop_first();
        assert(items.drop_first() =~= rest.map_values(|o| order_url(o)));
        assert forall|i: int| 0 <= i < rest.len() implies order_fits(#[trigger] rest[i]) by {
            assert(rest[i] == steps[i + 1]);
        }
        lemma_read_orders(next, rest);
        assert(next.order + rest =~= q.order + steps);
    }
}

/// Reading the order clause appends its steps.
pub proof fn lemma_read_order_param(q: SelectView, steps: Seq<(Seq<char>, Direction)>)
    requires
        steps.len() > 0,
        forall|i: int| 0 <= i < steps.len() ==> order_fits(#[trigger] steps[i]),
    ensures
        with_param(q, "order="@ + join(steps.map_values(|o| order_url(o)), ","@)) == Ok::<
            SelectView,
            QueryError,
        >(SelectView { order: q.order + steps, ..q }),
        lacks("order="@ + join(steps.map_values(|o| order_url(o)), ","@), '&'),
{
    reveal_strlit("order=");
    reveal_strlit("order");
    reveal_strlit(",");
    let items = steps.map_values(|o| order_url(o));
    let value = join(items, ","@);
    let p = "order="@ + value;
    assert(","@ =~= seq![',']);
    assert forall|i: int| 0 <= i < items.len() implies lacks(#[trigger] items[i], ',') && lacks(
        items[i],
        '&',
    ) by {
        lemma_read_order(steps[i]);
    }
    lemma_split_join(items, ',');
    lemma_read_orders(q, steps);
    lemma_first_index_is(p, '=', 5);
    assert(p.take(5) =~= "order"@);
    assert(p.skip(6) =~= value);
    lemma_join_lacks(items, ","@, '&');
    assert forall|j: int| 0 <= j < p.len() implies p[j] != '&' by {
        if j >= 6 {
            assert(p[j] == value[j - 6]);
        }
    }
}

/// Pieces without `c`, joined with a separator without `c`, hold no `c`.
pub proof fn lemma_join_lacks(parts: Seq<Seq<char>>, sep: Seq<char>, c: char)
    requires
        lacks(sep, c),
        forall|i: int| 0 <= i < parts.len() ==> lacks(#[trigger] parts[i], c),
    ensures
        lacks(join(parts, sep), c),
    decreases parts.len(),
{
    if parts.len() >= 2 {
        let front = parts.drop_last();
        assert forall|i: int| 0 <= i < front.len() implies lacks(#[trigger] front[i], c) by {
            assert(front[i] == parts[i]);
        }
        lemma_join_lacks(front, sep, c);
        let a = join(front, sep);
        let whole = a + sep + parts.last();
        assert(lacks(parts.last(), c));
        assert forall|j: int| 0 <= j < whole.len() implies whole[j] != c by {
            if j < a.len() {
                assert(whole[j] == a[j]);
            } else if j < a.len() + sep.len() {
                assert(whole[j] == sep[j - a.len()]);
            } else {
                assert(whole[j] == parts.last()[j - a.len() - sep.len()]);
            }
        }
    } else if parts.len() == 1 {
        assert(lacks(parts[0], c));
    }
}

/// Reading the limit parameter sets the limit, capped.
pub proof fn lemma_read_limit(q: SelectView, n: nat)
    requires
        n <= usize::MAX,
    ensures
        with_param(q, "limit="@ + decimal(n)) == Ok::<SelectView, QueryError>(
            SelectView { limit: capped(n), ..q },
        ),
        lacks("limit="@ + decimal(n), '&'),
{
    reveal_strlit("limit=");
    reveal_strlit("limit");
    reveal_strlit("order");
    let p = "limit="@ + decimal(n);
    lemma_decimal_value(n);
    lemma_decimal_digits(n);
    lemma_first_index_is(p, '=', 5);
    assert(p.take(5) =~= "limit"@);
    assert(p.skip(6) =~= decimal(n));
    assert("limit"@ != "order"@) by {
        assert("limit"@[0] != "order"@[0]);
    }
    assert(decimal_word(decimal(n)) == Some(n as usize));
    assert forall|j: int| 0 <= j < p.len() implies p[j] != '&' by {
        if j >= 6 {
            assert(p[j] == decimal(n)[j - 6]);
            assert(digit_value(decimal(n)[j - 6]) is Some);
        }
    }
}

/// Reading the offset parameter sets the offset.
pub proof fn lemma_read_offset(q: SelectView, n: nat)
    requires
        n <= usize::MAX,
    ensures
        with_param(q, "offset="@ + decimal(n)) == Ok::<SelectView, QueryError>(
            SelectView { offset: n, ..q },
        ),
        lacks("offset="@ + decimal(n), '&'),
{
    reveal_strlit("offset=");
    reveal_strlit("offset");
    reveal_strlit("limit");
    reveal_strlit("order");
    let p = "offset="@ + decimal(n);
    lemma_decimal_value(n);
    lemma_decimal_digits(n);
    lemma_first_index_is(p, '=', 6);
    assert(p.take(6) =~= "offset"@);
    assert(p.skip(7) =~= decimal(n));
    assert("offset"@ != "order"@) by {
        assert("offset"@.len() != "order"@.len());
    }
    assert("offset"@ != "limit"@) by {
        assert("offset"@.len() != "limit"@.len());
    }
    assert(decimal_word(decimal(n)) == Some(n as usize));
    assert forall|j: int| 0 <= j < p.len() implies p[j] != '&' by {
        if j >= 7 {
            assert(p[j] == decimal(n)[j - 7]);
            assert(digit_value(decimal(n)[j - 7]) is Some);
        }
    }
}

/// Reading parameters one list after another is reading the two lists in
/// one.
pub proof fn lemma_with_params_concat(q: SelectView, a: Seq<Seq<char>>, b: Seq<Seq<char>>)
    ensures
        with_params(q, a + b) == match with_params(q, a) {
            Ok(next) => with_params(next, b),
            Err(e) => Err(e),
        },
    decreases a.len(),
{
    if a.len() == 0 {
        assert(a + b =~= b);
    } else {
        assert((a + b)[0] == a[0]);
        assert((a + b).drop_first() =~= a.drop_first() + b);
        match with_param(q, a[0]) {
            Ok(next) => {
                lemma_with_params_concat(next, a.drop_first(), b);
            },
            Err(e) => {},
        }
    }
}

/// Reading the parameters of filters appends the filters.
pub proof fn lemma_read_filters(q: SelectView, filters: Seq<(Seq<char>, Operator, Seq<char>)>)
    requires
        forall|i: int| 0 <= i < filters.len() ==> filter_fits(#[trigger] filters[i]),
    ensures
        with_params(q, filters.map_values(|f| filter_url(f))) == Ok::<SelectView, QueryError>(
            SelectView { filter: q.filter + filters, ..q },
        ),
    decreases filters.len(),
{
    let params = filters.map_values(|f| filter_url(f));
    if filters.len() == 0 {
        assert(q.filter + filters =~= q.filter);
    } else {
        lemma_read_filter(q, filters[0]);
        assert(params[0] == filter_url(filters[0]));
        let next = SelectView { filter: q.filter.push(filters[0]), ..q };
        let rest = filters.drop_first();
        assert(params.drop_first() =~= rest.map_values(|f| filter_url(f)));
        assert forall|i: int| 0 <= i < rest.len() implies filter_fits(#[trigger] rest[i]) by {
            assert(rest[i] == filters[i + 1]);
        }
        lemma_read_filters(next, rest);
        assert(next.filter + rest =~= q.filter + filters);
    }
}

/// The parameters of a query that a URL can carry, read one after the
/// other from the start of a request for its table, give the query.
pub proof fn lemma_read_params(q: SelectView)
    requires
        url_fits(q),
    ensures
        with_params(initial(q.table), url_params(q)) == Ok::<SelectView, QueryError>(
            SelectView { select: Seq::empty(), ..q },
        ),
        forall|i: int| 0 <= i < url_params(q).len() ==> lacks(#[trigger] url_params(q)[i], '&'),
{
    let start = initial(q.table);
    let f = filter_params(q);
    let o = order_params(q);
    let l = limit_params(q);
    let p = offset_params(q);
    lemma_read_filters(start, q.filter);
    let q1 = SelectView { filter: start.filter + q.filter, ..start };
    assert(start.filter + q.filter =~= q.filter);
    assert(with_params(start, f) == Ok::<SelectView, QueryError>(q1));
    let q2 = SelectView { order: q.order, ..q1 };
    assert(q1.order + q.order =~= q.order);
    if q.order.len() > 0 {
        lemma_read_order_param(q1, q.order);
        assert(o.drop_first() =~= Seq::<Seq<char>>::empty());
        assert(with_params(q2, o.drop_first()) == Ok::<SelectView, QueryError>(q2));
        assert(with_params(q1, o) == Ok::<SelectView, QueryError>(q2));
    } else {
        assert(q1.order =~= q.order);
        assert(with_params(q1, o) == Ok::<SelectView, QueryError>(q2));
    }
    let q3 = SelectView { limit: q.limit, ..q2 };
    if q.limit != LIMIT_DEFAULT {
        lemma_read_limit(q2, q.limit);
        assert(l.drop_first() =~= Seq::<Seq<char>>::empty());
        assert(with_params(q3, l.drop_first()) == Ok::<SelectView, QueryError>(q3));
        assert(with_params(q2, l) == Ok::<SelectView, QueryError>(q3));
    } else {
        assert(with_params(q2, l) == Ok::<SelectView, QueryError>(q3));
    }
    let q4 = SelectView { offset: q.offset, ..q3 };
    if q.offset != 0 {
        lemma_read_offset(q3, q.offset);
        assert(p.drop_first() =~= Seq::<Seq<char>>::empty());
        assert(with_params(q4, p.drop_first()) == Ok::<SelectView, QueryError>(q4));
        assert(with_params(q3, p) == Ok::<SelectView, QueryError>(q4));
    } else {
        assert(with_params(q3, p) == Ok::<SelectView, QueryError>(q4));
    }
    lemma_with_params_concat(start, f, o);
    lemma_with_params_concat(start, f + o, l);
    lemma_with_params_concat(start, f + o + l, p);
    assert(q4 == (SelectView { select: Seq::empty(), ..q }));
    assert forall|i: int| 0 <= i < url_params(q).len() implies lacks(
        #[trigger] url_params(q)[i],
        '&',
    ) by {
        if i < f.len() {
            lemma_read_filter(q, q.filter[i]);
            assert(url_params(q)[i] == filter_url(q.filter[i]));
        } else if i < f.len() + o.len() {
            lemma_read_order_param(q, q.order);
            assert(url_params(q)[i] == o[0]);
        } else if i < f.len() + o.len() + l.len() {
            lemma_read_limit(q, q.limit);
            assert(url_params(q)[i] == l[0]);
        } else {
            lemma_read_offset(q, q.offset);
            assert(url_params(q)[i] == p[0]);
        }
    }
}

/// The round trip: the URL of a query that a URL can carry, read again,
/// gives the query, with its filters and ordering steps in their order,
/// its limit and its offset. The projected columns are no part of a URL:
/// the query read names none.
pub proof fn lemma_round_trip(q: SelectView)
    requires
        url_fits(q),
    ensures
        parsed(q.table, url_query(q)) == Ok::<SelectView, QueryError>(
            SelectView { select: Seq::empty(), ..q },
        ),
        parsed_url(url_text(q)) == Ok::<SelectView, QueryError>(
            SelectView { select: Seq::empty(), ..q },
        ),
{
    reveal_strlit("&");
    reveal_strlit("?");
    let params = url_params(q);
    let start = initial(q.table);
    lemma_read_params(q);
    assert("&"@ =~= seq!['&']);
    if params.len() == 0 {
        assert(url_query(q) =~= Seq::<char>::empty());
        let parts = split(url_query(q), '&');
        assert(parts =~= seq![Seq::<char>::empty()]);
        assert(with_param(start, parts[0]) == Ok::<SelectView, QueryError>(start));
        assert(parts.drop_first() =~= Seq::<Seq<char>>::empty());
        assert(with_params(start, parts) == Ok::<SelectView, QueryError>(start));
        lemma_first_index_is(q.table, '?', q.table.len() as int);
    } else {
        lemma_split_join(params, '&');
        let url = url_text(q);
        assert(url =~= q.table + seq!['?'] + url_query(q));
        let n = q.table.len() as int;
        assert(url[n] == '?');
        assert forall|j: int| 0 <= j < n implies url[j] != '?' by {
            assert(url[j] == q.table[j]);
        }
        lemma_first_index_is(url, '?', n);
        assert(url.take(n) =~= q.table);
        assert(url.skip(n + 1) =~= url_query(q));
    }
}

} // verus!
