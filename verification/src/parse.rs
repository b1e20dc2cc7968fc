//! Reading a query from a table name and a REST-style query string.
//!
//! The query string holds parameters between `&`. A parameter is a name,
//! `=` and a value: `order` names the ordering, `limit` and `offset` the
//! page, every other name a column to filter by. A parameter without `=`,
//! or without a name, is passed over.

use vstd::prelude::*;
use crate::error::QueryError;
use crate::sql::{capped, Direction, Operator, Select, SelectView, LIMIT_DEFAULT};
use crate::text::{
    begins_with,
    chars_of,
    decimal_word,
    find_first,
    find_last,
    first_index,
    last_index,
    parse_decimal,
    spells,
    split,
    text_between,
};

verus! {

/// The filter that a column and the value of its parameter stand for: the
/// value may name the operator in front, as in `eq.value`; without a tag the
/// filter asks for equality with the whole value.
pub open spec fn filter_of(column: Seq<char>, value: Seq<char>) -> (
    Seq<char>,
    Operator,
    Seq<char>,
) {
    if "eq."@.is_prefix_of(value) {
        (column, Operator::EQUALS, value.skip("eq."@.len() as int))
    } else {
        (column, Operator::EQUALS, value)
    }
}

/// One ordering step from its text, a column and a direction tag around the
/// last dot. Without a dot the text is malformed; a tag other than `asc`
/// and `desc` is not supported.
pub open spec fn order_of(item: Seq<char>) -> Result<(Seq<char>, Direction), QueryError> {
    let dot = last_index(item, '.');
    if dot < 0 {
        Err(QueryError::ParseError)
    } else if item.skip(dot + 1) == "asc"@ {
        Ok((item.take(dot), Direction::ASC))
    } else if item.skip(dot + 1) == "desc"@ {
        Ok((item.take(dot), Direction::DESC))
    } else {
        Err(QueryError::UnsupportedOperatorError)
    }
}

/// `q` with the ordering steps of `items` appended, or the error of the
/// first item that gives one.
pub open spec fn with_orders(q: SelectView, items: Seq<Seq<char>>) -> Result<
    SelectView,
    QueryError,
>
    decreases items.len(),
{
    if items.len() == 0 {
        Ok(q)
    } else {
        match order_of(items[0]) {
            Ok(step) => with_orders(
                SelectView { order: q.order.push(step), ..q },
                items.drop_first(),
            ),
            Err(e) => Err(e),
        }
    }
}

/// `q` after one parameter.
pub open spec fn with_param(q: SelectView, param: Seq<char>) -> Result<SelectView, QueryError> {
    let eq = first_index(param, '=');
    if eq >= param.len() || eq == 0 {
        Ok(q)
    } else {
        let name = param.take(eq);
        let value = param.skip(eq + 1);
        if name == "order"@ {
            with_orders(q, split(value, ','))
        } else if name == "limit"@ {
            match decimal_word(value) {
                Some(n) => Ok(SelectView { limit: capped(n as nat), ..q }),
                None => Err(QueryError::ParseError),
            }
        } else if name == "offset"@ {
            match decimal_word(value) {
                Some(n) => Ok(SelectView { offset: n as nat, ..q }),
                None => Err(QueryError::ParseError),
            }
        } else {
            Ok(SelectView { filter: q.filter.push(filter_of(name, value)), ..q })
        }
    }
}

/// `q` after the parameters of `params`, one after the other, or the error
/// of the first that gives one.
pub open spec fn with_params(q: SelectView, params: Seq<Seq<char>>) -> Result<
    SelectView,
    QueryError,
>
    decreases params.len(),
{
    if params.len() == 0 {
        Ok(q)
    } else {
        match with_param(q, params[0]) {
            Ok(next) => with_params(next, params.drop_first()),
            Err(e) => Err(e),
        }
    }
}

/// The query that every request for `table` starts from: all columns, no
/// filter, no ordering, the default limit, no offset.
pub open spec fn initial(table: Seq<char>) -> SelectView {
    SelectView {
        table,
        select: Seq::empty(),
        filter: Seq::empty(),
        order: Seq::empty(),
        limit: LIMIT_DEFAULT as nat,
        offset: 0,
    }
}

/// The query that a table name and a query string stand for. An empty
/// table name is malformed.
pub open spec fn parsed(path: Seq<char>, query: Seq<char>) -> Result<SelectView, QueryError> {
    if path.len() == 0 {
        Err(QueryError::ParseError)
    } else {
        with_params(initial(path), split(query, '&'))
    }
}

/// What a reading gave, as mathematical values.
pub open spec fn outcome(r: Result<Select, QueryError>) -> Result<SelectView, QueryError> {
    match r {
        Ok(q) => Ok(q@),
        Err(e) => Err(e),
    }
}

/// What a step on a query in place gave: the query after it, or the error.
pub open spec fn step_outcome(r: Result<(), QueryError>, after: SelectView) -> Result<
    SelectView,
    QueryError,
> {
    match r {
        Ok(_) => Ok(after),
        Err(e) => Err(e),
    }
}

/// Reads one ordering step from the characters from `from` up to `to`.
fn read_order(query: &str, chars: &Vec<char>, from: usize, to: usize) -> (r: Result<
    (String, Direction),
    QueryError,
>)
    requires
        chars@ == query@,
        from <= to <= chars@.len(),
    ensures
        match r {
            Ok(step) => order_of(chars@.subrange(from as int, to as int)) == Ok::<
                (Seq<char>, Direction),
                QueryError,
            >((step.0@, step.1)),
            Err(e) => order_of(chars@.subrange(from as int, to as int)) == Err::<
                (Seq<char>, Direction),
                QueryError,
            >(e),
        },
{
    let ghost item = chars@.subrange(from as int, to as int);
    match find_last(chars, from, to, '.') {
        None => Err(QueryError::ParseError),
        Some(dot) => {
            proof {
                assert(item.skip(dot - from + 1) =~= chars@.subrange(dot + 1, to as int));
                assert(item.take(dot - from) =~= chars@.subrange(from as int, dot as int));
            }
            if spells(chars, dot + 1, to, "asc") {
                Ok((text_between(query, from, dot), Direction::ASC))
            } else if spells(chars, dot + 1, to, "desc") {
                Ok((text_between(query, from, dot), Direction::DESC))
            } else {
                Err(QueryError::UnsupportedOperatorError)
            }
        },
    }
}

/// Appends the ordering steps that the characters from `from` up to `to`
/// list between commas.
fn read_orders(q: &mut Select, query: &str, chars: &Vec<char>, from: usize, to: usize) -> (r:
    Result<(), QueryError>)
    requires
        chars@ == query@,
        from <= to <= chars@.len(),
    ensures
        step_outcome(r, final(q)@) == with_orders(
            old(q)@,
            split(chars@.subrange(from as int, to as int), ','),
        ),
{
    let ghost target = with_orders(old(q)@, split(chars@.subrange(from as int, to as int), ','));
    let mut start: usize = from;
    let mut done: bool = false;
    while !done
        invariant
            chars@ == query@,
            from <= start <= to <= chars@.len(),
            target == with_orders(old(q)@, split(chars@.subrange(from as int, to as int), ',')),
            !done ==> with_orders(q@, split(chars@.subrange(start as int, to as int), ','))
                == target,
            done ==> Ok::<SelectView, QueryError>(q@) == target,
        decreases to - start + (if done { 0int } else { 1int }),
    {
        let ghost rest = chars@.subrange(start as int, to as int);
        let ghost before = q@;
        let end = find_first(chars, start, to, ',');
        let ghost parts = split(rest, ',');
        let ghost item = chars@.subrange(start as int, end as int);
        proof {
            assert(first_index(rest, ',') == end - start);
            if end < to {
                assert(item =~= rest.take(end - start));
                assert(rest.skip(end - start + 1) =~= chars@.subrange(end + 1, to as int));
                assert(parts == seq![item] + split(chars@.subrange(end + 1, to as int), ','));
                assert(parts.drop_first() =~= split(chars@.subrange(end + 1, to as int), ','));
            } else {
                assert(item =~= rest);
                assert(parts == seq![item]);
                assert(parts.drop_first() =~= Seq::<Seq<char>>::empty());
            }
            assert(parts.len() > 0 && parts[0] == item);
            assert(with_orders(before, parts) == target);
        }
        match read_order(query, chars, start, end) {
            Err(e) => {
                proof {
                    assert(order_of(parts[0]) == Err::<(Seq<char>, Direction), QueryError>(e));
                    assert(with_orders(before, parts) == Err::<SelectView, QueryError>(e));
                }
                return Err(e);
            },
            Ok(step) => {
                q.order.push(step);
                proof {
                    assert(q@.order =~= before.order.push((step.0@, step.1)));
                    assert(q@ == (SelectView {
                        order: before.order.push((step.0@, step.1)),
                        ..before
                    }));
                    assert(with_orders(q@, parts.drop_first()) == target);
                    if end >= to {
                        assert(with_orders(q@, parts.drop_first()) == Ok::<SelectView, QueryError>(
                            q@,
                        ));
                    }
                }
            },
        }
        if end < to {
            start = end + 1;
        } else {
            done = true;
        }
    }
    Ok(())
}

/// Takes one parameter, the characters from `from` up to `to`, into `q`.
fn read_param(q: &mut Select, query: &str, chars: &Vec<char>, from: usize, to: usize) -> (r:
    Result<(), QueryError>)
    requires
        chars@ == query@,
        from <= to <= chars@.len(),
    ensures
        step_outcome(r, final(q)@) == with_param(old(q)@, chars@.subrange(from as int, to as int)),
{
    let ghost param = chars@.subrange(from as int, to as int);
    let eq = find_first(chars, from, to, '=');
    if eq >= to || eq == from {
        return Ok(());
    }
    proof {
        assert(param.take(eq - from) =~= chars@.subrange(from as int, eq as int));
        assert(param.skip(eq - from + 1) =~= chars@.subrange(eq + 1, to as int));
    }
    let ghost value = chars@.subrange(eq + 1, to as int);
    if spells(chars, from, eq, "order") {
        read_orders(q, query, chars, eq + 1, to)
    } else if spells(chars, from, eq, "limit") {
        match parse_decimal(chars, eq + 1, to) {
            Some(n) => {
                q.limit(n);
                Ok(())
            },
            None => Err(QueryError::ParseError),
        }
    } else if spells(chars, from, eq, "offset") {
        match parse_decimal(chars, eq + 1, to) {
            Some(n) => {
                q.offset = n;
                Ok(())
            },
            None => Err(QueryError::ParseError),
        }
    } else {
        proof {
            reveal_strlit("eq.");
        }
        let tagged = begins_with(chars, eq + 1, to, "eq.");
        let text = if tagged {
            assert(value.skip(3) =~= chars@.subrange(eq + 4, to as int));
            text_between(query, eq + 4, to)
        } else {
            text_between(query, eq + 1, to)
        };
        let column = text_between(query, from, eq);
        let ghost before = q@;
        q.filter.push((column, Operator::EQUALS, text));
        proof {
            let f = filter_of(param.take(eq - from), value);
            assert(f == (column@, Operator::EQUALS, text@));
            assert(q@.filter =~= before.filter.push(f));
            assert(q@ == (SelectView { filter: before.filter.push(f), ..before }));
        }
        Ok(())
    }
}

/// Reads a query from a table name and a query string.
///
/// The query starts with every column, the default limit and no offset;
/// each parameter then adds a filter or ordering steps, or sets the limit
/// (capped at `LIMIT_MAX`) or the offset. It fails with `ParseError` on an
/// empty table name, an ordering step without a dot and a limit or offset
/// that is no number of the machine's word, and with
/// `UnsupportedOperatorError` on a direction other than `asc` and `desc`.
pub fn parse(path: &str, query: &str) -> (r: Result<Select, QueryError>)
    ensures
        outcome(r) == parsed(path@, query@),
        r matches Ok(q) ==> q@.is_valid() && q@.table == path@,
{
    proof {
        lemma_parsed_valid(path@, query@);
    }
    if path.unicode_len() == 0 {
        return Err(QueryError::ParseError);
    }
    let chars = chars_of(query);
    let n: usize = chars.len();
    let mut q = Select::new();
    q.table = String::from_str(path);
    q.limit = LIMIT_DEFAULT;
    assert(q@ == initial(path@));
    assert(chars@.subrange(0, n as int) =~= query@);
    let mut start: usize = 0;
    let mut done: bool = false;
    while !done
        invariant
            chars@ == query@,
            n == chars@.len(),
            path@.len() > 0,
            0 <= start <= n,
            !done ==> with_params(q@, split(chars@.subrange(start as int, n as int), '&'))
                == parsed(path@, query@),
            done ==> Ok::<SelectView, QueryError>(q@) == parsed(path@, query@),
        decreases n - start + (if done { 0int } else { 1int }),
    {
        let ghost rest = chars@.subrange(start as int, n as int);
        let ghost before = q@;
        let end = find_first(&chars, start, n, '&');
        let ghost parts = split(rest, '&');
        let ghost param = chars@.subrange(start as int, end as int);
        proof {
            assert(first_index(rest, '&') == end - start);
            if end < n {
                assert(param =~= rest.take(end - start));
                assert(rest.skip(end - start + 1) =~= chars@.subrange(end + 1, n as int));
                assert(parts == seq![param] + split(chars@.subrange(end + 1, n as int), '&'));
                assert(parts.drop_first() =~= split(chars@.subrange(end + 1, n as int), '&'));
            } else {
                assert(param =~= rest);
                assert(parts == seq![param]);
                assert(parts.drop_first() =~= Seq::<Seq<char>>::empty());
            }
            assert(parts.len() > 0 && parts[0] == param);
        }
        match read_param(&mut q, query, &chars, start, end) {
            Err(e) => {
                proof {
                    assert(with_param(before, parts[0]) == Err::<SelectView, QueryError>(e));
                    assert(with_params(before, parts) == Err::<SelectView, QueryError>(e));
                }
                return Err(e);
            },
            Ok(_) => {
                proof {
                    assert(with_param(before, parts[0]) == Ok::<SelectView, QueryError>(q@));
                    assert(with_params(q@, parts.drop_first()) == parsed(path@, query@));
                    if end >= n {
                        assert(with_params(q@, parts.drop_first()) == Ok::<
                            SelectView,
                            QueryError,
                        >(q@));
                    }
                }
            },
        }
        if end < n {
            start = end + 1;
        } else {
            done = true;
        }
    }
    Ok(q)
}

/// The query that a URL stands for: the table name up to the first `?`,
/// the query string after it.
pub open spec fn parsed_url(url: Seq<char>) -> Result<SelectView, QueryError> {
    let mark = first_index(url, '?');
    if mark < url.len() {
        parsed(url.take(mark), url.skip(mark + 1))
    } else {
        parsed(url, Seq::empty())
    }
}

/// Reads a query from a URL: a table name, then, after a `?`, a query
/// string. It fails where `parse` fails on the two parts.
pub fn parse_url(url: &str) -> (r: Result<Select, QueryError>)
    ensures
        outcome(r) == parsed_url(url@),
{
    let chars = chars_of(url);
    let n: usize = chars.len();
    let mark = find_first(&chars, 0, n, '?');
    proof {
        assert(chars@.subrange(0, n as int) =~= url@);
    }
    if mark < n {
        proof {
            assert(url@.subrange(0, mark as int) =~= url@.take(mark as int));
            assert(url@.subrange(mark + 1, n as int) =~= url@.skip(mark + 1));
        }
        let path = text_between(url, 0, mark);
        let query = text_between(url, mark + 1, n);
        parse(path.as_str(), query.as_str())
    } else {
        proof {
            reveal_strlit("");
            assert(""@ =~= Seq::<char>::empty());
        }
        parse(url, "")
    }
}

/// Ordering steps leave the table and the limit as they are.
pub proof fn lemma_with_orders_keeps(q: SelectView, items: Seq<Seq<char>>)
    ensures
        with_orders(q, items) matches Ok(after) ==> after.table == q.table && after.limit
            == q.limit,
    decreases items.len(),
{
    if items.len() > 0 {
        match order_of(items[0]) {
            Ok(step) => {
                lemma_with_orders_keeps(
                    SelectView { order: q.order.push(step), ..q },
                    items.drop_first(),
                );
            },
            Err(_) => {},
        }
    }
}

/// Parameters keep a query valid: the table stays, and the limit stays
/// within bounds.
pub proof fn lemma_with_params_valid(q: SelectView, params: Seq<Seq<char>>)
    requires
        q.is_valid(),
    ensures
        with_params(q, params) matches Ok(after) ==> after.is_valid() && after.table == q.table,
    decreases params.len(),
{
    if params.len() > 0 {
        let param = params[0];
        let eq = first_index(param, '=');
        if !(eq >= param.len() || eq == 0) {
            lemma_with_orders_keeps(q, split(param.skip(eq + 1), ','));
        }
        match with_param(q, param) {
            Ok(next) => {
                lemma_with_params_valid(next, params.drop_first());
            },
            Err(_) => {},
        }
    }
}

/// Every query that is read is valid and names the table it was asked for.
pub proof fn lemma_parsed_valid(path: Seq<char>, query: Seq<char>)
    ensures
        parsed(path, query) matches Ok(q) ==> q.is_valid() && q.table == path,
{
    if path.len() > 0 {
        lemma_with_params_valid(initial(path), split(query, '&'));
    }
}

} // verus!
