//! The query model and its rendering as SQL text.

use vstd::prelude::*;
pub use crate::record::rows_to_map;
pub use crate::url::select_to_url;
use crate::text::{
    decimal,
    join,
    lacks,
    lacks_char,
    lemma_join_step,
    lemma_split_front,
    lemma_split_whole,
    push_decimal,
    split,
    texts,
};

verus! {

/// The largest limit a query carries.
pub const LIMIT_MAX: usize = 100;

/// The limit of a request that names none.
pub const LIMIT_DEFAULT: usize = 10;

/// How a filter compares its column with its value.
#[derive(Clone, Copy, Debug, PartialEq, Eq, Structural, PartialOrd, Ord)]
pub enum Operator {
    EQUALS,
}

/// The direction of one ordering step.
#[derive(Clone, Copy, Debug, PartialEq, Eq, Structural, PartialOrd, Ord)]
pub enum Direction {
    ASC,
    DESC,
}

/// A read request against one table.
///
/// `select` lists the projected columns; an empty list stands for all
/// columns of the table, which the caller names when the statement is
/// rendered. `filter` lists the conditions that all have to hold, `order`
/// the ordering steps from the most significant down. A `limit` or
/// `offset` of zero leaves the clause out of the statement.
#[derive(Clone, Debug, PartialEq, Eq)]
pub struct Select {
    pub table: String,
    pub select: Vec<String>,
    pub filter: Vec<(String, Operator, String)>,
    pub order: Vec<(String, Direction)>,
    pub limit: usize,
    pub offset: usize,
}

/// What a `Select` stands for: its fields as mathematical values.
pub struct SelectView {
    pub table: Seq<char>,
    pub select: Seq<Seq<char>>,
    pub filter: Seq<(Seq<char>, Operator, Seq<char>)>,
    pub order: Seq<(Seq<char>, Direction)>,
    pub limit: nat,
    pub offset: nat,
}

pub open spec fn filters_view(v: Seq<(String, Operator, String)>) -> Seq<
    (Seq<char>, Operator, Seq<char>),
> {
    Seq::new(v.len(), |i: int| (v[i].0@, v[i].1, v[i].2@))
}

pub open spec fn orders_view(v: Seq<(String, Direction)>) -> Seq<(Seq<char>, Direction)> {
    Seq::new(v.len(), |i: int| (v[i].0@, v[i].1))
}

impl View for Select {
    type V = SelectView;

    open spec fn view(&self) -> SelectView {
        SelectView {
            table: self.table@,
            select: texts(self.select@),
            filter: filters_view(self.filter@),
            order: orders_view(self.order@),
            limit: self.limit as nat,
            offset: self.offset as nat,
        }
    }
}

/// True where a text holds no quote, single or double.
pub open spec fn quote_free(s: Seq<char>) -> bool {
    lacks(s, '\'') && lacks(s, '"')
}

impl SelectView {
    /// The invariants of a finished query: a table is named and the limit
    /// is within bounds.
    pub open spec fn is_valid(self) -> bool {
        self.table.len() > 0 && self.limit <= LIMIT_MAX
    }

    /// True where no name and no value of the query holds a quote, so that
    /// each can stand between quotes in a statement.
    pub open spec fn is_quote_free(self) -> bool {
        &&& quote_free(self.table)
        &&& forall|i: int| 0 <= i < self.select.len() ==> quote_free(#[trigger] self.select[i])
        &&& forall|i: int|
            0 <= i < self.filter.len() ==> quote_free((#[trigger] self.filter[i]).0) && quote_free(
                self.filter[i].2,
            )
        &&& forall|i: int| 0 <= i < self.order.len() ==> quote_free((#[trigger] self.order[i]).0)
    }
}

/// Tells whether a text holds no quote, single or double.
pub fn is_quote_free(s: &str) -> (r: bool)
    ensures
        r == quote_free(s@),
{
    lacks_char(s, '\'') && lacks_char(s, '"')
}

/// The limit that a query takes for a requested one: nothing above
/// `LIMIT_MAX`.
pub open spec fn capped(limit: nat) -> nat {
    if limit <= LIMIT_MAX {
        limit
    } else {
        LIMIT_MAX as nat
    }
}

impl Default for Select {
    fn default() -> (r: Select)
        ensures
            r@.table == Seq::<char>::empty(),
            r@.select == Seq::<Seq<char>>::empty(),
            r@.filter == Seq::<(Seq<char>, Operator, Seq<char>)>::empty(),
            r@.order == Seq::<(Seq<char>, Direction)>::empty(),
            r@.limit == 0,
            r@.offset == 0,
    {
        Select::new()
    }
}

impl Select {
    /// An empty query: no table yet, no columns, filters or ordering, no
    /// limit and no offset.
    pub fn new() -> (r: Select)
        ensures
            r@.table == Seq::<char>::empty(),
            r@.select == Seq::<Seq<char>>::empty(),
            r@.filter == Seq::<(Seq<char>, Operator, Seq<char>)>::empty(),
            r@.order == Seq::<(Seq<char>, Direction)>::empty(),
            r@.limit == 0,
            r@.offset == 0,
    {
        let r = Select {
            table: String::new(),
            select: Vec::new(),
            filter: Vec::new(),
            order: Vec::new(),
            limit: 0,
            offset: 0,
        };
        assert(r@.select =~= Seq::<Seq<char>>::empty());
        assert(r@.filter =~= Seq::<(Seq<char>, Operator, Seq<char>)>::empty());
        assert(r@.order =~= Seq::<(Seq<char>, Direction)>::empty());
        r
    }

    /// Sets the table, in place of the one named before.
    pub fn table(&mut self, table: &str) -> (r: &mut Select)
        ensures
            r@ == (SelectView { table: table@, ..old(self)@ }),
            *final(self) == *final(r),
    {
        self.table = String::from_str(table);
        self
    }

    /// Appends projected columns to those already there.
    pub fn select(&mut self, select: Vec<String>) -> (r: &mut Select)
        ensures
            r@ == (SelectView { select: old(self)@.select + texts(select@), ..old(self)@ }),
            *final(self) == *final(r),
    {
        let mut select = select;
        let ghost added = select@;
        self.select.append(&mut select);
        assert(texts(self.select@) =~= old(self)@.select + texts(added));
        self
    }

    /// Appends filters to those already there.
    pub fn filter(&mut self, filter: Vec<(String, Operator, String)>) -> (r: &mut Select)
        ensures
            r@ == (SelectView { filter: old(self)@.filter + filters_view(filter@), ..old(self)@ }),
            *final(self) == *final(r),
    {
        let mut filter = filter;
        let ghost added = filter@;
        self.filter.append(&mut filter);
        assert(filters_view(self.filter@) =~= old(self)@.filter + filters_view(added));
        self
    }

    /// Appends ordering steps to those already there.
    pub fn order(&mut self, order: Vec<(String, Direction)>) -> (r: &mut Select)
        ensures
            r@ == (SelectView { order: old(self)@.order + orders_view(order@), ..old(self)@ }),
            *final(self) == *final(r),
    {
        let mut order = order;
        let ghost added = order@;
        self.order.append(&mut order);
        assert(orders_view(self.order@) =~= old(self)@.order + orders_view(added));
        self
    }

    /// Tells whether no name and no value of the query holds a quote.
    pub fn is_quote_free(&self) -> (r: bool)
        ensures
            r == self@.is_quote_free(),
    {
        if !is_quote_free(self.table.as_str()) {
            return false;
        }
        let mut i: usize = 0;
        while i < self.select.len()
            invariant
                0 <= i <= self.select.len(),
                forall|n: int| 0 <= n < i ==> quote_free(#[trigger] self@.select[n]),
            decreases self.select.len() - i,
        {
            if !is_quote_free(self.select[i].as_str()) {
                assert(!quote_free(self@.select[i as int]));
                return false;
            }
            i = i + 1;
        }
        let mut j: usize = 0;
        while j < self.filter.len()
            invariant
                0 <= j <= self.filter.len(),
                forall|n: int|
                    0 <= n < j ==> quote_free((#[trigger] self@.filter[n]).0) && quote_free(
                        self@.filter[n].2,
                    ),
            decreases self.filter.len() - j,
        {
            let f = &self.filter[j];
            if !is_quote_free(f.0.as_str()) || !is_quote_free(f.2.as_str()) {
                assert(!(quote_free(self@.filter[j as int].0) && quote_free(
                    self@.filter[j as int].2,
                )));
                return false;
            }
            j = j + 1;
        }
        let mut k: usize = 0;
        while k < self.order.len()
            invariant
                0 <= k <= self.order.len(),
                forall|n: int| 0 <= n < k ==> quote_free((#[trigger] self@.order[n]).0),
            decreases self.order.len() - k,
        {
            if !is_quote_free(self.order[k].0.as_str()) {
                assert(!quote_free(self@.order[k as int].0));
                return false;
            }
            k = k + 1;
        }
        proof {
            assert(self@.select.len() == self.select.len());
            assert(self@.filter.len() == self.filter.len());
            assert(self@.order.len() == self.order.len());
        }
        true
    }

    /// A copy of a query that shares nothing with it.
    pub fn clone(select: &Select) -> (r: Select)
        ensures
            r@ == select@,
    {
        let mut columns: Vec<String> = Vec::new();
        let mut i: usize = 0;
        while i < select.select.len()
            invariant
                0 <= i <= select.select.len(),
                columns@.len() == i,
                forall|n: int| 0 <= n < i ==> columns@[n]@ == select.select@[n]@,
            decreases select.select.len() - i,
        {
            columns.push(select.select[i].clone());
            i = i + 1;
        }
        let mut filters: Vec<(String, Operator, String)> = Vec::new();
        let mut j: usize = 0;
        while j < select.filter.len()
            invariant
                0 <= j <= select.filter.len(),
                filters@.len() == j,
                forall|n: int|
                    0 <= n < j ==> filters@[n].0@ == select.filter@[n].0@ && filters@[n].1
                        == select.filter@[n].1 && filters@[n].2@ == select.filter@[n].2@,
            decreases select.filter.len() - j,
        {
            let f = &select.filter[j];
            filters.push((f.0.clone(), f.1, f.2.clone()));
            j = j + 1;
        }
        let mut steps: Vec<(String, Direction)> = Vec::new();
        let mut k: usize = 0;
        while k < select.order.len()
            invariant
                0 <= k <= select.order.len(),
                steps@.len() == k,
                forall|n: int|
                    0 <= n < k ==> steps@[n].0@ == select.order@[n].0@ && steps@[n].1
                        == select.order@[n].1,
            decreases select.order.len() - k,
        {
            let o = &select.order[k];
            steps.push((o.0.clone(), o.1));
            k = k + 1;
        }
        let r = Select {
            table: select.table.clone(),
            select: columns,
            filter: filters,
            order: steps,
            limit: select.limit,
            offset: select.offset,
        };
        assert(r@.select =~= select@.select);
        assert(r@.filter =~= select@.filter);
        assert(r@.order =~= select@.order);
        r
    }

    /// Sets the limit, capped at `LIMIT_MAX`, in place of the one set before.
    pub fn limit(&mut self, limit: usize) -> (r: &mut Select)
        ensures
            r@ == (SelectView { limit: capped(limit as nat), ..old(self)@ }),
            *final(self) == *final(r),
    {
        self.limit = if limit <= LIMIT_MAX {
            limit
        } else {
            LIMIT_MAX
        };
        self
    }

    /// Sets the offset, in place of the one set before.
    pub fn offset(&mut self, offset: usize) -> (r: &mut Select)
        ensures
            r@ == (SelectView { offset: offset as nat, ..old(self)@ }),
            *final(self) == *final(r),
    {
        self.offset = offset;
        self
    }
}

/// One projected column inside the aggregate: its name as a key, then the
/// column itself.
pub open spec fn column_sql(c: Seq<char>) -> Seq<char> {
    "'"@ + c + "', \""@ + c + "\""@
}

/// One condition: the quoted column, the operator, the value as a literal.
pub open spec fn filter_sql(f: (Seq<char>, Operator, Seq<char>)) -> Seq<char> {
    match f.1 {
        Operator::EQUALS => "\""@ + f.0 + "\" = '"@ + f.2 + "'"@,
    }
}

pub open spec fn direction_sql(d: Direction) -> Seq<char> {
    match d {
        Direction::ASC => "ASC"@,
        Direction::DESC => "DESC"@,
    }
}

/// One ordering step: the quoted column and its direction.
pub open spec fn order_sql(o: (Seq<char>, Direction)) -> Seq<char> {
    "\""@ + o.0 + "\" "@ + direction_sql(o.1)
}

pub open spec fn from_sql(q: SelectView) -> Seq<char> {
    "FROM \""@ + q.table + "\""@
}

/// The `WHERE` line with its leading line break, or nothing without filters.
pub open spec fn where_sql(q: SelectView) -> Seq<char> {
    if q.filter.len() == 0 {
        Seq::empty()
    } else {
        "\nWHERE "@ + join(q.filter.map_values(|f| filter_sql(f)), "\n  AND "@)
    }
}

/// The `ORDER BY` line with its leading line break, or nothing without
/// ordering steps.
pub open spec fn order_by_sql(q: SelectView) -> Seq<char> {
    if q.order.len() == 0 {
        Seq::empty()
    } else {
        "\nORDER BY "@ + join(q.order.map_values(|o| order_sql(o)), ", "@)
    }
}

pub open spec fn limit_sql(q: SelectView) -> Seq<char> {
    if q.limit == 0 {
        Seq::empty()
    } else {
        "\nLIMIT "@ + decimal(q.limit)
    }
}

pub open spec fn offset_sql(q: SelectView) -> Seq<char> {
    if q.offset == 0 {
        Seq::empty()
    } else {
        "\nOFFSET "@ + decimal(q.offset)
    }
}

/// The columns that a row is asked for: the projected ones, or, where the
/// query projects none, all columns of the table.
pub open spec fn projection(q: SelectView, all: Seq<Seq<char>>) -> Seq<Seq<char>> {
    if q.select.len() == 0 {
        all
    } else {
        q.select
    }
}

/// The row-fetch statement of `q`: one aggregate column that holds the
/// columns of `q.select`, then the table, the filters, the ordering and the
/// page.
pub open spec fn sql_text(q: SelectView) -> Seq<char> {
    "SELECT json_object(\n  "@ + join(q.select.map_values(|c| column_sql(c)), ",\n  "@)
        + "\n) AS json_result\n"@ + from_sql(q) + where_sql(q) + order_by_sql(q) + limit_sql(q)
        + offset_sql(q)
}

/// The count statement of `q`: the same table and filters, one count, no
/// projection, ordering or page.
pub open spec fn sql_count_text(q: SelectView) -> Seq<char> {
    "SELECT COUNT(*) AS count\n"@ + from_sql(q) + where_sql(q)
}

/// Appends the `FROM` line and, where there are filters, the `WHERE` line.
fn push_from_where(out: &mut String, s: &Select)
    ensures
        final(out)@ == old(out)@ + from_sql(s@) + where_sql(s@),
{
    let ghost base = out@;
    out.append("FROM \"");
    out.append(s.table.as_str());
    out.append("\"");
    assert(out@ =~= base + from_sql(s@));
    let ghost base2 = out@;
    let ghost parts = s@.filter.map_values(|f| filter_sql(f));
    let n: usize = s.filter.len();
    if n > 0 {
        out.append("\nWHERE ");
        let mut i: usize = 0;
        assert(join(parts.take(0), "\n  AND "@) =~= Seq::<char>::empty());
        while i < n
            invariant
                n == s.filter.len(),
                0 <= i <= n,
                parts == s@.filter.map_values(|f| filter_sql(f)),
                out@ == base2 + "\nWHERE "@ + join(parts.take(i as int), "\n  AND "@),
            decreases n - i,
        {
            if i > 0 {
                out.append("\n  AND ");
            }
            let f = &s.filter[i];
            match f.1 {
                Operator::EQUALS => {
                    out.append("\"");
                    out.append(f.0.as_str());
                    out.append("\" = '");
                    out.append(f.2.as_str());
                    out.append("'");
                },
            }
            proof {
                lemma_join_step(parts, "\n  AND "@, i as int);
                assert(parts[i as int] == filter_sql(s@.filter[i as int]));
                assert(out@ =~= base2 + "\nWHERE "@ + join(
                    parts.take(i as int + 1),
                    "\n  AND "@,
                ));
            }
            i = i + 1;
        }
        assert(parts.take(n as int) =~= parts);
    }
    assert(out@ =~= old(out)@ + from_sql(s@) + where_sql(s@));
}

/// Renders the count statement of a query: how many rows match its filters,
/// whatever its page.
pub fn select_to_sql_count(s: &Select) -> (r: String)
    ensures
        r@ == sql_count_text(s@),
{
    let mut out = String::from_str("SELECT COUNT(*) AS count\n");
    push_from_where(&mut out, s);
    assert(out@ =~= sql_count_text(s@));
    out
}

/// Appends columns, each as a key and its column, one per line.
fn push_columns(out: &mut String, columns: &Vec<String>)
    ensures
        final(out)@ == old(out)@ + join(
            texts(columns@).map_values(|c| column_sql(c)),
            ",\n  "@,
        ),
{
    let ghost base = out@;
    let ghost parts = texts(columns@).map_values(|c| column_sql(c));
    let n: usize = columns.len();
    let mut i: usize = 0;
    assert(join(parts.take(0), ",\n  "@) =~= Seq::<char>::empty());
    assert(out@ =~= base + join(parts.take(0), ",\n  "@));
    while i < n
        invariant
            n == columns.len(),
            0 <= i <= n,
            parts == texts(columns@).map_values(|c| column_sql(c)),
            out@ == base + join(parts.take(i as int), ",\n  "@),
        decreases n - i,
    {
        if i > 0 {
            out.append(",\n  ");
        }
        let c = columns[i].as_str();
        out.append("'");
        out.append(c);
        out.append("', \"");
        out.append(c);
        out.append("\"");
        proof {
            lemma_join_step(parts, ",\n  "@, i as int);
            assert(parts[i as int] == column_sql(columns@[i as int]@));
            assert(out@ =~= base + join(parts.take(i as int + 1), ",\n  "@));
        }
        i = i + 1;
    }
    assert(parts.take(n as int) =~= parts);
}

/// The SQL keyword of a direction.
fn direction_keyword(d: Direction) -> (r: &'static str)
    ensures
        r@ == direction_sql(d),
{
    match d {
        Direction::ASC => "ASC",
        Direction::DESC => "DESC",
    }
}

/// Appends the `ORDER BY` line where there are ordering steps.
fn push_order_by(out: &mut String, s: &Select)
    ensures
        final(out)@ == old(out)@ + order_by_sql(s@),
{
    let ghost base = out@;
    let ghost parts = s@.order.map_values(|o| order_sql(o));
    let n: usize = s.order.len();
    if n > 0 {
        out.append("\nORDER BY ");
        let mut i: usize = 0;
        assert(join(parts.take(0), ", "@) =~= Seq::<char>::empty());
        while i < n
            invariant
                n == s.order.len(),
                0 <= i <= n,
                parts == s@.order.map_values(|o| order_sql(o)),
                out@ == base + "\nORDER BY "@ + join(parts.take(i as int), ", "@),
            decreases n - i,
        {
            if i > 0 {
                out.append(", ");
            }
            let o = &s.order[i];
            out.append("\"");
            out.append(o.0.as_str());
            out.append("\" ");
            out.append(direction_keyword(o.1));
            proof {
                lemma_join_step(parts, ", "@, i as int);
                assert(parts[i as int] == order_sql(s@.order[i as int]));
                assert(out@ =~= base + "\nORDER BY "@ + join(parts.take(i as int + 1), ", "@));
            }
            i = i + 1;
        }
        assert(parts.take(n as int) =~= parts);
    }
    assert(out@ =~= old(out)@ + order_by_sql(s@));
}

/// Appends the `LIMIT` and `OFFSET` lines, each only where its number is
/// above zero.
fn push_page(out: &mut String, s: &Select)
    ensures
        final(out)@ == old(out)@ + limit_sql(s@) + offset_sql(s@),
{
    if s.limit > 0 {
        out.append("\nLIMIT ");
        push_decimal(out, s.limit);
    }
    if s.offset > 0 {
        out.append("\nOFFSET ");
        push_decimal(out, s.offset);
    }
    assert(out@ =~= old(out)@ + limit_sql(s@) + offset_sql(s@));
}

/// Renders the row-fetch statement of a query on a table with the columns
/// `columns`.
///
/// Every row comes back as one aggregate value that holds, under their
/// names, the columns that the query projects, or all of `columns` where it
/// projects none. Names and values are written into the text as they are,
/// between quotes: a caller that cannot vouch for them asks `is_quote_free`
/// first.
pub fn select_to_sql(s: &Select, columns: &Vec<String>) -> (r: String)
    ensures
        r@ == sql_text(SelectView { select: projection(s@, texts(columns@)), ..s@ }),
{
    let ghost q = SelectView { select: projection(s@, texts(columns@)), ..s@ };
    let mut out = String::from_str("SELECT json_object(\n  ");
    if s.select.len() == 0 {
        push_columns(&mut out, columns);
    } else {
        push_columns(&mut out, &s.select);
    }
    out.append("\n) AS json_result\n");
    push_from_where(&mut out, s);
    push_order_by(&mut out, s);
    push_page(&mut out, s);
    proof {
        assert(from_sql(q) == from_sql(s@));
        assert(where_sql(q) == where_sql(s@));
        assert(order_by_sql(q) == order_by_sql(s@));
        assert(out@ =~= sql_text(q));
    }
    out
}

/// Where the table has a column or the query projects one, the aggregate
/// of the row-fetch statement lists at least one column; without a
/// projection it lists the table's columns, with one the projected ones.
pub proof fn lemma_projection(q: SelectView, all: Seq<Seq<char>>)
    ensures
        q.select.len() == 0 ==> projection(q, all) == all,
        q.select.len() > 0 ==> projection(q, all) == q.select,
        all.len() > 0 || q.select.len() > 0 ==> projection(q, all).len() > 0,
{
}

/// Rendering is a function of the query's value: two queries with the
/// same fields, on tables with the same columns, give the same row-fetch
/// statement and the same count statement, character by character.
pub proof fn lemma_same_query_same_sql(
    a: Select,
    b: Select,
    a_columns: Vec<String>,
    b_columns: Vec<String>,
)
    requires
        a@ == b@,
        texts(a_columns@) == texts(b_columns@),
    ensures
        sql_text(SelectView { select: projection(a@, texts(a_columns@)), ..a@ }) == sql_text(
            SelectView { select: projection(b@, texts(b_columns@)), ..b@ },
        ),
        sql_count_text(a@) == sql_count_text(b@),
{
}

/// The count statement does not depend on the page, the ordering or the
/// projected columns.
pub proof fn lemma_count_ignores_page(a: SelectView, b: SelectView)
    requires
        a.table == b.table,
        a.filter == b.filter,
    ensures
        sql_count_text(a) == sql_count_text(b),
{
}

/// The value of a condition stays inside its literal: where neither the
/// column nor the value holds a quote, the condition holds two single
/// quotes, and what stands between them is the value.
pub proof fn lemma_value_stays_quoted(f: (Seq<char>, Operator, Seq<char>))
    requires
        quote_free(f.0),
        quote_free(f.2),
    ensures
        split(filter_sql(f), '\'') == seq!["\""@ + f.0 + "\" = "@, f.2, Seq::<char>::empty()],
{
    reveal_strlit("\"");
    reveal_strlit("\" = '");
    reveal_strlit("\" = ");
    reveal_strlit("'");
    let head = "\""@ + f.0 + "\" = "@;
    let n = f.0.len() as int;
    assert forall|j: int| 0 <= j < head.len() implies head[j] != '\'' by {
        if 1 <= j < 1 + n {
            assert(head[j] == f.0[j - 1]);
        }
    }
    let empty = Seq::<char>::empty();
    assert(filter_sql(f) =~= head + seq!['\''] + (f.2 + seq!['\''] + empty));
    lemma_split_whole(empty, '\'');
    lemma_split_front(f.2, empty, '\'');
    lemma_split_front(head, f.2 + seq!['\''] + empty, '\'');
    assert(seq![head] + (seq![f.2] + seq![empty]) =~= seq![head, f.2, empty]);
}

} // verus!
