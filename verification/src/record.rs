//! Decoded rows, and their regrouping under the value of one column.

use vstd::prelude::*;
use crate::error::QueryError;

verus! {

/// One value of a row: text, or any other value kept as its JSON literal
/// (`null`, `true`, `12`, `1.5`).
#[derive(Clone, Debug, PartialEq, Eq)]
pub enum Scalar {
    Text(String),
    Literal(String),
}

/// What a `Scalar` stands for.
pub enum ScalarView {
    Text(Seq<char>),
    Literal(Seq<char>),
}

impl View for Scalar {
    type V = ScalarView;

    open spec fn view(&self) -> ScalarView {
        match self {
            Scalar::Text(s) => ScalarView::Text(s@),
            Scalar::Literal(s) => ScalarView::Literal(s@),
        }
    }
}

impl ScalarView {
    /// The value as text: a text itself, another value as it is written.
    pub open spec fn text(self) -> Seq<char> {
        match self {
            ScalarView::Text(s) => s,
            ScalarView::Literal(s) => s,
        }
    }
}

impl Scalar {
    /// The value as text: a text itself, another value as it is written.
    pub fn text(&self) -> (r: String)
        ensures
            r@ == self@.text(),
    {
        match self {
            Scalar::Text(s) => s.clone(),
            Scalar::Literal(s) => s.clone(),
        }
    }

    /// A copy of the value.
    pub fn copy(&self) -> (r: Scalar)
        ensures
            r@ == self@,
    {
        match self {
            Scalar::Text(s) => Scalar::Text(s.clone()),
            Scalar::Literal(s) => Scalar::Literal(s.clone()),
        }
    }
}

/// The fields of a row as mathematical values: names and values in order.
pub type Fields = Seq<(Seq<char>, ScalarView)>;

pub open spec fn fields_view(v: Seq<(String, Scalar)>) -> Fields {
    Seq::new(v.len(), |i: int| (v[i].0@, v[i].1@))
}

/// One row: its fields, in the order in which the row held them.
#[derive(Clone, Debug, PartialEq, Eq)]
pub struct Record {
    pub fields: Vec<(String, Scalar)>,
}

impl View for Record {
    type V = Fields;

    open spec fn view(&self) -> Fields {
        fields_view(self.fields@)
    }
}

pub open spec fn records_view(v: Seq<Record>) -> Seq<Fields> {
    Seq::new(v.len(), |i: int| v[i]@)
}

/// True where some field of `fields` is named `column`.
pub open spec fn has_field(fields: Fields, column: Seq<char>) -> bool {
    exists|i: int| 0 <= i < fields.len() && #[trigger] fields[i].0 == column
}

/// The text of the field named `column`, of the last such field where there
/// are several; `None` where there is none.
pub open spec fn key_text(fields: Fields, column: Seq<char>) -> Option<Seq<char>>
    decreases fields.len(),
{
    if fields.len() == 0 {
        None
    } else if fields.last().0 == column {
        Some(fields.last().1.text())
    } else {
        key_text(fields.drop_last(), column)
    }
}

/// The fields that are not named `column`, in their order.
pub open spec fn without(fields: Fields, column: Seq<char>) -> Fields
    decreases fields.len(),
{
    if fields.len() == 0 {
        Seq::empty()
    } else if fields.last().0 == column {
        without(fields.drop_last(), column)
    } else {
        without(fields.drop_last(), column).push(fields.last())
    }
}

/// A record has a key text exactly where it has the column.
pub proof fn lemma_key_text_some(fields: Fields, column: Seq<char>)
    ensures
        key_text(fields, column) is Some <==> has_field(fields, column),
    decreases fields.len(),
{
    if fields.len() == 0 {
    } else if fields.last().0 == column {
        assert(fields[fields.len() - 1].0 == column);
    } else {
        lemma_key_text_some(fields.drop_last(), column);
        if has_field(fields, column) {
            let i = choose|i: int| 0 <= i < fields.len() && #[trigger] fields[i].0 == column;
            assert(fields.drop_last()[i].0 == column);
        }
        if has_field(fields.drop_last(), column) {
            let i = choose|i: int|
                0 <= i < fields.drop_last().len() && #[trigger] fields.drop_last()[i].0 == column;
            assert(fields[i].0 == column);
        }
    }
}

impl Record {
    /// Splits a record at one column: the text of that column, where the
    /// record has it, and the other fields in their order.
    pub fn split_key(&self, column: &str) -> (r: (Option<String>, Record))
        ensures
            match r.0 {
                Some(k) => key_text(self@, column@) == Some(k@),
                None => key_text(self@, column@) is None,
            },
            r.1@ == without(self@, column@),
    {
        let name = String::from_str(column);
        let mut key: Option<String> = None;
        let mut rest: Vec<(String, Scalar)> = Vec::new();
        let n: usize = self.fields.len();
        let mut i: usize = 0;
        assert(self@.take(0) =~= Seq::<(Seq<char>, ScalarView)>::empty());
        assert(fields_view(rest@) =~= without(self@.take(0), column@));
        while i < n
            invariant
                n == self.fields.len(),
                0 <= i <= n,
                name@ == column@,
                match key {
                    Some(k) => key_text(self@.take(i as int), column@) == Some(k@),
                    None => key_text(self@.take(i as int), column@) is None,
                },
                fields_view(rest@) == without(self@.take(i as int), column@),
            decreases n - i,
        {
            let f = &self.fields[i];
            proof {
                let t = self@.take(i as int + 1);
                assert(t.drop_last() =~= self@.take(i as int));
                assert(t.last() == (f.0@, f.1@));
            }
            if f.0 == name {
                key = Some(f.1.text());
            } else {
                let ghost before = rest@;
                rest.push((f.0.clone(), f.1.copy()));
                assert(fields_view(rest@) =~= fields_view(before).push((f.0@, f.1@)));
            }
            i = i + 1;
        }
        assert(self@.take(n as int) =~= self@);
        (key, Record { fields: rest })
    }
}

/// Records under their keys as mathematical values: keys and records in
/// the order in which the keys first came.
pub type Entries = Seq<(Seq<char>, Fields)>;

pub open spec fn entries_view(v: Seq<(String, Record)>) -> Entries {
    Seq::new(v.len(), |i: int| (v[i].0@, v[i].1@))
}

/// Records, each under a key of its own.
///
/// The keys stand in the order in which they first came; a record that
/// comes under a key already there takes the place of the one before it.
#[derive(Clone, Debug, PartialEq, Eq)]
pub struct KeyedRecords {
    pub entries: Vec<(String, Record)>,
}

impl View for KeyedRecords {
    type V = Entries;

    open spec fn view(&self) -> Entries {
        entries_view(self.entries@)
    }
}

/// No key stands twice.
pub open spec fn distinct_keys(entries: Entries) -> bool {
    forall|i: int, j: int|
        0 <= i < j < entries.len() ==> (#[trigger] entries[i]).0 != (#[trigger] entries[j]).0
}

/// True where some entry stands under `key`.
pub open spec fn has_key(entries: Entries, key: Seq<char>) -> bool {
    exists|i: int| 0 <= i < entries.len() && #[trigger] entries[i].0 == key
}

/// `entries` with `fields` under `key`: in the place of the first entry
/// under that key, or at the end where there is none.
pub open spec fn put(entries: Entries, key: Seq<char>, fields: Fields) -> Entries
    decreases entries.len(),
{
    if entries.len() == 0 {
        seq![(key, fields)]
    } else if entries[0].0 == key {
        seq![(key, fields)] + entries.drop_first()
    } else {
        seq![entries[0]] + put(entries.drop_first(), key, fields)
    }
}

/// The records of `rows` regrouped under the text of `column`, row by row;
/// `None` where a row lacks the column.
pub open spec fn reshaped(rows: Seq<Fields>, column: Seq<char>) -> Option<Entries>
    decreases rows.len(),
{
    if rows.len() == 0 {
        Some(Seq::empty())
    } else {
        match (reshaped(rows.drop_last(), column), key_text(rows.last(), column)) {
            (Some(entries), Some(key)) => Some(put(entries, key, without(rows.last(), column))),
            _ => None,
        }
    }
}

/// Under a key that is not there yet, a record goes to the end.
pub proof fn lemma_put_new(entries: Entries, key: Seq<char>, fields: Fields)
    requires
        !has_key(entries, key),
    ensures
        put(entries, key, fields) == entries.push((key, fields)),
    decreases entries.len(),
{
    if entries.len() == 0 {
        assert(put(entries, key, fields) =~= entries.push((key, fields)));
    } else {
        assert(entries[0].0 != key);
        let rest = entries.drop_first();
        assert(!has_key(rest, key)) by {
            if has_key(rest, key) {
                let i = choose|i: int| 0 <= i < rest.len() && #[trigger] rest[i].0 == key;
                assert(entries[i + 1].0 == key);
            }
        }
        lemma_put_new(rest, key, fields);
        assert(put(entries, key, fields) =~= entries.push((key, fields)));
    }
}

/// Under a key that is there, a record takes the place of the first entry
/// under it.
pub proof fn lemma_put_at(entries: Entries, key: Seq<char>, fields: Fields, at: int)
    requires
        0 <= at < entries.len(),
        entries[at].0 == key,
        forall|j: int| 0 <= j < at ==> (#[trigger] entries[j]).0 != key,
    ensures
        put(entries, key, fields) == entries.update(at, (key, fields)),
    decreases entries.len(),
{
    if at == 0 {
        assert(put(entries, key, fields) =~= entries.update(at, (key, fields)));
    } else {
        assert(entries[0].0 != key);
        let rest = entries.drop_first();
        assert(rest[at - 1] == entries[at]);
        assert forall|j: int| 0 <= j < at - 1 implies (#[trigger] rest[j]).0 != key by {
            assert(rest[j] == entries[j + 1]);
        }
        lemma_put_at(rest, key, fields, at - 1);
        assert(put(entries, key, fields) =~= entries.update(at, (key, fields)));
    }
}

impl KeyedRecords {
    /// A collection without entries.
    pub fn new() -> (r: KeyedRecords)
        ensures
            r@ == Seq::<(Seq<char>, Fields)>::empty(),
    {
        let r = KeyedRecords { entries: Vec::new() };
        assert(r@ =~= Seq::<(Seq<char>, Fields)>::empty());
        r
    }

    /// Puts a record under a key: in the place of the entry under that key,
    /// or at the end where the key is new.
    pub fn insert(&mut self, key: String, record: Record)
        ensures
            final(self)@ == put(old(self)@, key@, record@),
    {
        let n: usize = self.entries.len();
        let mut i: usize = 0;
        while i < n
            invariant
                n == self.entries.len(),
                0 <= i <= n,
                *self == *old(self),
                forall|j: int| 0 <= j < i ==> (#[trigger] self@[j]).0 != key@,
            decreases n - i,
        {
            if self.entries[i].0 == key {
                proof {
                    assert(self@[i as int].0 == key@);
                    lemma_put_at(self@, key@, record@, i as int);
                }
                let ghost before = self@;
                self.entries.set(i, (key, record));
                assert(self@ =~= before.update(i as int, (key@, record@)));
                return ;
            }
            i = i + 1;
        }
        proof {
            assert(!has_key(self@, key@));
            lemma_put_new(self@, key@, record@);
        }
        let ghost before = self@;
        self.entries.push((key, record));
        assert(self@ =~= before.push((key@, record@)));
    }
}

/// Regroups rows under the text of one column.
///
/// Each row gives one entry: its key is the text of the row's `column`
/// field, its record the row's other fields in their order. A later row
/// with the key of an earlier one takes its place. Where a row lacks the
/// column, nothing is regrouped and the call fails.
pub fn rows_to_map(rows: Vec<Record>, column: &str) -> (r: Result<KeyedRecords, QueryError>)
    ensures
        match r {
            Ok(keyed) => reshaped(records_view(rows@), column@) == Some(keyed@) && distinct_keys(
                keyed@,
            ),
            Err(e) => e == QueryError::MissingKeyError && reshaped(records_view(rows@), column@)
                is None,
        },
        r is Err <==> lacking(records_view(rows@), column@),
{
    let mut keyed = KeyedRecords::new();
    let ghost all = records_view(rows@);
    let n: usize = rows.len();
    let mut i: usize = 0;
    assert(all.take(0) =~= Seq::<Fields>::empty());
    while i < n
        invariant
            n == rows.len(),
            0 <= i <= n,
            all == records_view(rows@),
            reshaped(all.take(i as int), column@) == Some(keyed@),
        decreases n - i,
    {
        let (key, rest) = rows[i].split_key(column);
        proof {
            let t = all.take(i as int + 1);
            assert(t.drop_last() =~= all.take(i as int));
            assert(t.last() == rows@[i as int]@);
        }
        match key {
            Some(k) => {
                keyed.insert(k, rest);
            },
            None => {
                proof {
                    lemma_reshaped_prefix(all, column@, i as int + 1);
                    lemma_reshaped_none(all, column@);
                }
                return Err(QueryError::MissingKeyError);
            },
        }
        i = i + 1;
    }
    proof {
        assert(all.take(n as int) =~= all);
        lemma_reshaped_none(all, column@);
        lemma_reshaped_distinct(all, column@);
    }
    Ok(keyed)
}

/// Where a first part of the rows cannot be regrouped, the rows cannot.
pub proof fn lemma_reshaped_prefix(rows: Seq<Fields>, column: Seq<char>, n: int)
    requires
        0 <= n <= rows.len(),
        reshaped(rows.take(n), column) is None,
    ensures
        reshaped(rows, column) is None,
    decreases rows.len(),
{
    if n < rows.len() {
        assert(rows.drop_last().take(n) =~= rows.take(n));
        lemma_reshaped_prefix(rows.drop_last(), column, n);
    } else {
        assert(rows.take(n) =~= rows);
    }
}

/// True where some row has no field named `column`.
pub open spec fn lacking(rows: Seq<Fields>, column: Seq<char>) -> bool {
    exists|i: int| 0 <= i < rows.len() && !has_field(#[trigger] rows[i], column)
}

/// Rows can be regrouped under a column exactly where every row has it.
pub proof fn lemma_reshaped_none(rows: Seq<Fields>, column: Seq<char>)
    ensures
        reshaped(rows, column) is None <==> lacking(rows, column),
    decreases rows.len(),
{
    if rows.len() > 0 {
        let front = rows.drop_last();
        lemma_reshaped_none(front, column);
        lemma_key_text_some(rows.last(), column);
        if lacking(front, column) {
            let i = choose|i: int| 0 <= i < front.len() && !has_field(#[trigger] front[i], column);
            assert(rows[i] == front[i]);
        }
        if !has_field(rows.last(), column) {
            assert(!has_field(rows[rows.len() - 1], column));
        }
        if lacking(rows, column) {
            let i = choose|i: int| 0 <= i < rows.len() && !has_field(#[trigger] rows[i], column);
            if i < rows.len() - 1 {
                assert(front[i] == rows[i]);
            }
        }
    }
}

/// Putting a record under a key leaves no key twice, gives that key that
/// record, and keeps every entry under another key.
pub proof fn lemma_put(entries: Entries, key: Seq<char>, fields: Fields)
    requires
        distinct_keys(entries),
    ensures
        distinct_keys(put(entries, key, fields)),
        has_key(put(entries, key, fields), key),
        forall|i: int|
            0 <= i < put(entries, key, fields).len() && (#[trigger] put(entries, key, fields)[i]).0
                == key ==> put(entries, key, fields)[i].1 == fields,
        forall|i: int|
            0 <= i < entries.len() && (#[trigger] entries[i]).0 != key ==> put(
                entries,
                key,
                fields,
            )[i] == entries[i],
        entries.len() <= put(entries, key, fields).len() <= entries.len() + 1,
{
    let after = put(entries, key, fields);
    if has_key(entries, key) {
        let at = choose|i: int| 0 <= i < entries.len() && #[trigger] entries[i].0 == key;
        assert forall|j: int| 0 <= j < at implies (#[trigger] entries[j]).0 != key by {
            assert(entries[j].0 != entries[at].0);
        }
        lemma_put_at(entries, key, fields, at);
        assert(after[at].0 == key);
        assert forall|i: int, j: int| 0 <= i < j < after.len() implies (#[trigger] after[i]).0 != (
        #[trigger] after[j]).0 by {
            assert(entries[i].0 != entries[j].0);
        }
        assert forall|i: int| 0 <= i < after.len() && (#[trigger] after[i]).0 == key implies after[i].1
            == fields by {
            if i != at {
                assert(entries[i].0 != entries[at].0);
            }
        }
    } else {
        lemma_put_new(entries, key, fields);
        assert(after[entries.len() as int].0 == key);
        assert forall|i: int, j: int| 0 <= i < j < after.len() implies (#[trigger] after[i]).0 != (
        #[trigger] after[j]).0 by {
            if j < entries.len() {
                assert(entries[i].0 != entries[j].0);
            } else {
                assert(entries[i].0 != key);
            }
        }
        assert forall|i: int| 0 <= i < after.len() && (#[trigger] after[i]).0 == key implies after[i].1
            == fields by {
            if i < entries.len() {
                assert(entries[i].0 != key);
            }
        }
    }
}

/// Regrouped rows hold no key twice.
pub proof fn lemma_reshaped_distinct(rows: Seq<Fields>, column: Seq<char>)
    ensures
        reshaped(rows, column) matches Some(entries) ==> distinct_keys(entries),
    decreases rows.len(),
{
    if rows.len() > 0 {
        lemma_reshaped_distinct(rows.drop_last(), column);
        match (reshaped(rows.drop_last(), column), key_text(rows.last(), column)) {
            (Some(entries), Some(key)) => {
                lemma_put(entries, key, without(rows.last(), column));
            },
            _ => {},
        }
    }
}

} // verus!
