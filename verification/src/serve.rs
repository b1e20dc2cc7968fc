//! What a request for a table's page carries, and the query it asks for.

use vstd::prelude::*;
use crate::sql::{capped, Direction, Operator, Select};

verus! {

/// The parameters of a request for a page of a table.
#[derive(Clone, Debug, PartialEq, Eq)]
pub struct Params {
    pub limit: Option<usize>,
    pub offset: Option<usize>,
    pub table: Option<String>,
}

impl Params {
    /// The query for a page of `table`: every column, no filter, no
    /// ordering, the limit of the request, capped, and its offset, each
    /// zero where the request names none.
    pub fn page_of(&self, table: &str) -> (r: Select)
        ensures
            r@.table == table@,
            r@.select == Seq::<Seq<char>>::empty(),
            r@.filter == Seq::<(Seq<char>, Operator, Seq<char>)>::empty(),
            r@.order == Seq::<(Seq<char>, Direction)>::empty(),
            r@.limit == match self.limit {
                Some(n) => capped(n as nat),
                None => 0,
            },
            r@.offset == match self.offset {
                Some(n) => n as nat,
                None => 0,
            },
    {
        let mut r = Select::new();
        r.table = String::from_str(table);
        match self.limit {
            Some(n) => {
                r.limit(n);
            },
            None => {},
        }
        match self.offset {
            Some(n) => {
                r.offset(n);
            },
            None => {},
        }
        r
    }
}

} // verus!
