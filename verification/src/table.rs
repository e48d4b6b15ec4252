//! Tables: a read-only, columnar copy of what an index holds.

use crate::codec::views;
use vstd::prelude::*;

verus! {

/// What a table holds: the name of the index it was taken of, the name of
/// each column, and the cells of each column, as encoded values.
pub ghost struct TableView {
    pub name: Seq<u8>,
    pub schema: Seq<Seq<char>>,
    pub columns: Seq<Seq<Seq<u8>>>,
}

/// An immutable copy of an index's content for the active key, column by
/// column. Every column has one cell per row.
#[derive(Debug)]
pub struct ImmutableTable {
    name: Vec<u8>,
    schema: Vec<String>,
    columns: Vec<Vec<Vec<u8>>>,
}

impl View for ImmutableTable {
    type V = TableView;

    closed spec fn view(&self) -> TableView {
        TableView {
            name: self.name@,
            schema: Seq::new(self.schema@.len(), |i: int| self.schema@[i]@),
            columns: Seq::new(self.columns@.len(), |i: int| views(self.columns@[i]@)),
        }
    }
}

impl ImmutableTable {
    /// A table of one column.
    pub fn single(name: Vec<u8>, column: &str, cells: Vec<Vec<u8>>) -> (t: ImmutableTable)
        ensures
            t@ == (TableView {
                name: name@,
                schema: seq![column@],
                columns: seq![views(cells@)],
            }),
    {
        let mut schema: Vec<String> = Vec::new();
        schema.push(column.to_owned());
        let mut columns: Vec<Vec<Vec<u8>>> = Vec::new();
        columns.push(cells);
        let t = ImmutableTable { name, schema, columns };
        assert(t@.schema =~= seq![column@]);
        assert(t@.columns =~= seq![views(cells@)]);
        t
    }

    /// A table of two columns of the same length.
    pub fn pair(
        name: Vec<u8>,
        first: &str,
        first_cells: Vec<Vec<u8>>,
        second: &str,
        second_cells: Vec<Vec<u8>>,
    ) -> (t: ImmutableTable)
        requires
            first_cells@.len() == second_cells@.len(),
        ensures
            t@ == (TableView {
                name: name@,
                schema: seq![first@, second@],
                columns: seq![views(first_cells@), views(second_cells@)],
            }),
    {
        let mut schema: Vec<String> = Vec::new();
        schema.push(first.to_owned());
        schema.push(second.to_owned());
        let mut columns: Vec<Vec<Vec<u8>>> = Vec::new();
        columns.push(first_cells);
        columns.push(second_cells);
        let t = ImmutableTable { name, schema, columns };
        assert(t@.schema =~= seq![first@, second@]);
        assert(t@.columns =~= seq![views(first_cells@), views(second_cells@)]);
        t
    }

    /// The name of the index that the table was taken of.
    pub fn name(&self) -> (r: &Vec<u8>)
        ensures
            r@ == self@.name,
    {
        &self.name
    }

    /// The number of columns.
    pub fn num_columns(&self) -> (n: usize)
        ensures
            n == self@.columns.len(),
    {
        self.columns.len()
    }

    /// The name of column `i`.
    pub fn column_name(&self, i: usize) -> (r: Option<&String>)
        ensures
            match r {
                Some(s) => i < self@.schema.len() && s@ == self@.schema[i as int],
                None => i >= self@.schema.len(),
            },
    {
        if i < self.schema.len() {
            Some(&self.schema[i])
        } else {
            None
        }
    }

    /// The cells of column `i`, from the first row on.
    pub fn column(&self, i: usize) -> (r: Option<&Vec<Vec<u8>>>)
        ensures
            match r {
                Some(cells) => i < self@.columns.len() && views(cells@) == self@.columns[i as int],
                None => i >= self@.columns.len(),
            },
    {
        if i < self.columns.len() {
            Some(&self.columns[i])
        } else {
            None
        }
    }
}

} // verus!
