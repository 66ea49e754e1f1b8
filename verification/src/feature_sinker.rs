//! The feature sinker: turns lines of features into batches for a table.
use vstd::prelude::*;

verus! {

/// Reads features from `reader` and batches them for one table.
pub struct FeatureSinker<T> {
    table_name: String,
    reader: T,
    num_rows: usize,
    num_cols: usize,
}

impl<T> FeatureSinker<T> {
    /// The table that the sinker feeds.
    pub closed spec fn table(&self) -> Seq<char> {
        self.table_name@
    }

    /// The source of the lines.
    pub closed spec fn source(&self) -> T {
        self.reader
    }

    /// The rows and columns of the batches that the sinker makes.
    pub closed spec fn shape(&self) -> (usize, usize) {
        (self.num_rows, self.num_cols)
    }

    /// A sinker that reads from `reader` and makes batches of `num_rows`
    /// rows and `num_cols` columns for `table_name`.
    pub fn new(table_name: &String, reader: T, num_rows: usize, num_cols: usize) -> (sinker: Self)
        ensures
            sinker.table() == table_name@,
            sinker.source() == reader,
            sinker.shape() == (num_rows, num_cols),
    {
        Self { table_name: table_name.clone(), reader, num_rows, num_cols }
    }

    pub fn table_name(&self) -> (name: &String)
        ensures
            name@ == self.table(),
    {
        &self.table_name
    }

    pub fn num_rows(&self) -> (n: usize)
        ensures
            n == self.shape().0,
    {
        self.num_rows
    }

    pub fn num_cols(&self) -> (n: usize)
        ensures
            n == self.shape().1,
    {
        self.num_cols
    }

    /// Gives the source back.
    pub fn into_reader(self) -> (reader: T)
        ensures
            reader == self.source(),
    {
        self.reader
    }
}

} // verus!
