//! A data source without data.

use vstd::prelude::*;
use crate::{DataSource, Error, Point};

verus! {

/// A `DataSource` that returns no data points.
#[derive(Debug)]
pub struct NullDataSource;

impl DataSource for NullDataSource {
    fn get_data(&mut self) -> (r: Result<Vec<Point>, Error>)
        ensures
            r is Ok,
            r->Ok_0@.len() == 0,
    {
        Ok(Vec::new())
    }

    fn get_num_values(&self) -> (r: Result<usize, Error>)
        ensures
            r == Ok::<usize, Error>(1),
    {
        Ok(1)
    }
}

impl NullDataSource {
    /// Constructs a new instance of `NullDataSource`.
    pub fn new() -> NullDataSource {
        NullDataSource
    }
}

} // verus!
