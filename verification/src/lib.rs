//! A test-suite interpreter. A suite names test cases; each runs commands and
//! says what it expects of the run: an exit code, a standard output, a standard
//! error. This library holds the rules: what a suite text denotes, how nested
//! suites are resolved, which commands a test runs, what a finished run says
//! about its test, and what the results add up to. It runs nothing and reads
//! nothing itself: the caller runs the commands and loads the documents.
//!
//! - `atest`: a suite in the line-oriented notation.
//! - `scanner`, `grammar`, `parser`: from a text to such a suite.
//! - `test`: a suite as a structured document, with nested suites.
//! - `resolve`: attaches the nested suites of a document, to a bounded depth.
//! - `exec`: the commands of a test, and the verdict on a run.
//! - `report`: the order of the runs, and the tallies.

use vstd::prelude::*;

pub mod atest;
pub mod scanner;
pub mod grammar;
pub mod parser;
pub mod exec;
pub mod resolve;
pub mod report;

verus! {

/// The settings of one run.
pub struct Options {
    max_depth: u32,
}

impl Options {
    /// The deepest level of nested suites that is still resolved; the root suite is level 0.
    pub closed spec fn depth_limit(&self) -> u32 {
        self.max_depth
    }

    /// Settings with the given limit on the depth of nested suites.
    pub fn new(max_depth: u32) -> (r: Self)
        ensures
            r.depth_limit() == max_depth,
    {
        Options { max_depth }
    }

    /// The limit on the depth of nested suites.
    pub fn max_depth(&self) -> (d: u32)
        ensures
            d == self.depth_limit(),
    {
        self.max_depth
    }
}

impl Default for Options {
    /// Settings that allow suites to nest a thousand deep.
    fn default() -> (r: Self)
        ensures
            r.depth_limit() == 1000,
    {
        Options { max_depth: 1000 }
    }
}

} // verus!
