//! Writers of changed files, and their composition.

use std::path::PathBuf;
use vstd::prelude::*;

verus! {

/// Writes the new contents of a file.
pub trait FileWriter {
    fn write(&self, path: &PathBuf, contents: &str) -> Result<(), std::io::Error>;
}

/// `first` followed by `other`, which writes after `first` succeeded.
pub fn compose<A: FileWriter, B: FileWriter>(first: A, other: B) -> (r: CompositeWriter<A, B>)
    ensures
        r.first == first,
        r.second == other,
{
    CompositeWriter::new(first, other)
}

/// Two writers in sequence: the second writes only when the first
/// succeeded, and the first failure is the result.
pub struct CompositeWriter<A, B> {
    pub first: A,
    pub second: B,
}

impl<A: FileWriter, B: FileWriter> CompositeWriter<A, B> {
    pub fn new(first: A, second: B) -> (r: Self)
        ensures
            r.first == first,
            r.second == second,
    {
        Self { first, second }
    }
}

impl<A: FileWriter, B: FileWriter> FileWriter for CompositeWriter<A, B> {
    fn write(&self, path: &PathBuf, contents: &str) -> Result<(), std::io::Error> {
        match self.first.write(path, contents) {
            Ok(()) => self.second.write(path, contents),
            Err(e) => Err(e),
        }
    }
}

} // verus!
