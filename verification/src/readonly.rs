//! A filesystem that can be read and never changed, for a dry run.

use crate::error::Error;
use crate::error::Result;
use crate::fs::AbstractFs;
use crate::fs::FileNode;
use crate::fs::Timestamp;
use vstd::prelude::*;

verus! {

/// Another filesystem with every mutation refused.
pub struct ReadOnlyFs<F> {
    inner: F,
}

impl<F: AbstractFs> ReadOnlyFs<F> {
    /// The filesystem that is read.
    pub closed spec fn inner(&self) -> F {
        self.inner
    }

    pub fn new(inner: F) -> (r: Self)
        ensures
            r.inner() == inner,
    {
        ReadOnlyFs { inner }
    }

    pub fn into_inner(self) -> (r: F)
        ensures
            r == self.inner(),
    {
        self.inner
    }
}

impl<F: AbstractFs> AbstractFs for ReadOnlyFs<F> {
    type File = F::File;

    open spec fn files(&self) -> Map<Seq<char>, FileNode> {
        self.inner().files()
    }

    open spec fn read_only(&self) -> bool {
        true
    }

    open spec fn canonical(&self, path: Seq<char>) -> Option<Seq<char>> {
        self.inner().canonical(path)
    }

    open spec fn dependable(&self) -> bool {
        self.inner().dependable()
    }

    fn is_read_only(&self) -> (r: bool) {
        true
    }

    /// Hands back what the filesystem that is read answers.
    fn open(&self, path: &str) -> (r: Result<F::File>)
        ensures
            call_ensures(F::open, (&self.inner(), path), r),
    {
        self.inner.open(path)
    }

    fn write_to_file(&mut self, _path: &str, _buf: &[u8]) -> (r: Result<()>)
        ensures
            r == Err::<(), Error>(Error::ReadOnlyFs),
            final(self).inner() == old(self).inner(),
    {
        Err(Error::ReadOnlyFs)
    }

    /// Hands back what the filesystem that is read answers.
    fn canonicalize(&self, path: &str) -> (r: Result<String>)
        ensures
            call_ensures(F::canonicalize, (&self.inner(), path), r),
    {
        self.inner.canonicalize(path)
    }

    /// Hands back what the filesystem that is read answers.
    fn metadata(&self, path: &str) -> (r: Result<(u64, Timestamp, Timestamp, Timestamp, u64)>)
        ensures
            call_ensures(F::metadata, (&self.inner(), path), r),
    {
        self.inner.metadata(path)
    }

    fn hard_link(&mut self, _src: &str, _dst: &str) -> (r: Result<()>)
        ensures
            r == Err::<(), Error>(Error::ReadOnlyFs),
            final(self).inner() == old(self).inner(),
    {
        Err(Error::ReadOnlyFs)
    }

    fn remove_file(&mut self, _path: &str) -> (r: Result<()>)
        ensures
            r == Err::<(), Error>(Error::ReadOnlyFs),
            final(self).inner() == old(self).inner(),
    {
        Err(Error::ReadOnlyFs)
    }

    fn rename(&mut self, _from: &str, _to: &str) -> (r: Result<()>)
        ensures
            r == Err::<(), Error>(Error::ReadOnlyFs),
            final(self).inner() == old(self).inner(),
    {
        Err(Error::ReadOnlyFs)
    }
}

} // verus!
