use vstd::prelude::*;

verus! {

/// A store of game files addressed by path, such as an MPQ archive or a
/// directory. Implementations of sources that read storage live outside the
/// library, so nothing is stated of what they answer.
pub trait DataSource {
    /// Whether the source has a file at `path`.
    fn has(&self, path: &str) -> bool;

    /// The bytes of the file at `path`, if the source can read it.
    fn read(&self, path: &str) -> Option<Vec<u8>>;
}

/// A stack of sources queried in the order they were added: the first one
/// that answers wins, and the ones after it are not asked.
pub struct CompoundDataSource {
    sources: Vec<Box<dyn DataSource>>,
}

impl CompoundDataSource {
    /// The sources, in the order they are queried.
    pub closed spec fn layers(&self) -> Seq<Box<dyn DataSource>> {
        self.sources@
    }

    /// A compound source with no layers.
    pub fn new() -> (r: Self)
        ensures
            r.layers().len() == 0,
    {
        CompoundDataSource { sources: Vec::new() }
    }

    /// Adds a source below the ones already present.
    pub fn add(&mut self, source: Box<dyn DataSource>)
        ensures
            final(self).layers() == old(self).layers().push(source),
    {
        self.sources.push(source);
    }
}

impl DataSource for CompoundDataSource {
    /// Whether any layer has a file at `path`, asking the layers in order
    /// and stopping at the first that has it. With no layers, false.
    fn has(&self, path: &str) -> (r: bool)
        ensures
            self.layers().len() == 0 ==> !r,
    {
        let mut i: usize = 0;
        while i < self.sources.len()
            invariant
                i <= self.sources@.len(),
            decreases self.sources@.len() - i,
        {
            if self.sources[i].has(path) {
                return true;
            }
            i = i + 1;
        }
        false
    }

    /// The file at `path` from the first layer that can read it, asking
    /// the layers in order. With no layers, none.
    fn read(&self, path: &str) -> (r: Option<Vec<u8>>)
        ensures
            self.layers().len() == 0 ==> r is None,
    {
        let mut i: usize = 0;
        while i < self.sources.len()
            invariant
                i <= self.sources@.len(),
            decreases self.sources@.len() - i,
        {
            match self.sources[i].read(path) {
                Some(v) => {
                    return Some(v);
                },
                None => {},
            }
            i = i + 1;
        }
        None
    }
}

} // verus!
