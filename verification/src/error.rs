//! Typed compilation errors and the bounded channel that collects them.

use vstd::prelude::*;

verus! {

/// Why one module's build failed. A failure is reported for its own branch
/// only; sibling branches keep building.
#[derive(Debug, PartialEq, Eq)]
pub enum CompilationError {
    GenericError(String),
    LoadError { resolved_path: String, message: String },
    TransformError { resolved_path: String, message: String },
    ParseError { resolved_path: String, message: String },
    ProcessModuleError { resolved_path: String, message: String },
}

/// A bounded error collector. Senders never block: once the capacity is
/// reached, further errors are counted as dropped and the build is to be
/// considered incomplete.
pub struct ErrorChannel {
    capacity: usize,
    errors: Vec<CompilationError>,
    dropped: u64,
}

impl View for ErrorChannel {
    type V = Seq<CompilationError>;

    closed spec fn view(&self) -> Seq<CompilationError> {
        self.errors@
    }
}

/// How one best-effort send changes a channel: the error is kept while
/// there is room, else only the dropped count moves (saturating).
pub open spec fn channel_sent(
    before: ErrorChannel,
    after: ErrorChannel,
    e: CompilationError,
) -> bool {
    &&& after.capacity_spec() == before.capacity_spec()
    &&& if before@.len() < before.capacity_spec() {
        after@ == before@.push(e) && after.dropped_spec() == before.dropped_spec()
    } else {
        after@ == before@ && after.dropped_spec() == (if before.dropped_spec() < u64::MAX {
            before.dropped_spec() + 1
        } else {
            before.dropped_spec() as int
        })
    }
}

impl ErrorChannel {
    /// How many errors the channel accepts before dropping.
    pub closed spec fn capacity_spec(self) -> usize {
        self.capacity
    }

    /// How many errors could not be accepted.
    pub closed spec fn dropped_spec(self) -> u64 {
        self.dropped
    }

    /// An empty channel with the given capacity.
    pub fn new(capacity: usize) -> (c: ErrorChannel)
        ensures
            c@ == Seq::<CompilationError>::empty(),
            c.capacity_spec() == capacity,
            c.dropped_spec() == 0,
    {
        let c = ErrorChannel { capacity, errors: Vec::new(), dropped: 0 };
        proof {
            assert(c@ =~= Seq::<CompilationError>::empty());
        }
        c
    }

    /// Best-effort send: the error is kept while there is room, else it is
    /// counted as dropped. Never blocks, never panics.
    pub fn send(&mut self, e: CompilationError)
        ensures
            channel_sent(*old(self), *final(self), e),
    {
        if self.errors.len() < self.capacity {
            self.errors.push(e);
        } else if self.dropped < u64::MAX {
            self.dropped = self.dropped + 1;
        }
    }

    /// How many errors are held.
    pub fn len(&self) -> (n: usize)
        ensures
            n == self@.len(),
    {
        self.errors.len()
    }

    /// How many errors were dropped for want of room.
    pub fn dropped_count(&self) -> (n: u64)
        ensures
            n == self.dropped_spec(),
    {
        self.dropped
    }

    /// Drains the channel once every branch has settled, yielding the
    /// complete set of collected errors.
    pub fn into_errors(self) -> (r: Vec<CompilationError>)
        ensures
            r@ == self@,
    {
        self.errors
    }
}

} // verus!
