//! Strongly typed row counts, row offsets and chunk versions.
use std::cmp::Ordering;
use vstd::prelude::*;
use vstd::std_specs::cmp::PartialOrdSpecImpl;

verus! {

/// A number of logical rows.
#[derive(Debug, Clone, Copy, PartialEq, Eq, Structural, Ord)]
pub struct LogicalSize(u64);

impl LogicalSize {
    pub closed spec fn spec_get(&self) -> u64 {
        self.0
    }

    pub fn new(size: u64) -> (r: Self)
        ensures
            r.get() == size,
    {
        LogicalSize(size)
    }

    #[verifier::when_used_as_spec(spec_get)]
    pub fn get(&self) -> (r: u64)
        ensures
            r == self.get(),
    {
        self.0
    }

    /// The size as a `usize`, for indexing.
    pub fn as_usize(&self) -> (r: usize)
        requires
            self.get() <= usize::MAX,
        ensures
            r == self.get(),
    {
        self.0 as usize
    }

    /// Two sizes with the same row count are the same size.
    pub proof fn lemma_get_injective(a: Self, b: Self)
        requires
            a.get() == b.get(),
        ensures
            a == b,
    {
    }
}

/// Row counts are ordered as the numbers they hold.
impl PartialOrd for LogicalSize {
    fn partial_cmp(&self, other: &Self) -> (r: Option<Ordering>) {
        if self.0 < other.0 {
            Some(Ordering::Less)
        } else if self.0 == other.0 {
            Some(Ordering::Equal)
        } else {
            Some(Ordering::Greater)
        }
    }
}

impl PartialOrdSpecImpl for LogicalSize {
    open spec fn obeys_partial_cmp_spec() -> bool {
        true
    }

    open spec fn partial_cmp_spec(&self, other: &Self) -> Option<Ordering> {
        if self.get() < other.get() {
            Some(Ordering::Less)
        } else if self.get() == other.get() {
            Some(Ordering::Equal)
        } else {
            Some(Ordering::Greater)
        }
    }
}

/// The number of rows a chunk holds once it is frozen.
pub const CHUNK_SIZE: u64 = 65536;

/// The number of rows in one vector, the unit in which a frozen chunk is scanned.
pub const VECTOR_SIZE: u64 = 1024;

/// A logical row position.
#[derive(Debug, Clone, Copy, PartialEq, Eq, Structural, Ord)]
pub struct LogicalOffset(u64);

impl LogicalOffset {
    pub closed spec fn spec_get(&self) -> u64 {
        self.0
    }

    pub fn new(offset: u64) -> (r: Self)
        ensures
            r.get() == offset,
    {
        LogicalOffset(offset)
    }

    #[verifier::when_used_as_spec(spec_get)]
    pub fn get(&self) -> (r: u64)
        ensures
            r == self.get(),
    {
        self.0
    }

    /// The offset as a `usize`, for indexing.
    pub fn as_usize(&self) -> (r: usize)
        requires
            self.get() <= usize::MAX,
        ensures
            r == self.get(),
    {
        self.0 as usize
    }

    /// Two offsets at the same row are the same offset.
    pub proof fn lemma_get_injective(a: Self, b: Self)
        requires
            a.get() == b.get(),
        ensures
            a == b,
    {
    }
}

/// Row positions are ordered as the numbers they hold.
impl PartialOrd for LogicalOffset {
    fn partial_cmp(&self, other: &Self) -> (r: Option<Ordering>) {
        if self.0 < other.0 {
            Some(Ordering::Less)
        } else if self.0 == other.0 {
            Some(Ordering::Equal)
        } else {
            Some(Ordering::Greater)
        }
    }
}

impl PartialOrdSpecImpl for LogicalOffset {
    open spec fn obeys_partial_cmp_spec() -> bool {
        true
    }

    open spec fn partial_cmp_spec(&self, other: &Self) -> Option<Ordering> {
        if self.get() < other.get() {
            Some(Ordering::Less)
        } else if self.get() == other.get() {
            Some(Ordering::Equal)
        } else {
            Some(Ordering::Greater)
        }
    }
}

impl core::ops::Add<LogicalSize> for LogicalOffset {
    type Output = LogicalOffset;

    fn add(self, rhs: LogicalSize) -> (r: LogicalOffset)
        ensures
            r.get() == self.get() + rhs.get(),
    {
        LogicalOffset(self.0 + rhs.0)
    }
}

impl vstd::std_specs::ops::AddSpecImpl<LogicalSize> for LogicalOffset {
    open spec fn obeys_add_spec() -> bool {
        true
    }

    open spec fn add_req(self, rhs: LogicalSize) -> bool {
        self.get() + rhs.get() <= u64::MAX
    }

    closed spec fn add_spec(self, rhs: LogicalSize) -> LogicalOffset {
        LogicalOffset((self.get() + rhs.get()) as u64)
    }
}

impl core::ops::Add<LogicalOffset> for LogicalOffset {
    type Output = LogicalOffset;

    fn add(self, rhs: LogicalOffset) -> (r: LogicalOffset)
        ensures
            r.get() == self.get() + rhs.get(),
    {
        LogicalOffset(self.0 + rhs.0)
    }
}

impl vstd::std_specs::ops::AddSpecImpl<LogicalOffset> for LogicalOffset {
    open spec fn obeys_add_spec() -> bool {
        true
    }

    open spec fn add_req(self, rhs: LogicalOffset) -> bool {
        self.get() + rhs.get() <= u64::MAX
    }

    closed spec fn add_spec(self, rhs: LogicalOffset) -> LogicalOffset {
        LogicalOffset((self.get() + rhs.get()) as u64)
    }
}

/// The identifier a chunk receives when it is created.
#[derive(Debug, Clone, Copy, PartialEq, Eq, Structural)]
pub struct VersionID(u64);

impl VersionID {
    pub closed spec fn spec_get(&self) -> u64 {
        self.0
    }

    pub closed spec fn spec_new(version: u64) -> Self {
        VersionID(version)
    }

    pub fn new(version: u64) -> (r: Self)
        ensures
            r == Self::spec_new(version),
            r.get() == version,
    {
        VersionID(version)
    }

    pub broadcast proof fn lemma_spec_new(version: u64)
        ensures
            #[trigger] Self::spec_new(version).get() == version,
    {
    }

    #[verifier::when_used_as_spec(spec_get)]
    pub fn get(&self) -> (r: u64)
        ensures
            r == self.get(),
    {
        self.0
    }

    /// Two version identifiers with the same number are the same identifier.
    pub proof fn lemma_get_injective(a: Self, b: Self)
        requires
            a.get() == b.get(),
        ensures
            a == b,
    {
    }
}

} // verus!
