use vstd::prelude::*;

verus! {

/// Only entries of the local machine.
pub const LOCAL_ONLY: u32 = 1;

/// Only the volatile store under the runtime directory.
pub const RUNTIME_ONLY: u32 = 2;

/// System services and the kernel.
pub const SYSTEM: u32 = 4;

/// The current user only.
pub const CURRENT_USER: u32 = 8;

/// Paths relative to an alternate root.
pub const OS_ROOT: u32 = 16;

/// Every option bit that a journal can be opened with.
pub const ALL_BITS: u32 = 31;

/// The options a journal is opened with: a set of the bits above.
#[derive(Clone, Copy, Debug, PartialEq, Eq, Structural, Hash)]
pub struct OpenFlags {
    bits: u32,
}

impl OpenFlags {
    /// The bits of the set.
    pub closed spec fn spec_bits(self) -> u32 {
        self.bits
    }

    /// A set holds no bit outside the known options.
    pub closed spec fn wf(self) -> bool {
        self.bits & !ALL_BITS == 0
    }

    /// No option: every locally visible entry, persistent and runtime, of any user.
    pub fn empty() -> (r: OpenFlags)
        ensures
            r.spec_bits() == 0,
            r.wf(),
    {
        proof {
            assert(0u32 & !ALL_BITS == 0) by (bit_vector);
        }
        OpenFlags { bits: 0 }
    }

    /// Every option at once.
    pub fn all() -> (r: OpenFlags)
        ensures
            r.spec_bits() == ALL_BITS,
            r.wf(),
    {
        proof {
            assert(31u32 & !31u32 == 0) by (bit_vector);
        }
        OpenFlags { bits: ALL_BITS }
    }

    /// The set with the given bits, or `None` where a bit is no known option.
    pub fn from_bits(bits: u32) -> (r: Option<OpenFlags>)
        ensures
            (bits & !ALL_BITS == 0) ==> (r matches Some(f) && f.spec_bits() == bits),
            (bits & !ALL_BITS != 0) ==> r is None,
            r matches Some(f) ==> f.wf(),
    {
        if bits & !ALL_BITS == 0 {
            Some(OpenFlags { bits })
        } else {
            None
        }
    }

    /// The set with the known options among the given bits.
    pub fn from_bits_truncate(bits: u32) -> (r: OpenFlags)
        ensures
            r.spec_bits() == bits & ALL_BITS,
            r.wf(),
    {
        proof {
            assert((bits & 31u32) & !31u32 == 0) by (bit_vector);
        }
        OpenFlags { bits: bits & ALL_BITS }
    }

    pub fn bits(&self) -> (r: u32)
        ensures
            r == self.spec_bits(),
    {
        self.bits
    }

    pub fn is_empty(&self) -> (r: bool)
        ensures
            r == (self.spec_bits() == 0),
    {
        self.bits == 0
    }

    /// Whether every bit of `other` is in the set.
    pub fn contains(&self, other: OpenFlags) -> (r: bool)
        ensures
            r == (self.spec_bits() & other.spec_bits() == other.spec_bits()),
    {
        self.bits & other.bits == other.bits
    }

    /// The options of both sets.
    pub fn union(self, other: OpenFlags) -> (r: OpenFlags)
        requires
            self.wf(),
            other.wf(),
        ensures
            r.spec_bits() == self.spec_bits() | other.spec_bits(),
            r.wf(),
    {
        let a = self.bits;
        let b = other.bits;
        proof {
            assert(a & !31u32 == 0 && b & !31u32 == 0 ==> (a | b) & !31u32 == 0) by (bit_vector);
        }
        OpenFlags { bits: a | b }
    }

    /// The options as the signed integer that the open call takes.
    pub fn to_raw(&self) -> (r: i32)
        requires
            self.wf(),
        ensures
            r as int == self.spec_bits() as int,
    {
        let b = self.bits;
        proof {
            assert(b & !31u32 == 0 ==> b <= 31) by (bit_vector);
        }
        b as i32
    }
}

} // verus!
