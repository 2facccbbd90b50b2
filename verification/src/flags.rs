//! The administrative attributes of a token record.

use vstd::prelude::*;

verus! {

/// The bit that marks a token as locked.
pub const LOCKED: i32 = 1;

/// The bit that marks a token as a namespace.
pub const NAMESPACE: i32 = 2;

/// A set of attributes. It is stored as the sum of the bits of its
/// members.
#[derive(Clone, Copy, Debug, PartialEq, Eq, Structural)]
pub struct Flags {
    pub locked: bool,
    pub namespace: bool,
}

impl Flags {
    /// The stored form of the set.
    pub open spec fn bits_of(self) -> int {
        (if self.locked {
            LOCKED as int
        } else {
            0
        }) + (if self.namespace {
            NAMESPACE as int
        } else {
            0
        })
    }

    /// The set with no member.
    pub fn empty() -> (flags: Flags)
        ensures
            flags == (Flags { locked: false, namespace: false }),
    {
        Flags { locked: false, namespace: false }
    }

    /// The set whose only member is the lock.
    pub fn locked() -> (flags: Flags)
        ensures
            flags == (Flags { locked: true, namespace: false }),
    {
        Flags { locked: true, namespace: false }
    }

    /// The set whose only member is the namespace mark.
    pub fn namespace() -> (flags: Flags)
        ensures
            flags == (Flags { locked: false, namespace: true }),
    {
        Flags { locked: false, namespace: true }
    }

    /// The set that holds every attribute.
    pub fn all() -> (flags: Flags)
        ensures
            flags == (Flags { locked: true, namespace: true }),
    {
        Flags { locked: true, namespace: true }
    }

    /// The stored form of the set.
    pub fn bits(&self) -> (bits: i32)
        ensures
            bits == self.bits_of(),
    {
        let locked: i32 = if self.locked {
            LOCKED
        } else {
            0
        };
        let namespace: i32 = if self.namespace {
            NAMESPACE
        } else {
            0
        };
        locked + namespace
    }

    /// The set whose stored form is `bits`, or `None` where `bits` sets a
    /// bit that stands for no attribute.
    pub fn from_bits(bits: i32) -> (flags: Option<Flags>)
        ensures
            match flags {
                Some(f) => known_bits(bits as int) && f.bits_of() == bits,
                None => !known_bits(bits as int),
            },
    {
        if bits < 0 || bits > LOCKED + NAMESPACE {
            None
        } else {
            Some(Flags { locked: bits % 2 == 1, namespace: bits >= NAMESPACE })
        }
    }

    /// Whether every member of `other` is a member of this set.
    pub fn contains(&self, other: Flags) -> (yes: bool)
        ensures
            yes == ((other.locked ==> self.locked) && (other.namespace ==> self.namespace)),
    {
        (!other.locked || self.locked) && (!other.namespace || self.namespace)
    }

    /// The set of the attributes that are in this set or in `other`.
    pub fn union(self, other: Flags) -> (both: Flags)
        ensures
            both == (Flags {
                locked: self.locked || other.locked,
                namespace: self.namespace || other.namespace,
            }),
    {
        Flags {
            locked: self.locked || other.locked,
            namespace: self.namespace || other.namespace,
        }
    }
}

impl Default for Flags {
    /// The set with no member.
    fn default() -> (flags: Flags)
        ensures
            flags == (Flags { locked: false, namespace: false }),
    {
        Flags { locked: false, namespace: false }
    }
}

/// Whether `bits` is the stored form of a set of attributes.
pub open spec fn known_bits(bits: int) -> bool {
    0 <= bits <= LOCKED + NAMESPACE
}

/// The stored forms of the attribute sets are the integers from zero to
/// three, and no two sets share one.
pub proof fn lemma_stored_forms(a: Flags, b: Flags)
    ensures
        known_bits(a.bits_of()),
        a.bits_of() == b.bits_of() ==> a == b,
{
}

} // verus!
