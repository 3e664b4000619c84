//! Permission specifiers: an exact value for the permission bits, or a mask
//! of which some bit has to be set.

use vstd::prelude::*;
use vstd::string::*;
use crate::octal::{parse_octal, parse_octal_spec, MAX_MODE};

verus! {

/// The nine permission bits.
pub const PERM_BITS: u32 = 0o777;

/// A permission specifier that was read.
#[derive(Debug, Clone, Copy, PartialEq, Eq, Structural)]
pub enum PermSpec {
    /// The permission bits of the mode have to equal this value.
    Exact(u32),
    /// The mode has to share a bit with this mask.
    Mask(u32),
}

/// The specifier that the text `s` denotes, if it denotes one: `/` and an
/// octal number is a mask, an octal number alone an exact value.
pub open spec fn parse_perm_spec(s: Seq<char>) -> Option<PermSpec> {
    if s.len() > 0 && s[0] == '/' {
        match parse_octal_spec(s.subrange(1, s.len() as int)) {
            Some(mask) => Some(PermSpec::Mask(mask)),
            None => None,
        }
    } else {
        match parse_octal_spec(s) {
            Some(exact) => Some(PermSpec::Exact(exact)),
            None => None,
        }
    }
}

/// Whether `mode` satisfies the permission specifier written as `perm`.
///
/// Without a specifier every mode does. A specifier that cannot be read is
/// satisfied by no mode.
pub open spec fn perm_matches(perm: Option<Seq<char>>, mode: u32) -> bool {
    match perm {
        None => true,
        Some(p) => match parse_perm_spec(p) {
            Some(spec) => spec.admits(mode),
            None => false,
        },
    }
}

impl PermSpec {
    /// The number that the specifier carries.
    pub open spec fn value(self) -> u32 {
        match self {
            PermSpec::Exact(v) => v,
            PermSpec::Mask(v) => v,
        }
    }

    /// The number is one that a specifier can be written with.
    pub open spec fn well_formed(self) -> bool {
        self.value() <= MAX_MODE
    }

    /// `mode` satisfies the specifier.
    pub open spec fn admits(self, mode: u32) -> bool {
        match self {
            PermSpec::Exact(exact) => (mode & PERM_BITS) == exact,
            PermSpec::Mask(mask) => mode & mask != 0,
        }
    }

    /// Reads a specifier. `None` where `s` is not one.
    pub fn parse(s: &str) -> (r: Option<PermSpec>)
        ensures
            r == parse_perm_spec(s@),
            r matches Some(spec) ==> spec.well_formed(),
    {
        let n: usize = s.unicode_len();
        if n > 0 && s.get_char(0) == '/' {
            match parse_octal(s.substring_char(1, n)) {
                Some(mask) => Some(PermSpec::Mask(mask)),
                None => None,
            }
        } else {
            match parse_octal(s) {
                Some(exact) => Some(PermSpec::Exact(exact)),
                None => None,
            }
        }
    }

    /// Whether `mode` satisfies the specifier.
    pub fn matches(&self, mode: u32) -> (r: bool)
        ensures
            r == self.admits(mode),
    {
        match self {
            PermSpec::Exact(exact) => (mode & PERM_BITS) == *exact,
            PermSpec::Mask(mask) => mode & *mask != 0,
        }
    }
}

/// A permission specifier that cannot be read is satisfied by no mode.
pub proof fn lemma_unreadable_perm_matches_nothing(perm: Seq<char>, mode: u32)
    requires
        parse_perm_spec(perm) is None,
    ensures
        !perm_matches(Some(perm), mode),
{
}

/// An exact specifier looks at the nine permission bits only: two modes
/// that agree on them get the same answer, and a value with a bit above
/// them is satisfied by no mode.
pub proof fn lemma_exact_reads_permission_bits(exact: u32, a: u32, b: u32)
    ensures
        (a & PERM_BITS) == (b & PERM_BITS) ==> PermSpec::Exact(exact).admits(a)
            == PermSpec::Exact(exact).admits(b),
        exact > PERM_BITS ==> !PermSpec::Exact(exact).admits(a),
{
    assert((a & 0o777u32) <= 0o777u32) by (bit_vector);
}

} // verus!
