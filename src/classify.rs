use vstd::prelude::*;
use crate::text::str_starts_with;

verus! {

/// How a test runs.
#[derive(Debug, Clone, Copy, PartialEq, Eq, Structural)]
pub enum TestKind {
    /// Once, without arguments.
    Unit,
    /// Many times, on drawn arguments.
    Fuzz,
    /// As a predicate checked after every call of drawn call sequences.
    Invariant,
}

/// What a function of a contract is to the runner.
#[derive(Debug, Clone, Copy, PartialEq, Eq, Structural)]
pub enum Classification {
    /// A test of the given kind.
    Test(TestKind),
    /// Not a test: a candidate call in invariant sequences.
    Target,
    /// A test name on a function that cannot be run as such.
    Malformed,
}

/// Whether `p` begins `s`.
pub open spec fn has_prefix(s: Seq<char>, p: Seq<char>) -> bool {
    p.len() <= s.len() && s.subrange(0, p.len() as int) == p
}

/// The class of a function by its name and its number of parameters: "test"
/// names a unit test without parameters and a fuzz test with them;
/// "invariant" names an invariant, which takes no parameters.
pub open spec fn class_of(name: Seq<char>, n_params: nat) -> Classification {
    if has_prefix(name, "test"@) {
        if n_params == 0 {
            Classification::Test(TestKind::Unit)
        } else {
            Classification::Test(TestKind::Fuzz)
        }
    } else if has_prefix(name, "invariant"@) {
        if n_params == 0 {
            Classification::Test(TestKind::Invariant)
        } else {
            Classification::Malformed
        }
    } else {
        Classification::Target
    }
}

/// Classifies a function of a contract.
pub fn classify(name: &str, n_params: usize) -> (r: Classification)
    ensures
        r == class_of(name@, n_params as nat),
{
    if str_starts_with(name, "test") {
        if n_params == 0 {
            Classification::Test(TestKind::Unit)
        } else {
            Classification::Test(TestKind::Fuzz)
        }
    } else if str_starts_with(name, "invariant") {
        if n_params == 0 {
            Classification::Test(TestKind::Invariant)
        } else {
            Classification::Malformed
        }
    } else {
        Classification::Target
    }
}

} // verus!
