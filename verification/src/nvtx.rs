//! NVTX range annotations for profiling with Nsight Systems.
use vstd::prelude::*;
use vstd::string::StringExecFns;

use crate::text::{decimal, lemma_decimal_has_no_nul, push_decimal};

verus! {

/// A range that was pushed on the current thread, with the level that the profiler told
/// last. The profiler keeps the name; nothing of it can be read back.
#[verifier::external_body]
pub struct OpenRange {
    level: i32,
}

/// The name that a range was pushed with.
pub uninterp spec fn pushed_name(range: OpenRange) -> Seq<char>;

/// How many pops were made for a range.
pub uninterp spec fn pops_made(range: OpenRange) -> nat;

/// Starts a nested range of the current thread with `nvtx::range_push!`, whose
/// function `_range_push` makes a C string of the name: a name with a NUL
/// character would panic. It hands the name over as it is, and no pop was made for
/// the range yet. The level that it returns comes from the attached profiler, so
/// nothing is said of it.
#[verifier::external_body]
fn range_push(name: &str) -> (range: OpenRange)
    requires
        !name@.contains('\0'),
    ensures
        pushed_name(range) == name@,
        pops_made(range) == 0,
{
    OpenRange { level: nvtx::__private::_range_push(name) }
}

/// Makes one pop for `range` with `nvtx::range_pop!`, whose function is `_range_pop`.
/// What ends is the innermost range of the current thread, whichever that is: it is
/// `range` where all ranges pushed after it were popped. The level that it returns
/// comes from the attached profiler, so nothing is said of it.
#[verifier::external_body]
fn range_pop(range: &mut OpenRange)
    ensures
        pops_made(*final(range)) == pops_made(*old(range)) + 1,
        pushed_name(*final(range)) == pushed_name(*old(range)),
    opens_invariants none
    no_unwind
{
    range.level = nvtx::__private::_range_pop();
}

/// A guard that pushes an NVTX range when it is made and pops it when it is dropped.
pub struct Guard {
    range: OpenRange,
}

impl View for Guard {
    type V = Seq<char>;

    /// The name that the guard's range was pushed with.
    closed spec fn view(&self) -> Seq<char> {
        pushed_name(self.range)
    }
}

impl Guard {
    /// The range that the guard holds open.
    pub closed spec fn range(self) -> OpenRange {
        self.range
    }

    /// How many pops were made for the guard.
    pub closed spec fn pops(self) -> nat {
        pops_made(self.range)
    }

    /// Pushes an NVTX range with the given name.
    #[inline]
    pub fn new(name: &str) -> (guard: Self)
        requires
            !name@.contains('\0'),
        ensures
            guard@ == name@,
            guard.pops() == 0,
    {
        Guard { range: range_push(name) }
    }
}

/// The name of a guard is the name that its range was pushed with, and its pops are those
/// made for its range.
pub proof fn law_guard_is_its_range(guard: Guard)
    ensures
        guard@ == pushed_name(guard.range()),
        guard.pops() == pops_made(guard.range()),
{
}

impl Drop for Guard {
    /// Makes one pop for the guard.
    #[inline]
    fn drop(&mut self)
        ensures
            final(self).pops() == old(self).pops() + 1,
            final(self)@ == old(self)@,
        opens_invariants none
        no_unwind
    {
        range_pop(&mut self.range);
    }
}

// ---------------------------------------------------------------------------
// Labels
// ---------------------------------------------------------------------------

/// The name of the range around a multiplication with `m` input rows in a batch and `n`
/// output columns, for example `q4mm 1x4096`.
pub fn range_label(m: usize, n: usize) -> (label: String)
    ensures
        label@ == "q4mm "@ + decimal(m as nat) + "x"@ + decimal(n as nat),
        !label@.contains('\0'),
{
    let mut label: String = String::from_str("q4mm ");
    push_decimal(&mut label, m);
    label.append("x");
    push_decimal(&mut label, n);
    proof {
        reveal_strlit("q4mm ");
        reveal_strlit("x");
        lemma_decimal_has_no_nul(m as nat);
        lemma_decimal_has_no_nul(n as nat);
        assert forall|i: int| 0 <= i < label@.len() implies label@[i] != '\0' by {
            let head = "q4mm "@ + decimal(m as nat);
            if i >= head.len() + 1 {
                assert(label@[i] == decimal(n as nat)[i - head.len() - 1]);
            } else if i >= 5 && i < head.len() {
                assert(label@[i] == decimal(m as nat)[i - 5]);
            }
        }
    }
    label
}

} // verus!
