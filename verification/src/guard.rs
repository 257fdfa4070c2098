//! The one sanctioned recursion pattern of the crate: every recursive
//! descent into an attacker-shaped tree enters its frame through
//! `RecGuard::enter`, which counts depth (rejecting at `MAX_REC_DEPTH`
//! with `KernelError::DeepRecursion`, never a panic) and runs the frame on
//! a stack segment that `stacker` grows on demand.
use crate::error::KernelError;
use vstd::prelude::*;

verus! {

/// Depth cap for guarded recursion. Hitting it rejects the input:
/// incompleteness, never unsoundness.
pub const MAX_REC_DEPTH: u32 = 1_000_000;

/// Keep at least this much stack headroom; grow in these increments.
const RED_ZONE: usize = 131072;

const STACK_CHUNK: usize = 4194304;

/// Depth counter for guarded recursion.
pub struct RecGuard {
    depth: u32,
}

impl RecGuard {
    /// The number of guarded frames currently entered.
    pub closed spec fn depth(self) -> nat {
        self.depth as nat
    }

    #[verifier::type_invariant]
    closed spec fn within_cap(self) -> bool {
        self.depth <= MAX_REC_DEPTH
    }

    /// The depth is a 32-bit counter.
    pub proof fn lemma_depth_bound(self)
        ensures
            self.depth() <= u32::MAX,
    {
    }

    /// A guard at depth zero.
    pub fn new() -> (g: RecGuard)
        ensures
            g.depth() == 0,
    {
        RecGuard { depth: 0 }
    }

    /// The number of guarded frames currently entered.
    pub fn current_depth(&self) -> (r: u32)
        ensures
            r == self.depth(),
            r <= MAX_REC_DEPTH,
    {
        proof {
            use_type_invariant(self);
        }
        self.depth
    }

    /// Runs `f` one frame deeper, on a stack segment with enough headroom.
    /// At the cap it returns `DeepRecursion` without running `f`. The guard
    /// is back at its own depth afterwards, whatever `f` returned.
    pub fn enter<R, F>(&mut self, f: F) -> (r: Result<R, KernelError>)
        where
            F: FnOnce(RecGuard) -> Result<R, KernelError>,
        requires
            forall|g: RecGuard| g.depth() == old(self).depth() + 1 ==> f.requires((g,)),
        ensures
            *final(self) == *old(self),
            old(self).depth() >= MAX_REC_DEPTH ==> r == Err::<R, KernelError>(
                KernelError::DeepRecursion,
            ),
            old(self).depth() < MAX_REC_DEPTH ==> exists|g: RecGuard|
                g.depth() == old(self).depth() + 1 && f.ensures((g,), r),
    {
        if self.depth >= MAX_REC_DEPTH {
            return Err(KernelError::DeepRecursion);
        }
        let inner = RecGuard { depth: self.depth + 1 };
        let run = move || -> (r: Result<R, KernelError>)
            requires
                f.requires((inner,)),
            ensures
                f.ensures((inner,), r),
            { f(inner) };
        grow_stack(run)
    }
}

impl Clone for RecGuard {
    fn clone(&self) -> (r: RecGuard)
        ensures
            r == *self,
    {
        proof {
            use_type_invariant(self);
        }
        RecGuard { depth: self.depth }
    }
}

/// `stacker::maybe_grow`: runs `f` exactly once, on the current stack when
/// at least `RED_ZONE` bytes remain, else on a fresh `STACK_CHUNK`-byte
/// segment, and returns what `f` returned.
#[verifier::external_body]
fn grow_stack<R, F>(f: F) -> (r: R)
    where
        F: FnOnce() -> R,
    requires
        f.requires(()),
    ensures
        f.ensures((), r),
{
    stacker::maybe_grow(RED_ZONE, STACK_CHUNK, f)
}

} // verus!
