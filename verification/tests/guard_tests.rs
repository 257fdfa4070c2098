use leanr_kernel::{KernelError, RecGuard};

/// A recursive function that would blow the OS stack unguarded: each
/// frame holds a 4 KiB array, so 1e5 frames take about 400 MiB of stack.
fn deep(g: &mut RecGuard, n: u64) -> Result<u64, KernelError> {
    let pad = [0u8; 4096];
    std::hint::black_box(&pad);
    if n == 0 {
        return Ok(0);
    }
    g.enter(|mut g2| Ok(deep(&mut g2, n - 1)? + 1))
}

fn forever(g: &mut RecGuard) -> Result<(), KernelError> {
    g.enter(|mut g2| forever(&mut g2))
}

#[test]
fn survives_depth_far_beyond_os_stack() {
    let mut g = RecGuard::new();
    assert_eq!(deep(&mut g, 100_000).unwrap(), 100_000);
}

#[test]
fn cap_returns_error_not_panic() {
    let mut g = RecGuard::new();
    assert_eq!(forever(&mut g), Err(KernelError::DeepRecursion));
}

#[test]
fn depth_unwinds_after_success() {
    let mut g = RecGuard::new();
    deep(&mut g, 1000).unwrap();
    // The guard is reusable: a second run from depth 0 succeeds.
    assert_eq!(deep(&mut g, 1000).unwrap(), 1000);
}

#[test]
fn guard_starts_at_zero_and_restores_its_depth() {
    let mut g = RecGuard::new();
    assert_eq!(g.current_depth(), 0);
    let inner = g.enter(|g2| Ok(g2.current_depth())).unwrap();
    assert_eq!(inner, 1);
    assert_eq!(g.current_depth(), 0);
}
