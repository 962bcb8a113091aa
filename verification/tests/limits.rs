use scout::limits::{compute_channel_size, compute_concurrency, concurrency_for_cpus};

#[test]
fn concurrency_is_within_bounds() {
    let c = compute_concurrency();
    assert!(c > 0);
    assert!(c <= 4096);
}

#[test]
fn channel_size_clamps_low() {
    // 10 * 4 = 40, below the 256 floor.
    assert_eq!(compute_channel_size(10), 256);
}

#[test]
fn channel_size_clamps_high() {
    // 5000 * 4 = 20_000, above the 16_384 ceiling.
    assert_eq!(compute_channel_size(5000), 16_384);
}

#[test]
fn channel_size_scales_in_range() {
    assert_eq!(compute_channel_size(100), 400);
}

#[test]
fn concurrency_scales_with_cpus_and_caps() {
    assert_eq!(concurrency_for_cpus(1), 64);
    assert_eq!(concurrency_for_cpus(8), 512);
    assert_eq!(concurrency_for_cpus(64), 4096);
    assert_eq!(concurrency_for_cpus(1000), 4096);
    assert_eq!(concurrency_for_cpus(usize::MAX), 4096);
}

#[test]
fn channel_size_is_monotone_at_the_edges() {
    assert_eq!(compute_channel_size(64), 256);
    assert_eq!(compute_channel_size(65), 260);
    assert_eq!(compute_channel_size(4096), 16_384);
}
