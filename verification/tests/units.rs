use nuke_modules::Cli;
use nuke_modules::Limiter;
use nuke_modules::bytes::bytes_to_human_readable;
use nuke_modules::bytes::u64_to_decimal;
use nuke_modules::threads::resolve_thread_count;

#[test]
fn decimal_rendering() {
    assert_eq!(u64_to_decimal(0), "0");
    assert_eq!(u64_to_decimal(7), "7");
    assert_eq!(u64_to_decimal(10), "10");
    assert_eq!(u64_to_decimal(90671), "90671");
    assert_eq!(u64_to_decimal(u64::MAX), "18446744073709551615");
}

#[test]
fn human_readable_bytes() {
    assert_eq!(bytes_to_human_readable(0), "0B");
    assert_eq!(bytes_to_human_readable(1023), "1023B");
    assert_eq!(bytes_to_human_readable(1024), "1K");
    assert_eq!(bytes_to_human_readable(100_000), "97K");
    assert_eq!(bytes_to_human_readable(5 * 1024 * 1024), "5M");
    assert_eq!(bytes_to_human_readable(3 * 1024 * 1024 * 1024), "3G");
    assert_eq!(bytes_to_human_readable(u64::MAX), "16777215T");
}

#[test]
fn limiter_never_exceeds_capacity() {
    let n: usize = 4;
    let mut lim = Limiter::new(n);
    let mut granted: usize = 0;
    // far more acquire attempts than there are permits
    for _ in 0..100 {
        if lim.available() {
            lim.acquire();
            granted += 1;
        }
        assert!(lim.held_count() <= lim.capacity_count());
    }
    assert_eq!(granted, n);
    assert_eq!(lim.held_count(), n);
    assert!(!lim.available());
    for _ in 0..n {
        lim.release();
    }
    assert_eq!(lim.held_count(), 0);
}

#[test]
fn thread_count_resolution() {
    assert_eq!(resolve_thread_count(Some(12)), 12);
    assert_eq!(resolve_thread_count(Some(1)), 1);
    assert_eq!(resolve_thread_count(Some(0)), 4);
    assert_eq!(resolve_thread_count(None), 4);
}

#[test]
fn cli_defaults() {
    let cli = Cli::new();
    assert!(!cli.yes);
}
