use http_proxy::relay::{Relay, Step};

#[test]
fn limited_relay_counts_cumulative_chunks() {
    let mut r = Relay::with_limit(100);
    assert_eq!(r.next(), Step::Read);
    r.read_done(10);
    assert_eq!(r.next(), Step::Write(10));
    r.write_done(4);
    assert_eq!(r.next(), Step::Write(10));
    r.write_done(4);
    assert_eq!(r.next(), Step::Write(10));
    r.write_done(2);
    // the count grew by 4, then 8, then 10
    assert_eq!(r.next(), Step::Read);
    r.read_done(60);
    r.write_done(60);
    assert_eq!(r.next(), Step::Read);
    r.read_done(10);
    r.write_done(10);
    assert_eq!(r.next(), Step::Read);
    r.read_done(10);
    r.write_done(10);
    assert_eq!(r.next(), Step::Stop);
}

#[test]
fn limited_relay_stops_after_reaching_total() {
    let mut r = Relay::with_limit(22);
    r.read_done(10);
    r.write_done(4);
    r.write_done(4);
    r.write_done(2);
    assert_eq!(r.next(), Step::Stop);
}

#[test]
fn empty_write_goes_back_to_reading() {
    let mut r = Relay::with_limit(5);
    r.read_done(3);
    r.write_done(0);
    assert_eq!(r.next(), Step::Read);
}

#[test]
fn empty_read_ends_relay() {
    let mut r = Relay::with_limit(5);
    r.read_done(0);
    assert_eq!(r.next(), Step::Stop);
    let mut u = Relay::unlimited();
    u.read_done(4);
    u.write_done(4);
    assert_eq!(u.next(), Step::Read);
    u.read_done(0);
    assert_eq!(u.next(), Step::Stop);
}

#[test]
fn zero_limit_reads_nothing() {
    let r = Relay::with_limit(0);
    assert_eq!(r.next(), Step::Stop);
}

#[test]
fn write_fits_guards_count_overflow() {
    let mut r = Relay::with_limit(usize::MAX);
    r.read_done(10);
    assert!(r.write_fits(10));
    assert!(!r.write_fits(11));
    let mut u = Relay::unlimited();
    u.read_done(10);
    assert!(u.write_fits(10));
}
