use artifact::scan::{start, step, Fetched, Next, Scan, MAX_RETRIES};

#[test]
fn a_block_moves_to_the_next_height() {
    let scan = start();
    assert_eq!(scan, Scan { height: 0, retries: 0 });
    assert_eq!(step(scan, Fetched::Block), (Scan { height: 1, retries: 0 }, Next::Fetch));
    assert_eq!(
        step(Scan { height: 7, retries: 3 }, Fetched::Block),
        (Scan { height: 8, retries: 0 }, Next::Fetch)
    );
}

#[test]
fn the_last_height_ends_the_scan() {
    assert_eq!(
        step(Scan { height: u32::MAX, retries: 2 }, Fetched::Block),
        (Scan { height: u32::MAX, retries: 0 }, Next::Finish)
    );
}

#[test]
fn a_missing_block_ends_the_scan() {
    let scan = Scan { height: 12, retries: 1 };
    assert_eq!(step(scan, Fetched::NoBlock), (scan, Next::Finish));
}

#[test]
fn failures_wait_longer_each_time() {
    let mut scan = Scan { height: 3, retries: 0 };
    let mut waits = Vec::new();
    loop {
        let (after, next) = step(scan, Fetched::Failed);
        match next {
            Next::Retry { seconds } => waits.push(seconds),
            other => {
                assert_eq!(other, Next::GiveUp);
                assert_eq!(after, scan);
                break;
            }
        }
        assert_eq!(after.height, 3);
        assert_eq!(after.retries, scan.retries + 1);
        scan = after;
    }
    assert_eq!(waits, vec![2, 4, 8, 16, 32]);
    assert_eq!(scan.retries, MAX_RETRIES);
    assert_eq!(MAX_RETRIES, 5);
}

#[test]
fn a_block_clears_the_failures() {
    let (scan, _) = step(Scan { height: 0, retries: 4 }, Fetched::Failed);
    assert_eq!(scan.retries, 5);
    let (scan, next) = step(scan, Fetched::Block);
    assert_eq!((scan, next), (Scan { height: 1, retries: 0 }, Next::Fetch));
    assert_eq!(
        step(scan, Fetched::Failed),
        (Scan { height: 1, retries: 1 }, Next::Retry { seconds: 2 })
    );
}
