use block_sampler::format::generate_csv_from_timestamped_data;
use block_sampler::scan::{resolve_end, steps, target_block, Action, BlockRef, Sampler, ScanError};
use block_sampler::value::{DecodedValue, Sample};

/// Drives a scan against a fixed ledger: each block answers its own number,
/// except the blocks in `reverting`. Returns the result and the blocks called.
fn drive(
    start: u64,
    end: BlockRef,
    interval: u64,
    ignore_reverts: bool,
    head: Result<Option<u64>, ()>,
    reverting: &[u64],
) -> (Result<Vec<Sample>, ScanError>, Vec<u64>, usize) {
    let mut called = Vec::new();
    let mut head_queries = 0usize;
    let mut s = match Sampler::new(start, end, interval, ignore_reverts) {
        Ok(s) => s,
        Err(e) => return (Err(e), called, head_queries),
    };
    loop {
        match s.next_action() {
            Action::FetchLatest => {
                head_queries += 1;
                s.on_latest(head);
            }
            Action::Call(b) => {
                called.push(b);
                if reverting.contains(&b) {
                    s.on_call(None);
                } else {
                    s.on_call(Some(vec![DecodedValue::Uint([b, 0, 0, 0], 256)]));
                }
            }
            Action::Finish => return (s.finish(), called, head_queries),
        }
    }
}

fn blocks(r: &Result<Vec<Sample>, ScanError>) -> Vec<u64> {
    r.as_ref().unwrap().iter().map(|s| s.0).collect()
}

#[test]
fn full_scan_on_schedule() {
    let (r, called, _) = drive(1000, BlockRef::Number(1500), 100, true, Err(()), &[]);
    assert_eq!(called, vec![1000, 1100, 1200, 1300, 1400]);
    assert_eq!(blocks(&r), vec![1000, 1100, 1200, 1300, 1400]);
}

#[test]
fn partial_last_interval_is_dropped() {
    let (r, called, _) = drive(0, BlockRef::Number(250), 100, true, Err(()), &[]);
    assert_eq!(called, vec![0, 100]);
    assert_eq!(blocks(&r), vec![0, 100]);
}

#[test]
fn short_range_is_empty() {
    let (r, called, _) = drive(100, BlockRef::Number(199), 100, false, Err(()), &[]);
    assert!(called.is_empty());
    assert_eq!(r.unwrap().len(), 0);
    let (r, called, _) = drive(500, BlockRef::Number(100), 10, false, Err(()), &[]);
    assert!(called.is_empty());
    assert_eq!(r.unwrap().len(), 0);
}

#[test]
fn revert_aborts_without_ignore() {
    let (r, called, _) = drive(0, BlockRef::Number(50), 10, false, Err(()), &[20]);
    assert_eq!(r, Err(ScanError::CallReverted));
    assert_eq!(called, vec![0, 10, 20]);
}

#[test]
fn revert_skipped_with_ignore() {
    let (r, called, _) = drive(0, BlockRef::Number(50), 10, true, Err(()), &[20]);
    assert_eq!(called, vec![0, 10, 20, 30, 40]);
    assert_eq!(blocks(&r), vec![0, 10, 30, 40]);
}

#[test]
fn zero_interval_rejected_before_any_query() {
    let (r, called, heads) = drive(0, BlockRef::Latest, 0, true, Ok(Some(100)), &[]);
    assert_eq!(r, Err(ScanError::InvalidInterval));
    assert!(called.is_empty());
    assert_eq!(heads, 0);
}

#[test]
fn unsupported_tags_rejected() {
    for tag in [BlockRef::Safe, BlockRef::Finalized, BlockRef::Pending, BlockRef::Earliest] {
        let (r, called, heads) = drive(0, tag, 5, true, Ok(Some(100)), &[]);
        assert_eq!(r, Err(ScanError::UnsupportedRangeSpec));
        assert!(called.is_empty());
        assert_eq!(heads, 0);
    }
}

#[test]
fn latest_resolves_through_head() {
    let (r, called, heads) = drive(10, BlockRef::Latest, 20, true, Ok(Some(70)), &[]);
    assert_eq!(heads, 1);
    assert_eq!(called, vec![10, 30, 50]);
    assert_eq!(blocks(&r), vec![10, 30, 50]);
}

#[test]
fn latest_missing_or_unreachable() {
    let (r, _, _) = drive(10, BlockRef::Latest, 20, true, Ok(None), &[]);
    assert_eq!(r, Err(ScanError::LatestBlockUnavailable));
    let (r, _, _) = drive(10, BlockRef::Latest, 20, true, Err(()), &[]);
    assert_eq!(r, Err(ScanError::TransportError));
}

#[test]
fn repeated_scan_renders_identically() {
    let (a, _, _) = drive(100, BlockRef::Number(400), 100, true, Err(()), &[200]);
    let (b, _, _) = drive(100, BlockRef::Number(400), 100, true, Err(()), &[200]);
    let ta = generate_csv_from_timestamped_data(a.unwrap());
    let tb = generate_csv_from_timestamped_data(b.unwrap());
    assert_eq!(ta, tb);
    assert_eq!(ta, "100,100\n300,300\n");
}

#[test]
fn scan_then_render_fixture() {
    let mut s = Sampler::new(100, BlockRef::Number(300), 100, false).unwrap();
    let answers = [42u64, 43u64];
    let mut k = 0usize;
    while let Action::Call(_) = s.next_action() {
        s.on_call(Some(vec![DecodedValue::Uint([answers[k], 0, 0, 0], 256)]));
        k += 1;
    }
    let text = generate_csv_from_timestamped_data(s.finish().unwrap());
    assert_eq!(text, "100,42\n200,43\n");
}

#[test]
fn helpers_compute_schedule() {
    assert_eq!(steps(28000519, 28473032, 2500), 189);
    assert_eq!(steps(10, 5, 1), 0);
    assert_eq!(target_block(1000, 2000, 250, 3), 1750);
    assert_eq!(resolve_end(&BlockRef::Number(9), Err(())), Ok(9));
    assert_eq!(resolve_end(&BlockRef::Latest, Ok(Some(12))), Ok(12));
    assert_eq!(resolve_end(&BlockRef::Pending, Ok(Some(12))), Err(ScanError::UnsupportedRangeSpec));
}
