use commitlog::error::DecodeError;
use commitlog::stream::common::{
    peek_buf, read_exact_step, restore_position, CommitBuf, DidReadExact, ReadProgress,
};
use commitlog::stream::range::RangeFromMaybeToInclusive;
use std::ops::{Bound, RangeBounds};

fn range_of(b: impl RangeBounds<u64>) -> RangeFromMaybeToInclusive {
    RangeFromMaybeToInclusive::from_range_bounds(b.start_bound(), b.end_bound())
}

#[test]
fn range_normalization() {
    assert!(range_of(5..=3).is_empty());

    let from_five = range_of(5..);
    assert!(from_five.contains(&5));
    assert!(from_five.contains(&100));
    assert!(from_five.contains(&u64::MAX));
    assert!(!from_five.contains(&4));
    assert!(!from_five.is_empty());

    let to_ten = range_of(..10);
    assert_eq!(to_ten.start, 0);
    assert_eq!(to_ten.end, Some(9));
}

#[test]
fn range_bounds_are_normalized() {
    let r = range_of(3..7);
    assert_eq!((r.start, r.end), (3, Some(6)));
    let r = range_of(3..=7);
    assert_eq!((r.start, r.end), (3, Some(7)));
    let r = range_of(..);
    assert_eq!((r.start, r.end), (0, None));
    let r = range_of(..=0);
    assert_eq!((r.start, r.end), (0, Some(0)));
    let r = range_of(..0);
    assert_eq!((r.start, r.end), (0, Some(0)));
    let r = range_of((Bound::Excluded(3), Bound::Excluded(9)));
    assert_eq!((r.start, r.end), (4, Some(8)));
    let r = range_of((Bound::Excluded(3), Bound::Unbounded));
    assert_eq!((r.start, r.end), (4, None));
    let r = range_of(9..2);
    assert_eq!((r.start, r.end), (9, Some(9)));
    let r = range_of(5..=3);
    assert_eq!((r.start, r.end), (5, Some(5)));
    let r = range_of(u64::MAX..);
    assert_eq!((r.start, r.end), (u64::MAX, None));
    let r = range_of((Bound::Excluded(u64::MAX - 1), Bound::Included(u64::MAX)));
    assert_eq!((r.start, r.end), (u64::MAX, Some(u64::MAX)));
}

#[test]
fn range_emptiness_and_members() {
    // A range that is not empty has a member.
    let r = range_of(3..=7);
    assert!(!r.is_empty());
    assert!(!r.contains(&2));
    assert!(r.contains(&3));
    assert!(r.contains(&7));
    assert!(!r.contains(&8));
    // A range whose end is its start counts as empty, and still contains
    // that one offset.
    let r = range_of(5..=5);
    assert!(r.is_empty());
    assert!(r.contains(&5));
    assert!(!r.contains(&6));
    // Built by hand, a range may end before it starts.
    let r = RangeFromMaybeToInclusive {
        start: 5,
        end: Some(3),
    };
    assert!(r.is_empty());
    assert!(!r.contains(&3));
    assert!(!r.contains(&4));
    assert!(!r.contains(&5));
}

#[test]
fn range_is_range_bounds() {
    let r = range_of(3..7);
    assert_eq!(r.start_bound(), Bound::Included(&3));
    assert_eq!(r.end_bound(), Bound::Included(&6));
    let r = range_of(3..);
    assert_eq!(r.start_bound(), Bound::Included(&3));
    assert_eq!(r.end_bound(), Bound::Unbounded);
    let again = range_of(r);
    assert_eq!((again.start, again.end), (3, None));
}

#[test]
fn commit_buf_chains_header_and_body() {
    let mut buf = CommitBuf::default();
    assert_eq!(buf.header, [0; 14]);
    assert!(buf.body.is_empty());
    assert_eq!(buf.filled_len(), 14);
    buf.header[0] = 1;
    buf.header[13] = 2;
    buf.body.extend_from_slice(&[3, 4, 5]);
    assert_eq!(buf.filled_len(), 17);
    assert_eq!(
        buf.to_vec(),
        vec![1, 0, 0, 0, 0, 0, 0, 0, 0, 0, 0, 0, 0, 2, 3, 4, 5]
    );
}

#[test]
fn did_read_exact_is_eof() {
    assert!(DidReadExact::Eof.is_eof());
    assert!(!DidReadExact::All.is_eof());
}

#[test]
fn read_step_tells_clean_end_from_truncation() {
    // Nothing read before the end: a clean end.
    assert_eq!(
        read_exact_step(14, 0, 0),
        Ok(ReadProgress::Complete(DidReadExact::Eof))
    );
    // The end after some bytes: truncated.
    assert_eq!(read_exact_step(14, 5, 0), Err(DecodeError::Truncated));
    assert_eq!(read_exact_step(14, 13, 0), Err(DecodeError::Truncated));
    // Some bytes, not yet all.
    assert_eq!(
        read_exact_step(14, 0, 5),
        Ok(ReadProgress::Pending { filled: 5 })
    );
    assert_eq!(
        read_exact_step(14, 5, 8),
        Ok(ReadProgress::Pending { filled: 13 })
    );
    // The last bytes.
    assert_eq!(
        read_exact_step(14, 13, 1),
        Ok(ReadProgress::Complete(DidReadExact::All))
    );
    assert_eq!(
        read_exact_step(14, 0, 14),
        Ok(ReadProgress::Complete(DidReadExact::All))
    );
    // A buffer that is full wants nothing.
    assert_eq!(
        read_exact_step(0, 0, 0),
        Ok(ReadProgress::Complete(DidReadExact::All))
    );
    assert_eq!(
        read_exact_step(14, 14, 0),
        Ok(ReadProgress::Complete(DidReadExact::All))
    );
}

#[test]
fn peek_buf_is_none_at_end() {
    assert_eq!(peek_buf(&[]), None);
    assert_eq!(peek_buf(&[0]), Some(&[0u8][..]));
    assert_eq!(peek_buf(&[1, 2, 3]), Some(&[1u8, 2, 3][..]));
}

#[test]
fn restore_position_unless_at_end() {
    assert_eq!(restore_position(0, 100), Some(0));
    assert_eq!(restore_position(99, 100), Some(99));
    assert_eq!(restore_position(100, 100), None);
    assert_eq!(restore_position(0, 0), None);
    assert_eq!(restore_position(101, 100), Some(101));
}

/// Fills a buffer of `want` bytes from a source that holds `avail` bytes
/// and hands out at most `piece` of them at a time.
fn fill(want: usize, avail: usize, piece: usize) -> Result<DidReadExact, DecodeError> {
    let mut filled = 0;
    let mut left = avail;
    loop {
        let n = piece.min(left).min(want - filled);
        left -= n;
        match read_exact_step(want, filled, n)? {
            ReadProgress::Pending { filled: so_far } => filled = so_far,
            ReadProgress::Complete(how) => return Ok(how),
        }
    }
}

#[test]
fn filling_piece_by_piece() {
    for piece in 1..=20 {
        assert_eq!(fill(14, 0, piece), Ok(DidReadExact::Eof));
        assert_eq!(fill(14, 1, piece), Err(DecodeError::Truncated));
        assert_eq!(fill(14, 13, piece), Err(DecodeError::Truncated));
        assert_eq!(fill(14, 14, piece), Ok(DidReadExact::All));
        assert_eq!(fill(14, 100, piece), Ok(DidReadExact::All));
        assert_eq!(fill(0, 0, piece), Ok(DidReadExact::All));
        assert_eq!(fill(0, 5, piece), Ok(DidReadExact::All));
        assert_eq!(fill(1, 0, piece), Ok(DidReadExact::Eof));
        assert_eq!(fill(1, 1, piece), Ok(DidReadExact::All));
    }
}
