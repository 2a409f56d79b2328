use commitlog::commit::Commit;
use commitlog::payload::{Decoder, Transaction};

/// Takes four bytes per record and reads them as a big-endian integer.
struct FourBytes;

impl Decoder for FourBytes {
    type Record = u32;
    type Error = String;

    fn decode_record<'a>(
        &self,
        _version: u8,
        _offset: u64,
        reader: &mut &'a [u8],
    ) -> Result<u32, String> {
        if reader.len() < 4 {
            return Err(format!("{} bytes left", reader.len()));
        }
        let (head, tail) = reader.split_at(4);
        *reader = tail;
        Ok(u32::from_be_bytes([head[0], head[1], head[2], head[3]]))
    }
}

/// Takes one byte per record, and reports what it was called with.
struct Echo;

impl Decoder for Echo {
    type Record = (u8, u64, u8, usize);
    type Error = (u64, usize);

    fn decode_record<'a>(
        &self,
        version: u8,
        offset: u64,
        reader: &mut &'a [u8],
    ) -> Result<Self::Record, Self::Error> {
        let left = reader.len();
        match reader.split_first() {
            Some((&byte, tail)) if byte != 0xff => {
                *reader = tail;
                Ok((version, offset, byte, left))
            }
            _ => Err((offset, left)),
        }
    }
}

#[test]
fn offset_iteration() {
    let commit = Commit {
        min_tx_offset: 7,
        n: 3,
        records: vec![0, 0, 0, 1, 0, 0, 0, 2, 0, 0, 0, 3],
    };
    let mut txs = commit.into_transactions(0, &FourBytes);
    assert_eq!(txs.next(), Some(Ok(Transaction { offset: 7, txdata: 1 })));
    assert_eq!(txs.next(), Some(Ok(Transaction { offset: 8, txdata: 2 })));
    assert_eq!(txs.next(), Some(Ok(Transaction { offset: 9, txdata: 3 })));
    assert_eq!(txs.next(), None);
    assert_eq!(txs.next(), None);
}

#[test]
fn decoder_sees_version_offset_and_cursor() {
    let commit = Commit {
        min_tx_offset: 100,
        n: 2,
        records: vec![5, 6, 7],
    };
    let mut txs = commit.into_transactions(9, &Echo);
    assert_eq!(
        txs.next(),
        Some(Ok(Transaction {
            offset: 100,
            txdata: (9, 100, 5, 3)
        }))
    );
    assert_eq!(
        txs.next(),
        Some(Ok(Transaction {
            offset: 101,
            txdata: (9, 101, 6, 2)
        }))
    );
    // The commit announces two records: the third byte is never decoded.
    assert_eq!(txs.next(), None);
}

#[test]
fn scan_stops_at_first_decoder_error() {
    let commit = Commit {
        min_tx_offset: 10,
        n: 5,
        records: vec![1, 2, 0xff, 4, 5],
    };
    let mut txs = commit.into_transactions(1, &Echo);
    assert_eq!(
        txs.next(),
        Some(Ok(Transaction {
            offset: 10,
            txdata: (1, 10, 1, 5)
        }))
    );
    assert_eq!(
        txs.next(),
        Some(Ok(Transaction {
            offset: 11,
            txdata: (1, 11, 2, 4)
        }))
    );
    assert_eq!(txs.next(), Some(Err((12, 3))));
    assert_eq!(txs.next(), None);
    assert_eq!(txs.next(), None);
}

#[test]
fn scan_reports_payload_that_ends_early() {
    let commit = Commit {
        min_tx_offset: 0,
        n: 2,
        records: vec![0, 0, 0, 1, 0, 0],
    };
    let mut txs = commit.into_transactions(0, &FourBytes);
    assert_eq!(txs.next(), Some(Ok(Transaction { offset: 0, txdata: 1 })));
    assert_eq!(txs.next(), Some(Err("2 bytes left".to_string())));
    assert_eq!(txs.next(), None);
}

#[test]
fn scan_of_commit_without_records_is_empty() {
    let commit = Commit {
        min_tx_offset: 3,
        n: 0,
        records: vec![1, 2, 3, 4],
    };
    let mut txs = commit.into_transactions(0, &FourBytes);
    assert_eq!(txs.next(), None);
}

#[test]
fn scan_up_to_the_last_offset() {
    let commit = Commit {
        min_tx_offset: u64::MAX - 1,
        n: 1,
        records: vec![0, 0, 0, 1],
    };
    let mut txs = commit.into_transactions(0, &FourBytes);
    assert_eq!(
        txs.next(),
        Some(Ok(Transaction {
            offset: u64::MAX - 1,
            txdata: 1
        }))
    );
    assert_eq!(txs.next(), None);
}
