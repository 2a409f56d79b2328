//! Interpreting the payload of a commit as transaction records.
//!
//! The log treats payloads as opaque bytes. What a record is, and how many
//! bytes it takes, is for a [`Decoder`] to say.

use crate::commit::Commit;
use vstd::prelude::*;
use vstd::slice::slice_subrange;

verus! {

/// A record of a commit, together with its offset in the log.
#[derive(Debug, PartialEq)]
pub struct Transaction<T> {
    /// The offset of this transaction relative to the start of the log.
    pub offset: u64,
    /// The transaction data.
    pub txdata: T,
}

/// Whether `rest` is what remains of `input` after a prefix was consumed.
pub open spec fn is_rest_of(rest: Seq<u8>, input: Seq<u8>) -> bool {
    rest.len() <= input.len() && rest =~= input.skip(input.len() - rest.len())
}

/// Decodes the records of a commit.
pub trait Decoder {
    /// The type of records this decoder can decode.
    type Record;

    /// The type of decode errors.
    type Error;

    /// Whether a call of [`Decoder::decode_record`] on `input` may return
    /// `out` and leave `rest` unread.
    ///
    /// A decoder that says nothing of itself admits every outcome.
    open spec fn decodes(
        &self,
        version: u8,
        offset: u64,
        input: Seq<u8>,
        out: Result<Self::Record, Self::Error>,
        rest: Seq<u8>,
    ) -> bool {
        true
    }

    /// Decodes one record from `reader`, and advances `reader` past the
    /// bytes of that record.
    ///
    /// `version` is the format version of the log, `offset` the offset of
    /// the transaction that the record belongs to.
    ///
    /// An implementation may only consume from the front: what it leaves in
    /// `reader` is a suffix of what it found there. The scan relies on this
    /// to find where the next record starts.
    fn decode_record<'a>(&self, version: u8, offset: u64, reader: &mut &'a [u8]) -> (out: Result<
        Self::Record,
        Self::Error,
    >)
        ensures
            self.decodes(version, offset, old(reader)@, out, final(reader)@),
            is_rest_of(final(reader)@, old(reader)@),
    ;
}

/// The state of a scan over the records of a commit.
pub struct TransactionsView {
    /// The format version handed to the decoder.
    pub version: u8,
    /// The offset of the next transaction.
    pub next_offset: u64,
    /// How many transactions are still to come.
    pub remaining: u16,
    /// The bytes that no record has consumed yet.
    pub rest: Seq<u8>,
}

/// A scan over the records of a commit: each step decodes one record where
/// the previous one ended.
///
/// The scan yields as many transactions as the commit announces, and stops
/// for good at the first record that the decoder rejects.
pub struct Transactions<'a, D: Decoder> {
    de: &'a D,
    version: u8,
    records: Vec<u8>,
    pos: usize,
    next_offset: u64,
    remaining: u16,
}

impl TransactionsView {
    /// Whether one step of the scan, with the decoder `de`, may yield `item`
    /// and leave the scan in the state `after`.
    ///
    /// A scan with nothing to come yields nothing and stays as it is. Any
    /// other hands the decoder the next offset and the bytes not yet
    /// consumed, and goes on where the decoder stopped: bytes once consumed
    /// do not come back. A record moves the scan to the next offset; an
    /// error ends it.
    pub open spec fn steps_to<D: Decoder>(
        self,
        de: &D,
        item: Option<Result<Transaction<D::Record>, D::Error>>,
        after: TransactionsView,
    ) -> bool {
        if self.remaining == 0 {
            item is None && after == self
        } else {
            &&& item matches Some(res)
            &&& de.decodes(self.version, self.next_offset, self.rest, record_of(res), after.rest)
            &&& is_rest_of(after.rest, self.rest)
            &&& after.version == self.version
            &&& match res {
                Ok(tx) => {
                    &&& tx.offset == self.next_offset
                    &&& after.next_offset == self.next_offset + 1
                    &&& after.remaining == self.remaining - 1
                },
                Err(_) => after.next_offset == self.next_offset && after.remaining == 0,
            }
        }
    }
}

/// The outcome of decoding one record, without the offset attached to it.
pub open spec fn record_of<R, E>(item: Result<Transaction<R>, E>) -> Result<R, E> {
    match item {
        Ok(tx) => Ok(tx.txdata),
        Err(e) => Err(e),
    }
}

impl<'a, D: Decoder> View for Transactions<'a, D> {
    type V = TransactionsView;

    closed spec fn view(&self) -> TransactionsView {
        TransactionsView {
            version: self.version,
            next_offset: self.next_offset,
            remaining: self.remaining,
            rest: self.records@.skip(self.pos as int),
        }
    }
}

impl<'a, D: Decoder> Transactions<'a, D> {
    #[verifier::type_invariant]
    spec fn well_formed(self) -> bool {
        self.pos <= self.records@.len() && self.next_offset + self.remaining <= u64::MAX
    }

    /// The decoder that interprets the records.
    pub closed spec fn decoder(&self) -> &D {
        self.de
    }

    /// Decodes the next record, at the offset that follows the previous
    /// one's and from the byte where the previous one ended.
    ///
    /// Returns `None` once the scan has yielded every transaction of the
    /// commit, or one error.
    pub fn next(&mut self) -> (item: Option<Result<Transaction<D::Record>, D::Error>>)
        ensures
            final(self).decoder() == old(self).decoder(),
            old(self)@.steps_to(old(self).decoder(), item, final(self)@),
    {
        proof {
            use_type_invariant(&*self);
        }
        if self.remaining == 0 {
            return None;
        }
        let offset = self.next_offset;
        let len = self.records.len();
        let mut cursor: &[u8] = slice_subrange(self.records.as_slice(), self.pos, len);
        let ghost before = cursor@;
        let out = self.de.decode_record(self.version, offset, &mut cursor);
        assert(is_rest_of(cursor@, before));
        let pos = len - cursor.len();
        assert(self.records@.skip(pos as int) =~= cursor@);
        self.pos = pos;
        match out {
            Ok(txdata) => {
                self.remaining = self.remaining - 1;
                self.next_offset = offset + 1;
                Some(Ok(Transaction { offset, txdata }))
            },
            Err(e) => {
                self.remaining = 0;
                Some(Err(e))
            },
        }
    }
}

impl Commit {
    /// Starts a scan over the records of this commit.
    ///
    /// The scan hands the decoder `version`, the offsets of the commit in
    /// ascending order, and the payload from its first byte on.
    pub fn into_transactions<'a, D: Decoder>(self, version: u8, de: &'a D) -> (txs: Transactions<
        'a,
        D,
    >)
        requires
            self.min_tx_offset + self.n <= u64::MAX,
        ensures
            txs.decoder() == de,
            txs@ == (TransactionsView {
                version,
                next_offset: self.min_tx_offset,
                remaining: self.n,
                rest: self.records@,
            }),
    {
        let txs = Transactions {
            de,
            version,
            records: self.records,
            pos: 0,
            next_offset: self.min_tx_offset,
            remaining: self.n,
        };
        assert(txs.records@.skip(0) =~= self.records@);
        txs
    }
}

/// Whether `states` and `items` record successive steps of one scan with
/// the decoder `de`: step `i` leads from `states[i]` to `states[i + 1]` and
/// yields `items[i]`.
pub open spec fn is_scan<D: Decoder>(
    de: &D,
    states: Seq<TransactionsView>,
    items: Seq<Option<Result<Transaction<D::Record>, D::Error>>>,
) -> bool {
    &&& states.len() == items.len() + 1
    &&& forall|i: int|
        0 <= i < items.len() ==> states[i].steps_to(de, #[trigger] items[i], states[i + 1])
}

/// As long as the decoder accepts every record, each step of a scan moves
/// to the next offset and has one transaction less to come, until none is
/// left.
pub proof fn lemma_scan_counts_down<D: Decoder>(
    de: &D,
    states: Seq<TransactionsView>,
    items: Seq<Option<Result<Transaction<D::Record>, D::Error>>>,
    step: int,
)
    requires
        is_scan(de, states, items),
        0 <= step <= items.len(),
        forall|i: int| 0 <= i < step ==> !((#[trigger] items[i]) matches Some(Err(_))),
    ensures
        step <= states[0].remaining ==> {
            &&& states[step].next_offset == states[0].next_offset + step
            &&& states[step].remaining == states[0].remaining - step
        },
        step > states[0].remaining ==> states[step].remaining == 0,
    decreases step,
{
    if step > 0 {
        lemma_scan_counts_down(de, states, items, step - 1);
        let item = items[step - 1];
        assert(states[step - 1].steps_to(de, item, states[step]));
        assert(!(item matches Some(Err(_))));
    }
}

/// As long as the decoder accepts every record, a scan yields one
/// transaction for each record that the commit announces, at offsets that
/// go up by one from the first offset of the commit, and nothing after the
/// last of them.
pub proof fn lemma_scan_yields_each_offset<D: Decoder>(
    de: &D,
    states: Seq<TransactionsView>,
    items: Seq<Option<Result<Transaction<D::Record>, D::Error>>>,
    step: int,
)
    requires
        is_scan(de, states, items),
        0 <= step < items.len(),
        forall|i: int| 0 <= i < step ==> !((#[trigger] items[i]) matches Some(Err(_))),
    ensures
        step < states[0].remaining ==> {
            &&& items[step] is Some
            &&& items[step] matches Some(Ok(tx)) ==> tx.offset == states[0].next_offset + step
        },
        step >= states[0].remaining ==> items[step] is None,
{
    lemma_scan_counts_down(de, states, items, step);
    let item = items[step];
    assert(states[step].steps_to(de, item, states[step + 1]));
}

} // verus!
