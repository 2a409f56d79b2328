//! The commit: one durably appended batch of transaction records, and the
//! frame that carries it.
//!
//! ```text
//! offset 0      : u64      min_tx_offset
//! offset 8      : u16      n              (record count)
//! offset 10     : u32      len            (payload byte length)
//! offset 14     : u8[len]  payload        (opaque records)
//! offset 14+len : u32      crc32c         (over bytes 0..14+len)
//! ```
//!
//! All integers are little-endian.

use crate::checksum::{checksum, crc32c_of, CHECKSUM_ALGORITHM_CRC32C, CHECKSUM_LEN};
use crate::error::{DecodeError, EncodeError};
use crate::le::{
    get_u16, get_u32, get_u64, put_u16, put_u32, put_u64, u16_from_le, u16_to_le, u32_from_le,
    u32_to_le, u64_from_le, u64_to_le,
};
use crate::reader::{decode_u32, read_exact, read_exact_rest};
use core::ops::Range;
use vstd::prelude::*;
use vstd::slice::{slice_subrange, slice_to_vec};

verus! {

/// The fixed-size head of a frame.
#[derive(Clone, Copy, Debug, PartialEq, Eq, Structural)]
pub struct Header {
    /// The offset of the first record in the commit.
    pub min_tx_offset: u64,
    /// The number of records in the commit.
    pub n: u16,
    /// The length in bytes of the payload that follows the header.
    pub len: u32,
}

impl Header {
    /// Length in bytes of an encoded header.
    pub const LEN: usize = 8 + 2 + 4;

    /// The 14 bytes that encode this header.
    pub open spec fn encoding(self) -> Seq<u8> {
        u64_to_le(self.min_tx_offset) + u16_to_le(self.n) + u32_to_le(self.len)
    }

    /// The header that the first 14 bytes of `bytes` encode.
    pub open spec fn parse(bytes: Seq<u8>) -> Header
        recommends
            bytes.len() >= 14,
    {
        Header {
            min_tx_offset: u64_from_le(bytes, 0),
            n: u16_from_le(bytes, 8),
            len: u32_from_le(bytes, 10),
        }
    }

    /// Whether every field is zero, which is to say that the encoding of
    /// the header is 14 bytes of zero.
    pub open spec fn is_zero(self) -> bool {
        self.min_tx_offset == 0 && self.n == 0 && self.len == 0
    }

    /// What reading a header from `input` yields.
    ///
    /// `None` stands for the end of the log: either the input is empty, or
    /// its first 14 bytes are all zero, as in a segment that was allocated
    /// ahead of its use. An input that ends inside the header is truncated.
    pub open spec fn decode_spec(input: Seq<u8>) -> Result<Option<Header>, DecodeError> {
        if input.len() == 0 {
            Ok(None)
        } else if input.len() < 14 {
            Err(DecodeError::Truncated)
        } else if Header::parse(input).is_zero() {
            Ok(None)
        } else {
            Ok(Some(Header::parse(input)))
        }
    }

    /// Appends the encoding of this header to `out`.
    pub fn write(&self, out: &mut Vec<u8>)
        ensures
            final(out)@ == old(out)@ + self.encoding(),
    {
        put_u64(out, self.min_tx_offset);
        put_u16(out, self.n);
        put_u32(out, self.len);
        assert(out@ =~= old(out)@ + self.encoding());
    }

    /// Reads 14 bytes from `reader` and interprets them as the header of a
    /// commit.
    ///
    /// Returns `None` if the reader is at its end, or if the bytes read are
    /// all zeroes.
    pub fn decode(reader: &mut &[u8]) -> (r: Result<Option<Header>, DecodeError>)
        ensures
            r == Header::decode_spec(old(reader)@),
            final(reader)@ == read_exact_rest(old(reader)@, 14),
    {
        let bytes = match read_exact(reader, Self::LEN) {
            Err(e) => { return Err(e); },
            Ok(None) => { return Ok(None); },
            Ok(Some(bytes)) => bytes,
        };
        let header = Header {
            min_tx_offset: get_u64(bytes, 0),
            n: get_u16(bytes, 8),
            len: get_u32(bytes, 10),
        };
        assert(header == Header::parse(old(reader)@));
        if header.min_tx_offset == 0 && header.n == 0 && header.len == 0 {
            Ok(None)
        } else {
            Ok(Some(header))
        }
    }
}

/// Entry type of the log.
#[derive(Debug, PartialEq)]
pub struct Commit {
    /// The offset of the first record in this commit.
    ///
    /// The offset starts from zero and is counted from the beginning of the
    /// entire log.
    pub min_tx_offset: u64,
    /// The number of records in the commit.
    pub n: u16,
    /// A buffer of all records in the commit in serialized form.
    ///
    /// Readers must bring their own decoder to interpret this buffer.
    /// `n` indicates how many records the buffer contains.
    pub records: Vec<u8>,
}

/// The mathematical value of a [`Commit`].
pub struct CommitView {
    pub min_tx_offset: u64,
    pub n: u16,
    pub records: Seq<u8>,
}

impl View for Commit {
    type V = CommitView;

    open spec fn view(&self) -> CommitView {
        CommitView { min_tx_offset: self.min_tx_offset, n: self.n, records: self.records@ }
    }
}

impl Default for Commit {
    /// The empty commit at offset zero.
    fn default() -> (commit: Self)
        ensures
            commit@ == (CommitView { min_tx_offset: 0, n: 0, records: Seq::empty() }),
    {
        Commit { min_tx_offset: 0, n: 0, records: Vec::new() }
    }
}

impl CommitView {
    /// Whether the commit may be written: it holds at least one record, and
    /// the length of its payload fits the header's 32-bit field.
    pub open spec fn valid(self) -> bool {
        self.n > 0 && self.records.len() <= u32::MAX
    }

    /// The header of the commit's frame.
    pub open spec fn header(self) -> Header
        recommends
            self.records.len() <= u32::MAX,
    {
        Header { min_tx_offset: self.min_tx_offset, n: self.n, len: self.records.len() as u32 }
    }

    /// The part of the frame that the checksum covers: header, then records.
    pub open spec fn covered(self) -> Seq<u8> {
        self.header().encoding() + self.records
    }

    /// The whole frame: header, records, and the checksum over both.
    pub open spec fn encoding(self) -> Seq<u8> {
        self.covered() + u32_to_le(crc32c_of(self.covered()))
    }
}

/// A frame as it was read, before its checksum is judged.
pub struct Frame<'a> {
    header: Header,
    covered: &'a [u8],
    checksum: u32,
}

/// The mathematical value of a [`Frame`].
pub struct FrameView {
    /// The decoded header.
    pub header: Header,
    /// The bytes that the checksum covers: the header as read, then the
    /// payload.
    pub covered: Seq<u8>,
    /// The checksum that the frame carries.
    pub checksum: u32,
}

impl FrameView {
    /// The commit that the frame carries.
    pub open spec fn commit(self) -> CommitView {
        CommitView {
            min_tx_offset: self.header.min_tx_offset,
            n: self.header.n,
            records: self.covered.skip(14),
        }
    }

    /// The verdict on the frame, given the checksum computed over the
    /// covered bytes.
    pub open spec fn check(self, computed: u32) -> Result<CommitView, DecodeError> {
        if computed != self.checksum {
            Err(DecodeError::ChecksumMismatch)
        } else {
            Ok(self.commit())
        }
    }
}

/// What reading one frame from `input` yields, before its checksum is
/// judged. The payload and the trailing checksum must be there in full.
pub open spec fn frame_spec(input: Seq<u8>) -> Result<Option<FrameView>, DecodeError> {
    match Header::decode_spec(input) {
        Err(e) => Err(e),
        Ok(None) => Ok(None),
        Ok(Some(header)) => if input.len() < 14 + header.len + 4 {
            Err(DecodeError::Truncated)
        } else {
            Ok(
                Some(
                    FrameView {
                        header,
                        covered: input.take(14 + header.len),
                        checksum: u32_from_le(input, 14 + header.len),
                    },
                ),
            )
        },
    }
}

/// What is left of `input` after reading one frame from it.
///
/// A header of all zeroes is consumed, and nothing after it. A frame that is
/// there in full is consumed whether or not its checksum matches. A frame
/// that is cut short drains the input.
pub open spec fn frame_rest(input: Seq<u8>) -> Seq<u8> {
    match Header::decode_spec(input) {
        Ok(Some(header)) => read_exact_rest(input, (14 + header.len + 4) as nat),
        _ => read_exact_rest(input, 14),
    }
}

/// What decoding one commit from `input` yields.
pub open spec fn decode_spec(input: Seq<u8>) -> Result<Option<CommitView>, DecodeError> {
    match frame_spec(input) {
        Err(e) => Err(e),
        Ok(None) => Ok(None),
        Ok(Some(frame)) => match frame.check(crc32c_of(frame.covered)) {
            Err(e) => Err(e),
            Ok(commit) => Ok(Some(commit)),
        },
    }
}

/// The value of the result of [`Frame::parse`].
pub open spec fn frame_result_view(r: Result<Option<Frame<'_>>, DecodeError>) -> Result<
    Option<FrameView>,
    DecodeError,
> {
    match r {
        Err(e) => Err(e),
        Ok(None) => Ok(None),
        Ok(Some(frame)) => Ok(Some(frame@)),
    }
}

/// The value of the result of [`Commit::decode`].
pub open spec fn commit_result_view(r: Result<Option<Commit>, DecodeError>) -> Result<
    Option<CommitView>,
    DecodeError,
> {
    match r {
        Err(e) => Err(e),
        Ok(None) => Ok(None),
        Ok(Some(commit)) => Ok(Some(commit@)),
    }
}

impl<'a> View for Frame<'a> {
    type V = FrameView;

    closed spec fn view(&self) -> FrameView {
        FrameView { header: self.header, covered: self.covered@, checksum: self.checksum }
    }
}

impl<'a> Frame<'a> {
    #[verifier::type_invariant]
    spec fn well_formed(self) -> bool {
        self.covered@.len() == 14 + self.header.len
    }

    /// Reads one frame from `reader`: the header, as many payload bytes as
    /// the header announces, and the four bytes of the checksum.
    ///
    /// Returns `None` where [`Header::decode`] does. The checksum is read
    /// but not compared: see [`Frame::into_commit`].
    pub fn parse(reader: &mut &'a [u8]) -> (r: Result<Option<Frame<'a>>, DecodeError>)
        ensures
            frame_result_view(r) == frame_spec(old(reader)@),
            final(reader)@ == frame_rest(old(reader)@),
    {
        let input: &'a [u8] = *reader;
        let total = input.len();
        let header = match Header::decode(reader) {
            Err(e) => { return Err(e); },
            Ok(None) => { return Ok(None); },
            Ok(Some(header)) => header,
        };
        let len = header.len as usize;
        assert(input@.len() >= 14 && reader@ == input@.skip(14));
        match read_exact(reader, len) {
            Ok(Some(_)) => {
                assert(total >= 14 + len);
            },
            _ => { return Err(DecodeError::Truncated); },
        }
        assert(reader@ =~= input@.skip(14 + len));
        let checksum = match decode_u32(reader) {
            Ok(checksum) => checksum,
            Err(e) => { return Err(e); },
        };
        let covered = slice_subrange(input, 0, Header::LEN + len);
        proof {
            assert(covered@ =~= input@.take(14 + len));
            assert(reader@ =~= input@.skip(14 + len + 4));
        }
        Ok(Some(Frame { header, covered, checksum }))
    }

    /// The decoded header of the frame.
    pub fn header(&self) -> (h: Header)
        ensures
            h == self@.header,
    {
        self.header
    }

    /// The bytes that the checksum covers.
    pub fn covered(&self) -> (bytes: &'a [u8])
        ensures
            bytes@ == self@.covered,
    {
        self.covered
    }

    /// The checksum that the frame carries.
    pub fn checksum(&self) -> (crc: u32)
        ensures
            crc == self@.checksum,
    {
        self.checksum
    }

    /// Judges the frame by `computed`, the checksum of its covered bytes:
    /// yields the commit if the frame carries the same checksum, and fails
    /// with a checksum mismatch if it does not.
    pub fn into_commit(self, computed: u32) -> (r: Result<Commit, DecodeError>)
        ensures
            match r {
                Ok(commit) => self@.check(computed) == Ok::<_, DecodeError>(commit@),
                Err(e) => self@.check(computed) == Err::<CommitView, _>(e),
            },
    {
        proof {
            use_type_invariant(&self);
        }
        if computed != self.checksum {
            return Err(DecodeError::ChecksumMismatch);
        }
        let records = slice_to_vec(
            slice_subrange(self.covered, Header::LEN, self.covered.len()),
        );
        assert(records@ =~= self@.covered.skip(14));
        Ok(Commit { min_tx_offset: self.header.min_tx_offset, n: self.header.n, records })
    }
}

impl Commit {
    /// Number of bytes a frame adds to its payload: the header and the
    /// checksum.
    pub const FRAMING_LEN: usize = Header::LEN + CHECKSUM_LEN;

    /// Tag of the checksum algorithm that seals a frame.
    pub const CHECKSUM_ALGORITHM: u8 = CHECKSUM_ALGORITHM_CRC32C;

    /// The range of transaction offsets contained in this commit.
    pub fn tx_range(&self) -> (r: Range<u64>)
        requires
            self.min_tx_offset + self.n <= u64::MAX,
        ensures
            r.start == self.min_tx_offset,
            r.end == self.min_tx_offset + self.n,
    {
        self.min_tx_offset..self.min_tx_offset + self.n as u64
    }

    /// Length in bytes of this commit when written to the log via
    /// [`Commit::write`].
    pub fn encoded_len(&self) -> (len: usize)
        requires
            14 + 4 + self.records@.len() <= usize::MAX,
        ensures
            len == 14 + 4 + self.records@.len(),
    {
        Self::FRAMING_LEN + self.records.len()
    }

    /// Appends to `out` the part of the frame that the checksum covers: the
    /// header, then the records. Refuses a commit that is not valid, and
    /// leaves `out` as it was.
    pub fn write_covered(&self, out: &mut Vec<u8>) -> (r: Result<(), EncodeError>)
        ensures
            r is Ok <==> self@.valid(),
            r is Ok ==> final(out)@ == old(out)@ + self@.covered(),
            r is Err ==> final(out)@ == old(out)@,
            r == Err::<(), _>(EncodeError::EmptyCommit) <==> self.n == 0,
            r == Err::<(), _>(EncodeError::RecordsTooLong) <==> self.n != 0 && self.records@.len()
                > u32::MAX,
    {
        if self.n == 0 {
            return Err(EncodeError::EmptyCommit);
        }
        if self.records.len() > u32::MAX as usize {
            return Err(EncodeError::RecordsTooLong);
        }
        let header = Header {
            min_tx_offset: self.min_tx_offset,
            n: self.n,
            len: self.records.len() as u32,
        };
        header.write(out);
        out.extend_from_slice(self.records.as_slice());
        assert(out@ =~= old(out)@ + self@.covered());
        Ok(())
    }

    /// Serializes `self` and appends the frame to `out`.
    ///
    /// A commit without records is refused, as is one whose records are
    /// longer than the length field can say; `out` is then left as it was.
    pub fn write(&self, out: &mut Vec<u8>) -> (r: Result<(), EncodeError>)
        ensures
            r is Ok <==> self@.valid(),
            r is Ok ==> final(out)@ == old(out)@ + self@.encoding(),
            r is Err ==> final(out)@ == old(out)@,
            r == Err::<(), _>(EncodeError::EmptyCommit) <==> self.n == 0,
            r == Err::<(), _>(EncodeError::RecordsTooLong) <==> self.n != 0 && self.records@.len()
                > u32::MAX,
    {
        let start = out.len();
        match self.write_covered(out) {
            Err(e) => { return Err(e); },
            Ok(()) => {},
        }
        let crc = checksum(slice_subrange(out.as_slice(), start, out.len()));
        assert(out@.subrange(start as int, out@.len() as int) =~= self@.covered());
        put_u32(out, crc);
        assert(out@ =~= old(out)@ + self@.encoding());
        Ok(())
    }

    /// Attempts to read one commit from `reader`.
    ///
    /// Returns `None` if the reader is at its end, or at a header of all
    /// zeroes. Verifies the checksum of the commit, and fails with
    /// [`DecodeError::ChecksumMismatch`] if it does not match.
    pub fn decode(reader: &mut &[u8]) -> (r: Result<Option<Commit>, DecodeError>)
        ensures
            commit_result_view(r) == decode_spec(old(reader)@),
            final(reader)@ == frame_rest(old(reader)@),
    {
        match Frame::parse(reader) {
            Err(e) => Err(e),
            Ok(None) => Ok(None),
            Ok(Some(frame)) => {
                let computed = checksum(frame.covered());
                match frame.into_commit(computed) {
                    Err(e) => Err(e),
                    Ok(commit) => Ok(Some(commit)),
                }
            },
        }
    }
}

/// Numbers needed to describe a commit without holding its records.
#[derive(Debug, Eq, PartialEq)]
pub struct Metadata {
    /// The range of transaction offsets that the commit covers.
    pub tx_range: Range<u64>,
    /// The length in bytes of the commit's frame.
    pub size_in_bytes: u64,
}

impl Clone for Metadata {
    fn clone(&self) -> (m: Self)
        ensures
            m == *self,
    {
        Metadata {
            tx_range: self.tx_range.start..self.tx_range.end,
            size_in_bytes: self.size_in_bytes,
        }
    }
}

impl CommitView {
    /// The metadata of the commit.
    pub open spec fn metadata(self) -> Metadata
        recommends
            self.min_tx_offset + self.n <= u64::MAX,
            14 + 4 + self.records.len() <= u64::MAX,
    {
        Metadata {
            tx_range: Range {
                start: self.min_tx_offset,
                end: (self.min_tx_offset + self.n) as u64,
            },
            size_in_bytes: (14 + 4 + self.records.len()) as u64,
        }
    }
}

/// What extracting the metadata of one commit from `input` yields.
pub open spec fn extract_spec(input: Seq<u8>) -> Result<Option<Metadata>, DecodeError> {
    match decode_spec(input) {
        Err(e) => Err(e),
        Ok(None) => Ok(None),
        Ok(Some(commit)) => if commit.min_tx_offset + commit.n > u64::MAX {
            Err(DecodeError::OffsetOverflow)
        } else {
            Ok(Some(commit.metadata()))
        },
    }
}

impl Metadata {
    /// Extracts the [`Metadata`] of a single [`Commit`] from the given
    /// reader.
    ///
    /// Note that this decodes the commit due to checksum verification.
    /// Like [`Commit::decode`], returns `None` if the reader is at its end
    /// already. A commit whose offsets run past the largest offset has no
    /// metadata.
    pub fn extract(reader: &mut &[u8]) -> (r: Result<Option<Metadata>, DecodeError>)
        ensures
            r == extract_spec(old(reader)@),
            final(reader)@ == frame_rest(old(reader)@),
    {
        let total = reader.len();
        match Commit::decode(reader) {
            Err(e) => Err(e),
            Ok(None) => Ok(None),
            Ok(Some(commit)) => {
                assert(14 + 4 + commit.records@.len() <= total);
                if commit.n as u64 > u64::MAX - commit.min_tx_offset {
                    Err(DecodeError::OffsetOverflow)
                } else {
                    Ok(Some(Metadata::from_commit(&commit)))
                }
            },
        }
    }

    /// The metadata of `commit`.
    pub fn from_commit(commit: &Commit) -> (m: Metadata)
        requires
            commit.min_tx_offset + commit.n <= u64::MAX,
            14 + 4 + commit.records@.len() <= usize::MAX,
        ensures
            m == commit@.metadata(),
    {
        Metadata { tx_range: commit.tx_range(), size_in_bytes: commit.encoded_len() as u64 }
    }
}

} // verus!
