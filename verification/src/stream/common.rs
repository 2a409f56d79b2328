//! Pieces that the segment readers and writers share.
//!
//! The transport itself is not here: these are the decisions that a reader
//! or writer takes between two calls to it.

use crate::commit::Header;
use crate::error::DecodeError;
use crate::le::all_zero;
use vstd::prelude::*;

verus! {

/// A commit in two parts: the header in an inline array, and whatever
/// follows it in a growable buffer.
///
/// Its value is the two parts chained: the header, then the body.
pub struct CommitBuf {
    /// The bytes of the header.
    pub header: [u8; Header::LEN],
    /// The bytes after the header: the payload, and the checksum once it
    /// was read.
    pub body: Vec<u8>,
}

impl View for CommitBuf {
    type V = Seq<u8>;

    open spec fn view(&self) -> Seq<u8> {
        self.header@ + self.body@
    }
}

impl Default for CommitBuf {
    /// A header of zeroes, and no body.
    fn default() -> (buf: Self)
        ensures
            buf.header@.len() == 14,
            all_zero(buf.header@),
            buf.body@.len() == 0,
    {
        CommitBuf { header: [0u8; Header::LEN], body: Vec::new() }
    }
}

impl CommitBuf {
    /// Number of bytes in the buffer, header included.
    pub fn filled_len(&self) -> (len: usize)
        requires
            14 + self.body@.len() <= usize::MAX,
        ensures
            len == self@.len(),
    {
        self.header.len() + self.body.len()
    }

    /// The header and the body as one run of bytes.
    pub fn to_vec(&self) -> (bytes: Vec<u8>)
        ensures
            bytes@ == self@,
    {
        let mut bytes: Vec<u8> = Vec::new();
        bytes.extend_from_slice(self.header.as_slice());
        bytes.extend_from_slice(self.body.as_slice());
        assert(bytes@ =~= self@);
        bytes
    }
}

/// How an attempt to fill a buffer ended.
#[derive(Clone, Copy, Debug, PartialEq, Eq, Structural)]
pub enum DidReadExact {
    /// The buffer was filled.
    All,
    /// The source was at its end before the first byte.
    Eof,
}

impl DidReadExact {
    /// Whether the source was at its end.
    pub fn is_eof(&self) -> (b: bool)
        ensures
            b == (*self == DidReadExact::Eof),
    {
        matches!(self, Self::Eof)
    }
}

/// Where an attempt to fill a buffer stands after one read.
#[derive(Clone, Copy, Debug, PartialEq, Eq, Structural)]
pub enum ReadProgress {
    /// The buffer holds `filled` bytes and wants more.
    Pending { filled: usize },
    /// The attempt is over.
    Complete(DidReadExact),
}

/// The step that [`read_exact_step`] takes.
///
/// A buffer that is full is complete. Otherwise a read of no bytes means
/// that the source is at its end: cleanly if the buffer is still empty, in
/// the middle of the data if it is not.
pub open spec fn read_exact_step_spec(want: nat, filled: nat, n: nat) -> Result<
    ReadProgress,
    DecodeError,
> {
    if filled == want {
        Ok(ReadProgress::Complete(DidReadExact::All))
    } else if n == 0 {
        if filled == 0 {
            Ok(ReadProgress::Complete(DidReadExact::Eof))
        } else {
            Err(DecodeError::Truncated)
        }
    } else if filled + n == want {
        Ok(ReadProgress::Complete(DidReadExact::All))
    } else {
        Ok(ReadProgress::Pending { filled: (filled + n) as usize })
    }
}

/// Decides how to go on filling a buffer of `want` bytes, of which `filled`
/// were there before the source handed out `n` more.
pub fn read_exact_step(want: usize, filled: usize, n: usize) -> (r: Result<
    ReadProgress,
    DecodeError,
>)
    requires
        filled <= want,
        n <= want - filled,
    ensures
        r == read_exact_step_spec(want as nat, filled as nat, n as nat),
{
    if filled == want {
        Ok(ReadProgress::Complete(DidReadExact::All))
    } else if n == 0 {
        if filled == 0 {
            Ok(ReadProgress::Complete(DidReadExact::Eof))
        } else {
            Err(DecodeError::Truncated)
        }
    } else if n == want - filled {
        Ok(ReadProgress::Complete(DidReadExact::All))
    } else {
        Ok(ReadProgress::Pending { filled: filled + n })
    }
}

/// The number of bytes that the reads of sizes `reads` hand out together.
pub open spec fn total_read(reads: Seq<nat>) -> nat
    decreases reads.len(),
{
    if reads.len() == 0 {
        0
    } else {
        reads[0] + total_read(reads.skip(1))
    }
}

/// How an attempt to fill a buffer of `want` bytes ends, if `filled` bytes
/// are there and the source then hands out `reads[0]` bytes, `reads[1]`
/// bytes and so on, each read being judged by [`read_exact_step`]. `None`
/// means that the attempt is not over after the last of the reads.
pub open spec fn fill_outcome(want: nat, filled: nat, reads: Seq<nat>) -> Option<
    Result<DidReadExact, DecodeError>,
>
    decreases reads.len(),
{
    if reads.len() == 0 {
        None
    } else {
        match read_exact_step_spec(want, filled, reads[0]) {
            Ok(ReadProgress::Pending { filled: so_far }) => fill_outcome(
                want,
                so_far as nat,
                reads.skip(1),
            ),
            Ok(ReadProgress::Complete(how)) => Some(Ok(how)),
            Err(e) => Some(Err(e)),
        }
    }
}

/// Filling a buffer read by read ends as the source allows: with the
/// buffer full if the source holds enough bytes, at a clean end if it holds
/// none, and in a truncation if it holds some, but too few.
///
/// The reads are those of a source that hands out bytes until the buffer is
/// full or the source is at its end: every read but the last yields some
/// bytes, and the last either fills the buffer or yields none.
pub proof fn lemma_fill_outcome(want: nat, filled: nat, reads: Seq<nat>)
    requires
        want <= usize::MAX,
        reads.len() > 0,
        forall|i: int| 0 <= i < reads.len() - 1 ==> reads[i] > 0,
        filled + total_read(reads) <= want,
        reads.last() == 0 || filled + total_read(reads) == want,
    ensures
        fill_outcome(want, filled, reads) == Some(
            if filled + total_read(reads) == want {
                Ok::<_, DecodeError>(DidReadExact::All)
            } else if filled + total_read(reads) == 0 {
                Ok(DidReadExact::Eof)
            } else {
                Err(DecodeError::Truncated)
            },
        ),
    decreases reads.len(),
{
    let n = reads[0];
    let rest = reads.skip(1);
    if filled < want && n > 0 && filled + n < want {
        assert(rest.len() > 0) by {
            if rest.len() == 0 {
                assert(total_read(rest) == 0);
            }
        }
        assert(forall|i: int| 0 <= i < rest.len() ==> rest[i] == reads[i + 1]);
        assert(rest.last() == reads.last());
        lemma_fill_outcome(want, filled + n, rest);
    } else if filled < want && n == 0 {
        assert(reads.len() == 1);
        assert(total_read(rest) == 0);
    }
}

/// Looks at what a buffered source holds after it was asked to fill its
/// buffer: `None` means that the source is at its end.
pub fn peek_buf<'a>(buf: &'a [u8]) -> (r: Option<&'a [u8]>)
    ensures
        r is None <==> buf@.len() == 0,
        r matches Some(bytes) ==> bytes@ == buf@,
{
    if buf.is_empty() {
        None
    } else {
        Some(buf)
    }
}

/// Where to move the cursor of a segment after its length was measured by
/// seeking to the end: back to `old_pos`, unless the cursor was at the end
/// already.
pub fn restore_position(old_pos: u64, len: u64) -> (r: Option<u64>)
    ensures
        r == if old_pos != len { Some(old_pos) } else { None },
{
    if old_pos != len {
        Some(old_pos)
    } else {
        None
    }
}

} // verus!
