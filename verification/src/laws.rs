//! What holds of the frame codec as a whole.
//!
//! The codec's functions each promise to compute one of the specification
//! functions of [`crate::commit`]. The lemmas here relate those functions to
//! each other.

use crate::checksum::crc32c_of;
use crate::commit::{
    decode_spec, extract_spec, frame_rest, frame_spec, CommitView, FrameView, Header,
};
use crate::error::DecodeError;
use crate::le::{
    all_zero, lemma_u16_bytes_roundtrip, lemma_u16_roundtrip, lemma_u32_bytes_roundtrip,
    lemma_u32_roundtrip, lemma_u64_bytes_roundtrip, lemma_u64_roundtrip, u16_from_le, u16_to_le,
    u32_from_le, u32_to_le, u64_from_le, u64_to_le,
};
use vstd::prelude::*;

verus! {

/// A header is 14 bytes long, and parsing its encoding gives it back,
/// whatever follows the encoding.
pub proof fn lemma_header_roundtrip(header: Header, rest: Seq<u8>)
    ensures
        header.encoding().len() == 14,
        Header::parse(header.encoding() + rest) == header,
{
    lemma_u64_roundtrip(header.min_tx_offset);
    lemma_u16_roundtrip(header.n);
    lemma_u32_roundtrip(header.len);
    let bytes = header.encoding() + rest;
    let offset = u64_to_le(header.min_tx_offset);
    let n = u16_to_le(header.n);
    let len = u32_to_le(header.len);
    assert(forall|i: int| 0 <= i < 8 ==> bytes[i] == offset[i]);
    assert(forall|i: int| 0 <= i < 2 ==> bytes[8 + i] == n[i]);
    assert(forall|i: int| 0 <= i < 4 ==> bytes[10 + i] == len[i]);
    assert(u64_from_le(bytes, 0) == u64_from_le(offset, 0));
    assert(u16_from_le(bytes, 8) == u16_from_le(n, 0));
    assert(u32_from_le(bytes, 10) == u32_from_le(len, 0));
}

/// Encoding the header that bytes parse to gives the first 14 of those
/// bytes back.
pub proof fn lemma_header_bytes_roundtrip(bytes: Seq<u8>)
    requires
        bytes.len() >= 14,
    ensures
        Header::parse(bytes).encoding() == bytes.take(14),
{
    lemma_u64_bytes_roundtrip(bytes, 0);
    lemma_u16_bytes_roundtrip(bytes, 8);
    lemma_u32_bytes_roundtrip(bytes, 10);
    assert(bytes.subrange(0, 8) + bytes.subrange(8, 10) + bytes.subrange(10, 14) =~= bytes.take(
        14,
    ));
}

/// The fields of a header are all zero exactly if the 14 bytes of its
/// encoding are.
pub proof fn lemma_zero_header(header: Header)
    ensures
        header.is_zero() <==> all_zero(header.encoding()),
{
    let bytes = header.encoding();
    lemma_header_roundtrip(header, Seq::empty());
    assert(bytes + Seq::<u8>::empty() =~= bytes);
    if all_zero(bytes) {
        assert(forall|i: int| 0 <= i < 14 ==> bytes[i] == 0);
        assert(Header::parse(bytes).is_zero());
    }
}

/// The header at the start of `input` has all fields zero exactly if the
/// first 14 bytes of `input` are zero.
pub proof fn lemma_zero_header_bytes(input: Seq<u8>)
    requires
        input.len() >= 14,
    ensures
        Header::parse(input).is_zero() <==> all_zero(input.take(14)),
{
    lemma_header_bytes_roundtrip(input);
    lemma_zero_header(Header::parse(input));
}

/// The frame of a commit is 18 bytes longer than its records.
pub proof fn lemma_encoding_len(commit: CommitView)
    ensures
        commit.covered().len() == 14 + commit.records.len(),
        commit.encoding().len() == 14 + 4 + commit.records.len(),
{
    lemma_header_roundtrip(commit.header(), Seq::empty());
}

/// Reading a frame from the encoding of a valid commit, whatever follows
/// it, finds the commit's header, its covered bytes and its checksum, and
/// leaves what follows.
pub proof fn lemma_frame_of_encoding(commit: CommitView, rest: Seq<u8>)
    requires
        commit.valid(),
    ensures
        frame_spec(commit.encoding() + rest) == Ok::<_, DecodeError>(
            Some(
                FrameView {
                    header: commit.header(),
                    covered: commit.covered(),
                    checksum: crc32c_of(commit.covered()),
                },
            ),
        ),
        frame_rest(commit.encoding() + rest) == rest,
{
    let header = commit.header();
    let crc = crc32c_of(commit.covered());
    let input = commit.encoding() + rest;
    let len = commit.records.len() as int;
    lemma_encoding_len(commit);
    lemma_u32_roundtrip(crc);
    let tail = commit.records + u32_to_le(crc) + rest;
    assert(input =~= header.encoding() + tail);
    lemma_header_roundtrip(header, tail);
    assert(Header::decode_spec(input) == Ok::<_, DecodeError>(Some(header)));
    assert(input.take(14 + len) =~= commit.covered());
    assert(forall|i: int| 0 <= i < 4 ==> input[14 + len + i] == u32_to_le(crc)[i]);
    assert(u32_from_le(input, 14 + len) == u32_from_le(u32_to_le(crc), 0));
    assert(input.skip(14 + len + 4) =~= rest);
}

/// Decoding the encoding of a valid commit yields that commit.
pub proof fn lemma_decode_encode(commit: CommitView)
    requires
        commit.valid(),
    ensures
        decode_spec(commit.encoding()) == Ok::<_, DecodeError>(Some(commit)),
        frame_rest(commit.encoding()) == Seq::<u8>::empty(),
{
    lemma_decode_encode_then(commit, Seq::empty());
    assert(commit.encoding() + Seq::<u8>::empty() =~= commit.encoding());
}

/// Decoding the encoding of a valid commit yields that commit and leaves
/// untouched whatever follows the frame.
pub proof fn lemma_decode_encode_then(commit: CommitView, rest: Seq<u8>)
    requires
        commit.valid(),
    ensures
        decode_spec(commit.encoding() + rest) == Ok::<_, DecodeError>(Some(commit)),
        frame_rest(commit.encoding() + rest) == rest,
{
    lemma_frame_of_encoding(commit, rest);
    lemma_encoding_len(commit);
    assert(commit.covered().skip(14) =~= commit.records);
}

/// Extracting the metadata from the encoding of a valid commit yields the
/// offsets that the commit covers and the length of its frame.
pub proof fn lemma_extract_encode(commit: CommitView)
    requires
        commit.valid(),
        commit.min_tx_offset + commit.n <= u64::MAX,
    ensures
        extract_spec(commit.encoding()) == Ok::<_, DecodeError>(Some(commit.metadata())),
        commit.metadata().tx_range.start == commit.min_tx_offset,
        commit.metadata().tx_range.end == commit.min_tx_offset + commit.n,
        commit.metadata().size_in_bytes == commit.encoding().len(),
{
    lemma_decode_encode(commit);
    lemma_encoding_len(commit);
}

/// The frame of the empty commit at offset zero starts with a header of all
/// zeroes, and so it decodes to nothing. This is why a commit without
/// records is not valid.
pub proof fn lemma_empty_commit_is_lost()
    ensures
        decode_spec(
            (CommitView { min_tx_offset: 0, n: 0, records: Seq::empty() }).encoding(),
        ) == Ok::<Option<CommitView>, DecodeError>(None),
{
    let commit = CommitView { min_tx_offset: 0, n: 0, records: Seq::empty() };
    lemma_encoding_len(commit);
    lemma_header_roundtrip(
        commit.header(),
        commit.records + u32_to_le(crc32c_of(commit.covered())),
    );
    assert(commit.encoding() =~= commit.header().encoding() + (commit.records + u32_to_le(
        crc32c_of(commit.covered()),
    )));
}

/// Decoding 14 or more bytes that are all zero yields nothing: such bytes
/// are the unused part of a segment that was allocated ahead of its use.
pub proof fn lemma_decode_zeroes(input: Seq<u8>)
    requires
        input.len() >= 14,
        all_zero(input),
    ensures
        Header::decode_spec(input) == Ok::<Option<Header>, DecodeError>(None),
        decode_spec(input) == Ok::<Option<CommitView>, DecodeError>(None),
{
    lemma_decode_zero_header(input);
}

/// A header of all zeroes ends the log, whatever follows it, and only the
/// header is consumed.
pub proof fn lemma_decode_zero_header(input: Seq<u8>)
    requires
        input.len() >= 14,
        all_zero(input.take(14)),
    ensures
        Header::decode_spec(input) == Ok::<Option<Header>, DecodeError>(None),
        decode_spec(input) == Ok::<Option<CommitView>, DecodeError>(None),
        frame_rest(input) == input.skip(14),
{
    lemma_zero_header_bytes(input);
}

/// Decoding an empty input yields nothing, and an input that ends inside
/// the header is truncated.
pub proof fn lemma_decode_short(input: Seq<u8>)
    requires
        input.len() < 14,
    ensures
        input.len() == 0 ==> decode_spec(input) == Ok::<Option<CommitView>, DecodeError>(None),
        input.len() > 0 ==> decode_spec(input) == Err::<Option<CommitView>, _>(
            DecodeError::Truncated,
        ),
        frame_rest(input) == Seq::<u8>::empty(),
{
}

/// Decoding the encodings of two valid commits, written back to back and
/// followed by zeroes, yields the first commit, then the second, then
/// nothing.
///
/// The zeroes must make up a whole header, or be absent: fewer than 14 are
/// a truncated header.
pub proof fn lemma_decode_stream(first: CommitView, second: CommitView, fill: Seq<u8>)
    requires
        first.valid(),
        second.valid(),
        all_zero(fill),
        fill.len() == 0 || fill.len() >= 14,
    ensures
        ({
            let input = first.encoding() + second.encoding() + fill;
            let after_first = frame_rest(input);
            let after_second = frame_rest(after_first);
            &&& decode_spec(input) == Ok::<_, DecodeError>(Some(first))
            &&& decode_spec(after_first) == Ok::<_, DecodeError>(Some(second))
            &&& decode_spec(after_second) == Ok::<Option<CommitView>, DecodeError>(None)
            &&& after_first == second.encoding() + fill
            &&& after_second == fill
        }),
{
    let input = first.encoding() + second.encoding() + fill;
    assert(input =~= first.encoding() + (second.encoding() + fill));
    lemma_decode_encode_then(first, second.encoding() + fill);
    lemma_decode_encode_then(second, fill);
    if fill.len() >= 14 {
        lemma_decode_zeroes(fill);
    } else {
        lemma_decode_short(fill);
    }
}

/// The encodings of `commits`, one after the other: a log.
pub open spec fn log_encoding(commits: Seq<CommitView>) -> Seq<u8>
    decreases commits.len(),
{
    if commits.len() == 0 {
        Seq::empty()
    } else {
        commits[0].encoding() + log_encoding(commits.skip(1))
    }
}

/// What is left of `input` after reading `count` frames from it.
pub open spec fn rest_after(input: Seq<u8>, count: nat) -> Seq<u8>
    decreases count,
{
    if count == 0 {
        input
    } else {
        rest_after(frame_rest(input), (count - 1) as nat)
    }
}

/// Decoding a log of valid commits frame by frame yields the commits in
/// the order in which they were written, and then leaves what follows the
/// last of them.
///
/// Nothing is asked of what follows: zeroes, a frame cut short by a crash
/// or bytes that were never written do not harm the commits before them.
pub proof fn lemma_decode_log(commits: Seq<CommitView>, tail: Seq<u8>, index: int)
    requires
        forall|i: int| 0 <= i < commits.len() ==> (#[trigger] commits[i]).valid(),
        0 <= index < commits.len(),
    ensures
        decode_spec(rest_after(log_encoding(commits) + tail, index as nat)) == Ok::<
            _,
            DecodeError,
        >(Some(commits[index])),
        rest_after(log_encoding(commits) + tail, commits.len()) == tail,
    decreases commits.len(),
{
    let first = commits[0];
    let others = commits.skip(1);
    let input = log_encoding(commits) + tail;
    let after_first = log_encoding(others) + tail;
    assert(input =~= first.encoding() + after_first);
    lemma_decode_encode_then(first, after_first);
    assert(forall|i: int| 0 <= i < others.len() ==> (#[trigger] others[i]) == commits[i + 1]);
    if others.len() == 0 {
        assert(after_first =~= tail);
        assert(rest_after(tail, 0) == tail);
    } else if index == 0 {
        lemma_decode_log(others, tail, 0);
    } else {
        lemma_decode_log(others, tail, index - 1);
    }
    assert(rest_after(input, commits.len()) == rest_after(after_first, others.len()));
    if index > 0 {
        assert(rest_after(input, index as nat) == rest_after(after_first, (index - 1) as nat));
    }
}

/// An input that decodes to a commit starts with the encoding of that
/// commit: the decoder accepts no frame but one that carries the checksum
/// of its own header and records.
pub proof fn lemma_decoded_is_encoded(input: Seq<u8>, commit: CommitView)
    requires
        decode_spec(input) == Ok::<_, DecodeError>(Some(commit)),
    ensures
        commit.records.len() <= u32::MAX,
        commit.encoding().len() <= input.len(),
        input.take(commit.encoding().len() as int) == commit.encoding(),
        frame_rest(input) == input.skip(commit.encoding().len() as int),
{
    let frame = frame_spec(input)->Ok_0->Some_0;
    let header = frame.header;
    assert(Header::decode_spec(input) == Ok::<_, DecodeError>(Some(header)));
    assert(header == Header::parse(input));
    let len = header.len as int;
    assert(frame.covered == input.take(14 + len));
    assert(commit.records == frame.covered.skip(14));
    assert(commit.header() == header);
    lemma_header_bytes_roundtrip(input);
    assert(commit.covered() =~= frame.covered);
    lemma_encoding_len(commit);
    lemma_u32_bytes_roundtrip(input, 14 + len);
    assert(commit.encoding() =~= input.take(14 + len + 4));
}

/// A frame that differs from the encoding of a commit, and is as long,
/// does not decode to that commit.
pub proof fn lemma_corrupt_frame_differs(commit: CommitView, frame: Seq<u8>)
    requires
        frame.len() == commit.encoding().len(),
        frame != commit.encoding(),
    ensures
        decode_spec(frame) != Ok::<_, DecodeError>(Some(commit)),
{
    if decode_spec(frame) == Ok::<_, DecodeError>(Some(commit)) {
        lemma_decoded_is_encoded(frame, commit);
        assert(frame.take(frame.len() as int) =~= frame);
    }
}

/// A frame that differs from the encoding of a valid commit in nothing but
/// the stored checksum is rejected for its checksum.
pub proof fn lemma_corrupt_checksum(commit: CommitView, frame: Seq<u8>)
    requires
        commit.valid(),
        frame.len() == commit.encoding().len(),
        frame.take(commit.covered().len() as int) == commit.covered(),
        frame != commit.encoding(),
    ensures
        decode_spec(frame) == Err::<Option<CommitView>, _>(DecodeError::ChecksumMismatch),
{
    let len = commit.records.len() as int;
    let encoding = commit.encoding();
    let crc = crc32c_of(commit.covered());
    lemma_encoding_len(commit);
    lemma_frame_of_encoding(commit, Seq::empty());
    assert(encoding + Seq::<u8>::empty() =~= encoding);
    assert(forall|i: int| 0 <= i < 14 ==> frame[i] == frame.take(14 + len)[i]);
    assert(forall|i: int| 0 <= i < 14 ==> encoding[i] == commit.covered()[i]);
    assert(Header::parse(frame) == Header::parse(encoding));
    assert(Header::decode_spec(frame) == Header::decode_spec(encoding));
    assert(u32_from_le(frame, 14 + len) != crc) by {
        if u32_from_le(frame, 14 + len) == crc {
            lemma_u32_bytes_roundtrip(frame, 14 + len);
            assert(frame =~= frame.take(14 + len) + frame.subrange(14 + len, 14 + len + 4));
            assert(frame =~= encoding);
        }
    }
}

/// A frame that differs from the encoding of a valid commit only in the
/// offset, the record count or the records is rejected for its checksum
/// exactly if the checksum tells the damaged bytes from the intact ones.
/// If it does not, the damaged commit is accepted.
///
/// The frame must still start with a header: one whose fields are all zero
/// ends the log instead.
pub proof fn lemma_corrupt_covered(commit: CommitView, frame: Seq<u8>)
    requires
        commit.valid(),
        frame.len() == commit.encoding().len(),
        forall|i: int| 10 <= i < 14 ==> frame[i] == commit.encoding()[i],
        forall|i: int|
            commit.covered().len() <= i < frame.len() ==> frame[i] == commit.encoding()[i],
        !Header::parse(frame).is_zero(),
    ensures
        ({
            let damaged = frame.take(commit.covered().len() as int);
            let accepted = CommitView {
                min_tx_offset: Header::parse(frame).min_tx_offset,
                n: Header::parse(frame).n,
                records: damaged.skip(14),
            };
            decode_spec(frame) == if crc32c_of(damaged) != crc32c_of(commit.covered()) {
                Err::<Option<CommitView>, _>(DecodeError::ChecksumMismatch)
            } else {
                Ok(Some(accepted))
            }
        }),
{
    let len = commit.records.len() as int;
    let encoding = commit.encoding();
    let crc = crc32c_of(commit.covered());
    lemma_encoding_len(commit);
    lemma_frame_of_encoding(commit, Seq::empty());
    assert(encoding + Seq::<u8>::empty() =~= encoding);
    assert(Header::parse(encoding) == commit.header());
    assert(u32_from_le(frame, 10) == u32_from_le(encoding, 10));
    assert(Header::parse(frame).len == len);
    assert(frame[14 + len] == encoding[14 + len]);
    assert(frame[14 + len + 1] == encoding[14 + len + 1]);
    assert(frame[14 + len + 2] == encoding[14 + len + 2]);
    assert(frame[14 + len + 3] == encoding[14 + len + 3]);
    assert(u32_from_le(frame, 14 + len) == u32_from_le(encoding, 14 + len));
}

/// `bytes` with one bit of the byte at `index` inverted.
pub open spec fn flip_bit(bytes: Seq<u8>, index: int, bit: u8) -> Seq<u8>
    recommends
        0 <= index < bytes.len(),
        bit < 8,
{
    bytes.update(index, bytes[index] ^ (1u8 << bit))
}

/// Inverting a bit changes the byte it is in, and no other.
pub proof fn lemma_flip_bit_differs(bytes: Seq<u8>, index: int, bit: u8)
    requires
        0 <= index < bytes.len(),
        bit < 8,
    ensures
        flip_bit(bytes, index, bit).len() == bytes.len(),
        flip_bit(bytes, index, bit) != bytes,
        forall|i: int|
            0 <= i < bytes.len() && i != index ==> flip_bit(bytes, index, bit)[i] == bytes[i],
{
    let x = bytes[index];
    assert(x ^ (1u8 << bit) != x) by (bit_vector)
        requires
            bit < 8,
    ;
    assert(flip_bit(bytes, index, bit)[index] != bytes[index]);
}

/// Inverting one bit anywhere in the encoding of a commit never yields a
/// frame that decodes to the same commit.
pub proof fn lemma_flip_is_noticed(commit: CommitView, index: int, bit: u8)
    requires
        commit.valid(),
        0 <= index < commit.encoding().len(),
        bit < 8,
    ensures
        decode_spec(flip_bit(commit.encoding(), index, bit)) != Ok::<_, DecodeError>(Some(commit)),
{
    lemma_flip_bit_differs(commit.encoding(), index, bit);
    lemma_corrupt_frame_differs(commit, flip_bit(commit.encoding(), index, bit));
}

/// Inverting one bit of the stored checksum of a valid commit's frame
/// makes decoding fail with a checksum mismatch.
pub proof fn lemma_flip_in_checksum(commit: CommitView, index: int, bit: u8)
    requires
        commit.valid(),
        commit.covered().len() <= index < commit.encoding().len(),
        bit < 8,
    ensures
        decode_spec(flip_bit(commit.encoding(), index, bit)) == Err::<Option<CommitView>, _>(
            DecodeError::ChecksumMismatch,
        ),
{
    let frame = flip_bit(commit.encoding(), index, bit);
    lemma_flip_bit_differs(commit.encoding(), index, bit);
    lemma_encoding_len(commit);
    assert(frame.take(commit.covered().len() as int) =~= commit.covered());
    lemma_corrupt_checksum(commit, frame);
}

/// Inverting one bit of the offset, the record count or the records of a
/// valid commit's frame makes decoding fail with a checksum mismatch,
/// provided that the checksum tells the damaged bytes from the intact
/// ones, and that the header is not left with all fields zero.
pub proof fn lemma_flip_in_covered(commit: CommitView, index: int, bit: u8)
    requires
        commit.valid(),
        0 <= index < 10 || 14 <= index < commit.covered().len(),
        bit < 8,
        !Header::parse(flip_bit(commit.encoding(), index, bit)).is_zero(),
    ensures
        crc32c_of(flip_bit(commit.covered(), index, bit)) != crc32c_of(commit.covered())
            ==> decode_spec(flip_bit(commit.encoding(), index, bit)) == Err::<
            Option<CommitView>,
            _,
        >(DecodeError::ChecksumMismatch),
{
    let frame = flip_bit(commit.encoding(), index, bit);
    lemma_encoding_len(commit);
    lemma_flip_bit_differs(commit.encoding(), index, bit);
    assert(frame.take(commit.covered().len() as int) =~= flip_bit(commit.covered(), index, bit));
    lemma_corrupt_covered(commit, frame);
}

/// Setting a bit of the length field in the encoding of a valid commit
/// makes the header announce more payload than the frame holds: decoding
/// fails for truncation.
pub proof fn lemma_flip_grows_len(commit: CommitView, index: int, bit: u8)
    requires
        commit.valid(),
        10 <= index < 14,
        bit < 8,
        commit.encoding()[index] & (1u8 << bit) == 0,
    ensures
        decode_spec(flip_bit(commit.encoding(), index, bit)) == Err::<Option<CommitView>, _>(
            DecodeError::Truncated,
        ),
{
    let encoding = commit.encoding();
    let frame = flip_bit(encoding, index, bit);
    let x = encoding[index];
    assert(x ^ (1u8 << bit) > x) by (bit_vector)
        requires
            bit < 8,
            x & (1u8 << bit) == 0,
    ;
    lemma_encoding_len(commit);
    lemma_frame_of_encoding(commit, Seq::empty());
    assert(encoding + Seq::<u8>::empty() =~= encoding);
    assert(Header::parse(encoding) == commit.header());
    assert(frame[index] > encoding[index]);
    assert(forall|i: int| 0 <= i < 14 && i != index ==> frame[i] == encoding[i]);
    assert(u32_from_le(frame, 10) > u32_from_le(encoding, 10));
}

} // verus!
