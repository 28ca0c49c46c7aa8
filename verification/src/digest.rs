//! Content hashes and compression.

use std::io::Write;
use vstd::prelude::*;

verus! {

/// The XXH3-128 hash of a content, as the 16 bytes that chkpt-core keeps.
pub uninterp spec fn content_hash(content: Seq<u8>) -> Seq<u8>;

/// `hash_content_bytes` of chkpt-core: hashes a content. The hash depends on the content alone,
/// on every machine.
pub assume_specification[ chkpt_core::store::blob::hash_content_bytes ](content: &[u8]) -> (r: [u8;
    16])
    ensures
        r@ == content_hash(content@),
;

/// The hexadecimal digit for `d`, in lower case.
pub open spec fn hex_digit(d: nat) -> char {
    if d < 10 {
        crate::text::digit_char(d)
    } else if d == 10 {
        'a'
    } else if d == 11 {
        'b'
    } else if d == 12 {
        'c'
    } else if d == 13 {
        'd'
    } else if d == 14 {
        'e'
    } else {
        'f'
    }
}

/// Bytes as hexadecimal text, two digits for each.
pub open spec fn hex_text(bytes: Seq<u8>) -> Seq<char>
    decreases bytes.len(),
{
    if bytes.len() == 0 {
        Seq::empty()
    } else {
        hex_text(bytes.drop_last()).push(hex_digit((bytes.last() / 16) as nat)).push(
            hex_digit((bytes.last() % 16) as nat),
        )
    }
}

/// `bytes_to_hex` of chkpt-core: writes the bytes of a hash as hexadecimal text, two digits in
/// lower case for each.
pub assume_specification[ chkpt_core::store::blob::bytes_to_hex ](bytes: &[u8; 16]) -> (r: String)
    ensures
        r@ == hex_text(bytes@),
;

/// Different hashes have different hexadecimal texts.
pub proof fn hex_text_is_injective(a: Seq<u8>, b: Seq<u8>)
    requires
        hex_text(a) == hex_text(b),
    ensures
        a == b,
    decreases a.len(),
{
    hex_text_len(a);
    hex_text_len(b);
    if a.len() == 0 {
        assert(a =~= b);
    } else {
        let x = hex_text(a.drop_last());
        let y = hex_text(b.drop_last());
        let ah = hex_digit((a.last() / 16) as nat);
        let al = hex_digit((a.last() % 16) as nat);
        let bh = hex_digit((b.last() / 16) as nat);
        let bl = hex_digit((b.last() % 16) as nat);
        assert(hex_text(a).last() == al && hex_text(b).last() == bl);
        assert(hex_text(a).drop_last() =~= x.push(ah));
        assert(hex_text(b).drop_last() =~= y.push(bh));
        assert(x.push(ah).last() == ah && y.push(bh).last() == bh);
        assert(x =~= x.push(ah).drop_last());
        assert(y =~= y.push(bh).drop_last());
        hex_text_is_injective(a.drop_last(), b.drop_last());
        assert(a.last() == b.last());
        assert(a =~= a.drop_last().push(a.last()));
        assert(b =~= b.drop_last().push(b.last()));
    }
}

/// The hexadecimal text of a hash has two digits for each byte.
pub proof fn hex_text_len(bytes: Seq<u8>)
    ensures
        hex_text(bytes).len() == 2 * bytes.len(),
    decreases bytes.len(),
{
    if bytes.len() > 0 {
        hex_text_len(bytes.drop_last());
    }
}

/// Whether `c` is a hexadecimal digit in lower case.
pub open spec fn is_hex_digit(c: char) -> bool {
    ('0' <= c && c <= '9') || ('a' <= c && c <= 'f')
}

/// The hexadecimal text of a hash consists of hexadecimal digits.
pub proof fn hex_text_digits(bytes: Seq<u8>)
    ensures
        forall|i: int| 0 <= i < hex_text(bytes).len() ==> is_hex_digit(#[trigger] hex_text(bytes)[i]),
    decreases bytes.len(),
{
    if bytes.len() > 0 {
        hex_text_digits(bytes.drop_last());
        let rest = hex_text(bytes.drop_last());
        assert forall|i: int| 0 <= i < hex_text(bytes).len() implies is_hex_digit(
            #[trigger] hex_text(bytes)[i],
        ) by {
            if i < rest.len() {
                assert(hex_text(bytes)[i] == rest[i]);
            }
        }
    }
}

/// What an LZ4 frame unpacks to, by the frame decoder of lz4_flex.
pub uninterp spec fn lz4_content(frame: Seq<u8>) -> Seq<u8>;

/// Where compression failed.
#[derive(Debug)]
pub enum CompressError {
    Write(String),
    Finish(String),
}

/// `FrameEncoder::write_all` and `FrameEncoder::finish` of lz4_flex, on a vector: packs a content
/// into one LZ4 frame, which unpacks to the content. It always succeeds: a vector takes every
/// write, each block gets the room that it can need at most, and no content size is announced that
/// could differ. Which of the frames that unpack to the content is chosen is not said: it may
/// differ between machines.
#[verifier::external_body]
pub(crate) fn lz4_frame(content: &[u8]) -> (r: Result<Vec<u8>, CompressError>)
    ensures
        r is Ok,
        lz4_content(r->Ok_0@) == content@,
{
    let mut encoder = lz4_flex::frame::FrameEncoder::new(Vec::new());
    match encoder.write_all(content) {
        Ok(()) => {},
        Err(e) => return Err(CompressError::Write(e.to_string())),
    }
    match encoder.finish() {
        Ok(frame) => Ok(frame),
        Err(e) => Err(CompressError::Finish(e.to_string())),
    }
}

/// The hexadecimal digits count up: the ten digits, then the letters from `a` on.
pub proof fn hex_digits_count_up(d: nat)
    requires
        d < 16,
    ensures
        d < 10 ==> hex_digit(d) as int == '0' as int + d,
        d >= 10 ==> hex_digit(d) as int == 'a' as int + d - 10,
{
}

/// A byte is written by two digits, the higher one first, in its place.
pub proof fn bytes_are_written_in_place(bytes: Seq<u8>, i: int)
    requires
        0 <= i < bytes.len(),
    ensures
        hex_text(bytes).len() == 2 * bytes.len(),
        hex_text(bytes)[2 * i] == hex_digit((bytes[i] / 16) as nat),
        hex_text(bytes)[2 * i + 1] == hex_digit((bytes[i] % 16) as nat),
    decreases bytes.len(),
{
    hex_text_len(bytes);
    hex_text_len(bytes.drop_last());
    if i < bytes.len() - 1 {
        bytes_are_written_in_place(bytes.drop_last(), i);
    }
}

} // verus!
