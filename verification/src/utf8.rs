//! Byte-level vocabulary for UTF-8 text: what inserting, removing and
//! appending a character mean on an encoded byte sequence.

use vstd::prelude::*;
use vstd::utf8::*;

verus! {

/// The UTF-8 encoding of one character.
pub open spec fn char_bytes(c: char) -> Seq<u8> {
    encode_scalar(c as u32)
}

/// Number of bytes a character occupies once encoded.
pub fn utf8_width(c: char) -> (n: usize)
    ensures
        n == char_bytes(c).len(),
        1 <= n <= 4,
{
    let v: u32 = c as u32;
    if v < 0x80 {
        1
    } else if v < 0x800 {
        2
    } else if v < 0x10000 {
        3
    } else {
        4
    }
}

/// Encodes a character as UTF-8 into a four-byte scratch buffer and reports
/// how many of its leading bytes are in use.
pub fn encode_char(c: char) -> (r: ([u8; 4], usize))
    ensures
        r.1 == char_bytes(c).len(),
        1 <= r.1 <= 4,
        r.0@.subrange(0, r.1 as int) == char_bytes(c),
{
    let v: u32 = c as u32;
    let mut buf: [u8; 4] = [0; 4];
    let n: usize;
    if v < 0x80 {
        assert(v & 0x7F < 256) by (bit_vector);
        buf[0] = (v & 0x7F) as u8;
        n = 1;
    } else if v < 0x800 {
        assert((v >> 6) & 0x1F < 256 && v & 0x3F < 256) by (bit_vector);
        buf[0] = 0xC0 | ((v >> 6) & 0x1F) as u8;
        buf[1] = 0x80 | (v & 0x3F) as u8;
        n = 2;
    } else if v < 0x10000 {
        assert((v >> 12) & 0x0F < 256 && (v >> 6) & 0x3F < 256 && v & 0x3F < 256) by (bit_vector);
        buf[0] = 0xE0 | ((v >> 12) & 0x0F) as u8;
        buf[1] = 0x80 | ((v >> 6) & 0x3F) as u8;
        buf[2] = 0x80 | (v & 0x3F) as u8;
        n = 3;
    } else {
        assert((v >> 18) & 0x7 < 256 && (v >> 12) & 0x3F < 256 && (v >> 6) & 0x3F < 256 && v
            & 0x3F < 256) by (bit_vector);
        buf[0] = 0xF0 | ((v >> 18) & 0x7) as u8;
        buf[1] = 0x80 | ((v >> 12) & 0x3F) as u8;
        buf[2] = 0x80 | ((v >> 6) & 0x3F) as u8;
        buf[3] = 0x80 | (v & 0x3F) as u8;
        n = 4;
    }
    (buf, n)
}

/// The character whose encoding starts at byte offset `idx`.
pub open spec fn char_at(bytes: Seq<u8>, idx: int) -> char {
    decode_first_scalar(bytes.subrange(idx, bytes.len() as int)) as char
}

/// Encoded width of the character that starts at byte offset `idx`.
pub open spec fn width_at(bytes: Seq<u8>, idx: int) -> int {
    length_of_first_scalar(bytes.subrange(idx, bytes.len() as int))
}

/// The bytes with the encoding of `c` spliced in at byte offset `idx`.
pub open spec fn with_inserted(bytes: Seq<u8>, idx: int, c: char) -> Seq<u8> {
    bytes.subrange(0, idx) + char_bytes(c) + bytes.subrange(idx, bytes.len() as int)
}

/// The bytes with the character that starts at byte offset `idx` cut out.
pub open spec fn with_removed(bytes: Seq<u8>, idx: int) -> Seq<u8> {
    bytes.subrange(0, idx) + bytes.subrange(idx + width_at(bytes, idx), bytes.len() as int)
}

/// A single encoded character is valid UTF-8 and decodes to that character.
pub proof fn lemma_char_bytes(c: char)
    ensures
        valid_utf8(char_bytes(c)),
        decode_utf8(char_bytes(c)) == seq![c],
        1 <= char_bytes(c).len() <= 4,
{
    let s = seq![c];
    assert(encode_utf8(s) =~= char_bytes(c)) by {
        reveal_with_fuel(encode_utf8, 2);
    }
    encode_utf8_valid_utf8(s);
    encode_utf8_decode_utf8(s);
}

/// In the concatenation of two valid encodings, the seam is a character
/// boundary.
pub proof fn lemma_concat_boundary(a: Seq<u8>, b: Seq<u8>)
    requires
        valid_utf8(a),
        valid_utf8(b),
    ensures
        valid_utf8(a + b),
        is_char_boundary(a + b, a.len() as int),
    decreases a.len(),
{
    if a.len() == 0 {
    } else {
        let rest = pop_first_scalar(a);
        assert(pop_first_scalar(a + b) =~= rest + b);
        lemma_concat_boundary(rest, b);
    }
}

/// Decoding distributes over the concatenation of valid encodings.
pub proof fn lemma_decode_concat(a: Seq<u8>, b: Seq<u8>)
    requires
        valid_utf8(a),
        valid_utf8(b),
    ensures
        valid_utf8(a + b),
        decode_utf8(a + b) == decode_utf8(a) + decode_utf8(b),
{
    lemma_concat_boundary(a, b);
    let ab = a + b;
    decode_utf8_split(ab, a.len() as int);
    assert(ab.subrange(0, a.len() as int) =~= a);
    assert(ab.subrange(a.len() as int, ab.len() as int) =~= b);
}

/// Encoding distributes over the concatenation of character sequences.
pub proof fn lemma_encode_concat(s: Seq<char>, t: Seq<char>)
    ensures
        encode_utf8(s + t) == encode_utf8(s) + encode_utf8(t),
    decreases s.len(),
{
    if s.len() == 0 {
    } else {
        assert((s + t).drop_first() =~= s.drop_first() + t);
        lemma_encode_concat(s.drop_first(), t);
    }
}

/// Appending one character appends its encoding.
pub proof fn lemma_encode_push(s: Seq<char>, c: char)
    ensures
        encode_utf8(s.push(c)) == encode_utf8(s) + char_bytes(c),
{
    lemma_char_bytes(c);
    decode_utf8_encode_utf8(char_bytes(c));
    lemma_encode_concat(s, seq![c]);
    assert(s + seq![c] =~= s.push(c));
}

/// What is known at a character boundary that is not the end of the text:
/// a well-formed character starts there, and the offset just past it is again
/// a boundary.
pub proof fn lemma_char_at_boundary(bytes: Seq<u8>, idx: int)
    requires
        valid_utf8(bytes),
        is_char_boundary(bytes, idx),
        idx < bytes.len(),
    ensures
        0 <= idx,
        valid_utf8(bytes.subrange(0, idx)),
        valid_utf8(bytes.subrange(idx, bytes.len() as int)),
        valid_first_scalar(bytes.subrange(idx, bytes.len() as int)),
        1 <= width_at(bytes, idx) <= 4,
        idx + width_at(bytes, idx) <= bytes.len(),
        char_bytes(char_at(bytes, idx)) == bytes.subrange(idx, idx + width_at(bytes, idx)),
        valid_utf8(bytes.subrange(idx + width_at(bytes, idx), bytes.len() as int)),
        is_char_boundary(bytes, idx + width_at(bytes, idx)),
        decode_utf8(bytes.subrange(idx, bytes.len() as int)) == seq![char_at(bytes, idx)]
            + decode_utf8(bytes.subrange(idx + width_at(bytes, idx), bytes.len() as int)),
{
    let n = bytes.len() as int;
    let tail = bytes.subrange(idx, n);
    let w = width_at(bytes, idx);
    valid_utf8_split(bytes, idx);
    decode_utf8_first_scalar(tail);
    lemma_char_bytes(char_at(bytes, idx));
    assert(take_first_scalar(tail) =~= bytes.subrange(idx, idx + w));
    assert(pop_first_scalar(tail) =~= bytes.subrange(idx + w, n));
    let head = bytes.subrange(0, idx + w);
    let rest = bytes.subrange(idx + w, n);
    lemma_concat_boundary(bytes.subrange(0, idx), bytes.subrange(idx, idx + w));
    assert(bytes.subrange(0, idx) + bytes.subrange(idx, idx + w) =~= head);
    lemma_concat_boundary(head, rest);
    assert(head + rest =~= bytes);
}

/// How many characters are encoded before byte offset `idx`.
pub open spec fn chars_before(bytes: Seq<u8>, idx: int) -> int {
    decode_utf8(bytes.subrange(0, idx)).len() as int
}

/// Cutting the encoding at a character boundary cuts the text between two
/// characters.
pub proof fn lemma_split_chars(bytes: Seq<u8>, idx: int)
    requires
        valid_utf8(bytes),
        is_char_boundary(bytes, idx),
    ensures
        0 <= idx <= bytes.len(),
        0 <= chars_before(bytes, idx) <= decode_utf8(bytes).len(),
        valid_utf8(bytes.subrange(0, idx)),
        valid_utf8(bytes.subrange(idx, bytes.len() as int)),
        decode_utf8(bytes.subrange(0, idx)) == decode_utf8(bytes).take(chars_before(bytes, idx)),
        decode_utf8(bytes.subrange(idx, bytes.len() as int)) == decode_utf8(bytes).skip(
            chars_before(bytes, idx),
        ),
{
    valid_utf8_split(bytes, idx);
    decode_utf8_split(bytes, idx);
}

/// Splicing a character's encoding in at a boundary inserts the character
/// into the text at the matching position.
pub proof fn lemma_insert_chars(bytes: Seq<u8>, idx: int, c: char)
    requires
        valid_utf8(bytes),
        is_char_boundary(bytes, idx),
    ensures
        valid_utf8(with_inserted(bytes, idx, c)),
        with_inserted(bytes, idx, c).len() == bytes.len() + char_bytes(c).len(),
        0 <= chars_before(bytes, idx) <= decode_utf8(bytes).len(),
        decode_utf8(with_inserted(bytes, idx, c)) == decode_utf8(bytes).insert(
            chars_before(bytes, idx),
            c,
        ),
{
    lemma_split_chars(bytes, idx);
    lemma_char_bytes(c);
    let left = bytes.subrange(0, idx);
    let right = bytes.subrange(idx, bytes.len() as int);
    lemma_decode_concat(left, char_bytes(c));
    lemma_decode_concat(left + char_bytes(c), right);
}

/// Cutting a character's encoding out removes that character from the text.
pub proof fn lemma_remove_chars(bytes: Seq<u8>, idx: int)
    requires
        valid_utf8(bytes),
        is_char_boundary(bytes, idx),
        idx < bytes.len(),
    ensures
        valid_utf8(with_removed(bytes, idx)),
        with_removed(bytes, idx).len() + width_at(bytes, idx) == bytes.len(),
        0 <= chars_before(bytes, idx) < decode_utf8(bytes).len(),
        char_at(bytes, idx) == decode_utf8(bytes)[chars_before(bytes, idx)],
        decode_utf8(with_removed(bytes, idx)) == decode_utf8(bytes).remove(
            chars_before(bytes, idx),
        ),
{
    lemma_split_chars(bytes, idx);
    lemma_char_at_boundary(bytes, idx);
    let n = bytes.len() as int;
    let w = width_at(bytes, idx);
    let left = bytes.subrange(0, idx);
    let rest = bytes.subrange(idx + w, n);
    lemma_decode_concat(left, rest);
    let text = decode_utf8(bytes);
    let k = chars_before(bytes, idx);
    let tail = decode_utf8(bytes.subrange(idx, n));
    assert(tail[0] == char_at(bytes, idx));
    assert(decode_utf8(rest) =~= text.skip(k + 1)) by {
        assert(decode_utf8(rest) =~= tail.skip(1));
    }
}

/// Reads the character that starts at byte offset `idx`, together with the
/// number of bytes it occupies.
pub fn decode_char_at(bytes: &[u8], idx: usize) -> (r: (char, usize))
    requires
        valid_utf8(bytes@),
        is_char_boundary(bytes@, idx as int),
        idx < bytes@.len(),
    ensures
        r.0 == char_at(bytes@, idx as int),
        r.1 == width_at(bytes@, idx as int),
        r.1 == char_bytes(r.0).len(),
        1 <= r.1 <= 4,
        idx + r.1 <= bytes@.len(),
{
    proof {
        lemma_char_at_boundary(bytes@, idx as int);
    }
    let b0: u8 = bytes[idx];
    let width: usize;
    let scalar: u32;
    if b0 < 0x80 {
        width = 1;
        scalar = (b0 & 0x7F) as u32;
        assert((b0 & 0x7F) as u32 <= 0x7F) by (bit_vector);
    } else if b0 < 0xE0 {
        let b1: u8 = bytes[idx + 1];
        width = 2;
        scalar = (((b0 & 0x1F) as u32) << 6) | ((b1 & 0x3F) as u32);
        assert((((b0 & 0x1F) as u32) << 6) | ((b1 & 0x3F) as u32) <= 0x7FF) by (bit_vector);
    } else if b0 < 0xF0 {
        let b1: u8 = bytes[idx + 1];
        let b2: u8 = bytes[idx + 2];
        width = 3;
        scalar = (((b0 & 0x0F) as u32) << 12) | (((b1 & 0x3F) as u32) << 6) | ((b2
            & 0x3F) as u32);
        assert((((b0 & 0x0F) as u32) << 12) | (((b1 & 0x3F) as u32) << 6) | ((b2 & 0x3F) as u32)
            <= 0xFFFF) by (bit_vector);
    } else {
        let b1: u8 = bytes[idx + 1];
        let b2: u8 = bytes[idx + 2];
        let b3: u8 = bytes[idx + 3];
        width = 4;
        scalar = (((b0 & 0x07) as u32) << 18) | (((b1 & 0x3F) as u32) << 12) | (((b2
            & 0x3F) as u32) << 6) | ((b3 & 0x3F) as u32);
    }
    match char::from_u32(scalar) {
        Some(c) => (c, width),
        None => unreached(),
    }
}

/// Whether byte offset `idx` falls between two characters (or at either end)
/// of a valid encoding.
pub fn is_boundary(bytes: &[u8], idx: usize) -> (r: bool)
    requires
        valid_utf8(bytes@),
    ensures
        r == is_char_boundary(bytes@, idx as int),
{
    proof {
        is_char_boundary_start_end_of_seq(bytes@);
    }
    if idx >= bytes.len() {
        idx == bytes.len()
    } else {
        proof {
            is_char_boundary_iff_not_is_continuation_byte(bytes@, idx as int);
        }
        let b: u8 = bytes[idx];
        !(0x80 <= b && b <= 0xBF)
    }
}

/// Locates the start of the last character by scanning back over
/// continuation bytes.
pub fn last_char_start(bytes: &[u8]) -> (start: usize)
    requires
        valid_utf8(bytes@),
        bytes@.len() > 0,
    ensures
        start < bytes@.len(),
        is_char_boundary(bytes@, start as int),
        start + width_at(bytes@, start as int) == bytes@.len(),
        decode_utf8(bytes@) == decode_utf8(bytes@.subrange(0, start as int)).push(
            char_at(bytes@, start as int),
        ),
{
    let n: usize = bytes.len();
    let mut start: usize = n - 1;
    while 0x80 <= bytes[start] && bytes[start] <= 0xBF
        invariant
            n == bytes@.len(),
            start < n,
            valid_utf8(bytes@),
            !is_continuation_byte(bytes@[0]),
            forall|j: int| start < j < n ==> is_continuation_byte(#[trigger] bytes@[j]),
        decreases start,
    {
        start = start - 1;
    }
    proof {
        let s = start as int;
        is_char_boundary_iff_not_is_continuation_byte(bytes@, s);
        lemma_char_at_boundary(bytes@, s);
        decode_utf8_split(bytes@, s);
    }
    start
}

} // verus!
