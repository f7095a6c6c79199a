use vstd::prelude::*;
use vstd::bytes::{spec_u32_to_le_bytes, spec_u32_from_le_bytes, spec_u64_to_le_bytes,
    spec_u64_from_le_bytes, lemma_auto_spec_u32_to_from_le_bytes,
    lemma_auto_spec_u64_to_from_le_bytes, u32_to_le_bytes, u32_from_le_bytes, u64_to_le_bytes,
    u64_from_le_bytes};
use vstd::slice::slice_subrange;
use crate::value::{CellV, CellValue};

verus! {

broadcast use vstd::utf8::char_is_scalar, vstd::utf8::char_u32_cast;

// ---------------------------------------------------------------------------
// Byte-level encoding of the columnar data-file format.  Every number is
// little endian; lengths and counts are 64 bits, character code points are 32
// bits.  The spec functions below fix the byte layout; the executable
// writers and readers are proved to implement them, and the decode-of-encode
// lemmas give the round trip.
// ---------------------------------------------------------------------------
/// Bytes of a 32-bit little-endian integer.
pub open spec fn enc_u32(x: u32) -> Seq<u8> {
    spec_u32_to_le_bytes(x)
}

/// Bytes of a 64-bit little-endian integer.
pub open spec fn enc_u64(x: u64) -> Seq<u8> {
    spec_u64_to_le_bytes(x)
}

/// The two's-complement bit pattern of a 32-bit signed integer.
pub open spec fn i32_bits(x: i32) -> u32 {
    if x >= 0 {
        x as u32
    } else {
        ((x as int) + 0x1_0000_0000) as u32
    }
}

/// The 32-bit signed integer with the given two's-complement bit pattern.
pub open spec fn i32_of_bits(u: u32) -> i32 {
    if u < 0x8000_0000 {
        u as i32
    } else {
        ((u as int) - 0x1_0000_0000) as i32
    }
}

/// The two's-complement bit pattern of a 64-bit signed integer.
pub open spec fn i64_bits(x: i64) -> u64 {
    if x >= 0 {
        x as u64
    } else {
        ((x as int) + 0x1_0000_0000_0000_0000) as u64
    }
}

/// The 64-bit signed integer with the given two's-complement bit pattern.
pub open spec fn i64_of_bits(u: u64) -> i64 {
    if u < 0x8000_0000_0000_0000 {
        u as i64
    } else {
        ((u as int) - 0x1_0000_0000_0000_0000) as i64
    }
}

/// A 32-bit value that is the code point of some character: not a surrogate
/// and at most the largest code point.
pub open spec fn valid_code_point(u: u32) -> bool {
    u < 0xD800 || (0xE000 <= u && u <= 0x10FFFF)
}

/// Characters one after the other, each as its 32-bit code point.
pub open spec fn enc_chars(s: Seq<char>) -> Seq<u8>
    decreases s.len(),
{
    if s.len() == 0 {
        Seq::empty()
    } else {
        enc_u32(s[0] as u32) + enc_chars(s.skip(1))
    }
}

/// A character sequence: its length, then its code points.
pub open spec fn enc_text(s: Seq<char>) -> Seq<u8> {
    enc_u64(s.len() as u64) + enc_chars(s)
}

/// One cell: a tag byte, then the value.
pub open spec fn enc_cell(c: CellV) -> Seq<u8> {
    match c {
        CellV::Null => seq![0u8],
        CellV::Int32(x) => seq![1u8] + enc_u32(i32_bits(x)),
        CellV::Int64(x) => seq![2u8] + enc_u64(i64_bits(x)),
        CellV::Boolean(b) => seq![3u8, (if b { 1u8 } else { 0u8 })],
        CellV::Text(s) => seq![4u8] + enc_text(s),
    }
}

/// Cells one after the other.
pub open spec fn enc_cells(cs: Seq<CellV>) -> Seq<u8>
    decreases cs.len(),
{
    if cs.len() == 0 {
        Seq::empty()
    } else {
        enc_cell(cs[0]) + enc_cells(cs.skip(1))
    }
}

/// An optional cell: a presence byte, then the cell where present.
pub open spec fn enc_opt_cell(o: Option<CellV>) -> Seq<u8> {
    match o {
        None => seq![0u8],
        Some(c) => seq![1u8] + enc_cell(c),
    }
}

/// Whether a text cell's length fits the 64-bit length field.  Every value
/// built by executable code does.
pub open spec fn cell_len_ok(c: CellV) -> bool {
    match c {
        CellV::Text(s) => s.len() <= u64::MAX,
        _ => true,
    }
}

/// All cells of a sequence have encodable lengths.
pub open spec fn cells_len_ok(cs: Seq<CellV>) -> bool {
    forall|i: int| 0 <= i < cs.len() ==> cell_len_ok(#[trigger] cs[i])
}

// ---------------------------------------------------------------------------
// Spec decoders.  Each consumes a prefix of the byte stream and yields the
// decoded value and the remaining bytes, or nothing when the stream is
// malformed.
// ---------------------------------------------------------------------------
/// Reads one byte.
pub open spec fn dec_u8(b: Seq<u8>) -> Option<(u8, Seq<u8>)> {
    if b.len() >= 1 {
        Some((b[0], b.skip(1)))
    } else {
        None
    }
}

/// Reads a 32-bit little-endian integer.
pub open spec fn dec_u32(b: Seq<u8>) -> Option<(u32, Seq<u8>)> {
    if b.len() >= 4 {
        Some((spec_u32_from_le_bytes(b.take(4)), b.skip(4)))
    } else {
        None
    }
}

/// Reads a 64-bit little-endian integer.
pub open spec fn dec_u64(b: Seq<u8>) -> Option<(u64, Seq<u8>)> {
    if b.len() >= 8 {
        Some((spec_u64_from_le_bytes(b.take(8)), b.skip(8)))
    } else {
        None
    }
}

/// Reads `n` characters, each a valid 32-bit code point.
pub open spec fn dec_chars(b: Seq<u8>, n: nat) -> Option<(Seq<char>, Seq<u8>)>
    decreases n,
{
    if n == 0 {
        Some((Seq::empty(), b))
    } else {
        match dec_u32(b) {
            None => None,
            Some((u, rest)) => if valid_code_point(u) {
                match dec_chars(rest, (n - 1) as nat) {
                    None => None,
                    Some((s, rest2)) => Some((seq![u as char] + s, rest2)),
                }
            } else {
                None
            },
        }
    }
}

/// Reads a character sequence: its length, then its code points.
pub open spec fn dec_text(b: Seq<u8>) -> Option<(Seq<char>, Seq<u8>)> {
    match dec_u64(b) {
        None => None,
        Some((n, rest)) => dec_chars(rest, n as nat),
    }
}

/// Reads one cell.
pub open spec fn dec_cell(b: Seq<u8>) -> Option<(CellV, Seq<u8>)> {
    match dec_u8(b) {
        None => None,
        Some((t, r)) => if t == 0 {
            Some((CellV::Null, r))
        } else if t == 1 {
            match dec_u32(r) {
                None => None,
                Some((u, r2)) => Some((CellV::Int32(i32_of_bits(u)), r2)),
            }
        } else if t == 2 {
            match dec_u64(r) {
                None => None,
                Some((u, r2)) => Some((CellV::Int64(i64_of_bits(u)), r2)),
            }
        } else if t == 3 {
            match dec_u8(r) {
                None => None,
                Some((v, r2)) => if v == 1 {
                    Some((CellV::Boolean(true), r2))
                } else if v == 0 {
                    Some((CellV::Boolean(false), r2))
                } else {
                    None
                },
            }
        } else if t == 4 {
            match dec_text(r) {
                None => None,
                Some((s, r2)) => Some((CellV::Text(s), r2)),
            }
        } else {
            None
        },
    }
}

/// Reads `n` cells.
pub open spec fn dec_cells(b: Seq<u8>, n: nat) -> Option<(Seq<CellV>, Seq<u8>)>
    decreases n,
{
    if n == 0 {
        Some((Seq::empty(), b))
    } else {
        match dec_cell(b) {
            None => None,
            Some((c, rest)) => match dec_cells(rest, (n - 1) as nat) {
                None => None,
                Some((cs, rest2)) => Some((seq![c] + cs, rest2)),
            },
        }
    }
}

/// Reads an optional cell.
pub open spec fn dec_opt_cell(b: Seq<u8>) -> Option<(Option<CellV>, Seq<u8>)> {
    match dec_u8(b) {
        None => None,
        Some((t, r)) => if t == 0 {
            Some((None, r))
        } else if t == 1 {
            match dec_cell(r) {
                None => None,
                Some((c, r2)) => Some((Some(c), r2)),
            }
        } else {
            None
        },
    }
}

// ---------------------------------------------------------------------------
// Decode-of-encode lemmas: reading an encoded value from the front of a
// stream yields the value back and leaves the rest untouched.
// ---------------------------------------------------------------------------
pub proof fn lemma_dec_enc_u8(x: u8, rest: Seq<u8>)
    ensures
        dec_u8(seq![x] + rest) == Some((x, rest)),
{
    assert((seq![x] + rest)[0] == x);
    assert((seq![x] + rest).skip(1) =~= rest);
}

pub proof fn lemma_dec_enc_u32(x: u32, rest: Seq<u8>)
    ensures
        dec_u32(enc_u32(x) + rest) == Some((x, rest)),
{
    lemma_auto_spec_u32_to_from_le_bytes();
    assert((enc_u32(x) + rest).take(4) =~= enc_u32(x));
    assert((enc_u32(x) + rest).skip(4) =~= rest);
}

pub proof fn lemma_dec_enc_u64(x: u64, rest: Seq<u8>)
    ensures
        dec_u64(enc_u64(x) + rest) == Some((x, rest)),
{
    lemma_auto_spec_u64_to_from_le_bytes();
    assert((enc_u64(x) + rest).take(8) =~= enc_u64(x));
    assert((enc_u64(x) + rest).skip(8) =~= rest);
}

pub proof fn lemma_i32_bits_round(x: i32)
    ensures
        i32_of_bits(i32_bits(x)) == x,
{
}

pub proof fn lemma_i64_bits_round(x: i64)
    ensures
        i64_of_bits(i64_bits(x)) == x,
{
}

pub proof fn lemma_dec_enc_chars(s: Seq<char>, rest: Seq<u8>)
    ensures
        dec_chars(enc_chars(s) + rest, s.len()) == Some((s, rest)),
    decreases s.len(),
{
    if s.len() == 0 {
        assert(enc_chars(s) + rest =~= rest);
    } else {
        let u = s[0] as u32;
        let tail = s.skip(1);
        vstd::utf8::char_is_scalar(s[0]);
        vstd::utf8::char_u32_cast(s[0], u);
        assert(enc_chars(s) + rest =~= enc_u32(u) + (enc_chars(tail) + rest));
        lemma_dec_enc_u32(u, enc_chars(tail) + rest);
        assert(valid_code_point(u));
        lemma_dec_enc_chars(tail, rest);
        assert(u as char == s[0]);
        assert(seq![s[0]] + tail =~= s);
    }
}

pub proof fn lemma_dec_enc_text(s: Seq<char>, rest: Seq<u8>)
    requires
        s.len() <= u64::MAX,
    ensures
        dec_text(enc_text(s) + rest) == Some((s, rest)),
{
    let n = s.len() as u64;
    assert(enc_text(s) + rest =~= enc_u64(n) + (enc_chars(s) + rest));
    lemma_dec_enc_u64(n, enc_chars(s) + rest);
    lemma_dec_enc_chars(s, rest);
}

pub proof fn lemma_dec_enc_cell(c: CellV, rest: Seq<u8>)
    requires
        cell_len_ok(c),
    ensures
        dec_cell(enc_cell(c) + rest) == Some((c, rest)),
{
    match c {
        CellV::Null => {
            lemma_dec_enc_u8(0u8, rest);
            assert(enc_cell(c) + rest =~= seq![0u8] + rest);
        },
        CellV::Int32(x) => {
            assert(enc_cell(c) + rest =~= seq![1u8] + (enc_u32(i32_bits(x)) + rest));
            lemma_dec_enc_u8(1u8, enc_u32(i32_bits(x)) + rest);
            lemma_dec_enc_u32(i32_bits(x), rest);
            lemma_i32_bits_round(x);
        },
        CellV::Int64(x) => {
            assert(enc_cell(c) + rest =~= seq![2u8] + (enc_u64(i64_bits(x)) + rest));
            lemma_dec_enc_u8(2u8, enc_u64(i64_bits(x)) + rest);
            lemma_dec_enc_u64(i64_bits(x), rest);
            lemma_i64_bits_round(x);
        },
        CellV::Boolean(b) => {
            let v = if b {
                1u8
            } else {
                0u8
            };
            assert(enc_cell(c) + rest =~= seq![3u8] + (seq![v] + rest));
            lemma_dec_enc_u8(3u8, seq![v] + rest);
            lemma_dec_enc_u8(v, rest);
        },
        CellV::Text(s) => {
            assert(enc_cell(c) + rest =~= seq![4u8] + (enc_text(s) + rest));
            lemma_dec_enc_u8(4u8, enc_text(s) + rest);
            lemma_dec_enc_text(s, rest);
        },
    }
}

pub proof fn lemma_dec_enc_cells(cs: Seq<CellV>, rest: Seq<u8>)
    requires
        cells_len_ok(cs),
    ensures
        dec_cells(enc_cells(cs) + rest, cs.len()) == Some((cs, rest)),
    decreases cs.len(),
{
    if cs.len() == 0 {
        assert(enc_cells(cs) + rest =~= rest);
    } else {
        let tail = cs.skip(1);
        assert(enc_cells(cs) + rest =~= enc_cell(cs[0]) + (enc_cells(tail) + rest));
        assert(cell_len_ok(cs[0]));
        lemma_dec_enc_cell(cs[0], enc_cells(tail) + rest);
        assert(cells_len_ok(tail)) by {
            assert(forall|i: int| 0 <= i < tail.len() ==> tail[i] == cs[i + 1]);
        }
        lemma_dec_enc_cells(tail, rest);
        assert(seq![cs[0]] + tail =~= cs);
    }
}

pub proof fn lemma_dec_enc_opt_cell(o: Option<CellV>, rest: Seq<u8>)
    requires
        o matches Some(c) ==> cell_len_ok(c),
    ensures
        dec_opt_cell(enc_opt_cell(o) + rest) == Some((o, rest)),
{
    match o {
        None => {
            lemma_dec_enc_u8(0u8, rest);
            assert(enc_opt_cell(o) + rest =~= seq![0u8] + rest);
        },
        Some(c) => {
            assert(enc_opt_cell(o) + rest =~= seq![1u8] + (enc_cell(c) + rest));
            lemma_dec_enc_u8(1u8, enc_cell(c) + rest);
            lemma_dec_enc_cell(c, rest);
        },
    }
}

// ---------------------------------------------------------------------------
// Trusted declarations for two std functions that vstd leaves unspecified.
// ---------------------------------------------------------------------------
/// Relies on `char::from_u32`: the character with the given code point, or
/// nothing when the value is a surrogate or above the largest code point.
pub assume_specification[ char::from_u32 ](x: u32) -> (r: Option<char>)
    ensures
        r == (if valid_code_point(x) {
            Some(x as char)
        } else {
            None::<char>
        }),
;

/// Relies on `String::push`: appends one character at the end of the string.
pub assume_specification[ String::push ](s: &mut String, c: char)
    ensures
        final(s)@ == old(s)@.push(c),
;

// ---------------------------------------------------------------------------
// Executable writers: each appends the spec encoding to the output buffer.
// ---------------------------------------------------------------------------
pub fn write_u8(out: &mut Vec<u8>, x: u8)
    ensures
        final(out)@ == old(out)@ + seq![x],
{
    out.push(x);
    proof {
        assert(out@ =~= old(out)@ + seq![x]);
    }
}

pub fn write_u32(out: &mut Vec<u8>, x: u32)
    ensures
        final(out)@ == old(out)@ + enc_u32(x),
{
    let mut s = u32_to_le_bytes(x);
    out.append(&mut s);
}

pub fn write_u64(out: &mut Vec<u8>, x: u64)
    ensures
        final(out)@ == old(out)@ + enc_u64(x),
{
    let mut s = u64_to_le_bytes(x);
    out.append(&mut s);
}

pub fn write_text(out: &mut Vec<u8>, s: &str)
    ensures
        final(out)@ == old(out)@ + enc_text(s@),
        s@.len() <= u64::MAX,
{
    let n = s.unicode_len();
    write_u64(out, n as u64);
    proof {
        assert(out@ =~= old(out)@ + enc_u64(n as u64) + enc_chars(s@.take(0)));
    }
    for i in 0..n
        invariant
            n == s@.len(),
            out@ == old(out)@ + enc_u64(n as u64) + enc_chars(s@.take(i as int)),
    {
        let c = s.get_char(i);
        write_u32(out, c as u32);
        proof {
            lemma_enc_chars_snoc(s@.take(i as int), s@[i as int]);
            assert(s@.take(i as int).push(s@[i as int]) =~= s@.take(i as int + 1));
            assert(out@ =~= old(out)@ + enc_u64(n as u64) + enc_chars(s@.take(i as int + 1)));
        }
    }
    proof {
        assert(s@.take(n as int) =~= s@);
        assert(out@ =~= old(out)@ + enc_text(s@));
    }
}

/// Appending one character to a sequence appends its code point bytes.
proof fn lemma_enc_chars_snoc(s: Seq<char>, c: char)
    ensures
        enc_chars(s.push(c)) == enc_chars(s) + enc_u32(c as u32),
    decreases s.len(),
{
    if s.len() == 0 {
        assert(s.push(c)[0] == c);
        assert(s.push(c).skip(1) =~= Seq::<char>::empty());
        assert(enc_chars(s.push(c).skip(1)) == Seq::<u8>::empty());
        assert(enc_chars(s.push(c)) == enc_u32(s.push(c)[0] as u32) + enc_chars(
            s.push(c).skip(1),
        ));
        assert(enc_chars(s.push(c)) =~= enc_u32(c as u32));
        assert(enc_chars(s) + enc_u32(c as u32) =~= enc_u32(c as u32));
    } else {
        assert(s.push(c)[0] == s[0]);
        assert(s.push(c).skip(1) =~= s.skip(1).push(c));
        lemma_enc_chars_snoc(s.skip(1), c);
        assert(enc_chars(s.push(c)) =~= enc_u32(s[0] as u32) + (enc_chars(s.skip(1)) + enc_u32(
            c as u32,
        )));
        assert(enc_chars(s) + enc_u32(c as u32) =~= enc_u32(s[0] as u32) + (enc_chars(s.skip(1))
            + enc_u32(c as u32)));
    }
}

pub fn write_cell(out: &mut Vec<u8>, c: &CellValue)
    ensures
        final(out)@ == old(out)@ + enc_cell(c@),
        cell_len_ok(c@),
{
    match c {
        CellValue::Null => {
            write_u8(out, 0);
        },
        CellValue::Int32(x) => {
            write_u8(out, 1);
            let bits: u32 = if *x >= 0 {
                *x as u32
            } else {
                ((*x as i64) + 0x1_0000_0000) as u32
            };
            proof {
                assert(bits == i32_bits(*x));
            }
            write_u32(out, bits);
            proof {
                assert(out@ =~= old(out)@ + enc_cell(c@));
            }
        },
        CellValue::Int64(x) => {
            write_u8(out, 2);
            let bits: u64 = if *x >= 0 {
                *x as u64
            } else {
                ((*x as i128) + 0x1_0000_0000_0000_0000) as u64
            };
            proof {
                assert(bits == i64_bits(*x));
            }
            write_u64(out, bits);
            proof {
                assert(out@ =~= old(out)@ + enc_cell(c@));
            }
        },
        CellValue::Boolean(b) => {
            write_u8(out, 3);
            write_u8(out, if *b {
                1
            } else {
                0
            });
            proof {
                assert(out@ =~= old(out)@ + enc_cell(c@));
            }
        },
        CellValue::Text(s) => {
            write_u8(out, 4);
            write_text(out, s.as_str());
            proof {
                assert(out@ =~= old(out)@ + enc_cell(c@));
            }
        },
    }
}

pub fn write_opt_cell(out: &mut Vec<u8>, o: &Option<CellValue>)
    ensures
        final(out)@ == old(out)@ + enc_opt_cell(match *o {
            Some(c) => Some(c@),
            None => None,
        }),
        (*o matches Some(c) ==> cell_len_ok(c@)),
{
    match o {
        None => {
            write_u8(out, 0);
        },
        Some(c) => {
            write_u8(out, 1);
            write_cell(out, c);
            proof {
                assert(out@ =~= old(out)@ + (seq![1u8] + enc_cell(c@)));
            }
        },
    }
}

// ---------------------------------------------------------------------------
// Executable readers: each decides the corresponding spec decoder at a
// position in the buffer.  A result `Some((v, p))` means the spec decoder
// consumes up to position `p` and yields `v`.
// ---------------------------------------------------------------------------
pub fn read_u8(b: &[u8], pos: usize) -> (r: Option<(u8, usize)>)
    requires
        pos <= b@.len(),
    ensures
        match r {
            Some(v) => pos <= v.1 <= b@.len() && dec_u8(b@.skip(pos as int)) == Some(
                (v.0, b@.skip(v.1 as int)),
            ),
            None => dec_u8(b@.skip(pos as int)) is None,
        },
{
    if pos < b.len() {
        let x = b[pos];
        proof {
            assert(b@.skip(pos as int)[0] == b@[pos as int]);
            assert(b@.skip(pos as int).skip(1) =~= b@.skip(pos as int + 1));
        }
        Some((x, pos + 1))
    } else {
        None
    }
}

pub fn read_u32(b: &[u8], pos: usize) -> (r: Option<(u32, usize)>)
    requires
        pos <= b@.len(),
    ensures
        match r {
            Some(v) => pos <= v.1 <= b@.len() && dec_u32(b@.skip(pos as int)) == Some(
                (v.0, b@.skip(v.1 as int)),
            ),
            None => dec_u32(b@.skip(pos as int)) is None,
        },
{
    if b.len() - pos >= 4 {
        let s = slice_subrange(b, pos, pos + 4);
        let x = u32_from_le_bytes(s);
        proof {
            assert(s@ =~= b@.skip(pos as int).take(4));
            assert(b@.skip(pos as int).skip(4) =~= b@.skip(pos as int + 4));
        }
        Some((x, pos + 4))
    } else {
        None
    }
}

pub fn read_u64(b: &[u8], pos: usize) -> (r: Option<(u64, usize)>)
    requires
        pos <= b@.len(),
    ensures
        match r {
            Some(v) => pos <= v.1 <= b@.len() && dec_u64(b@.skip(pos as int)) == Some(
                (v.0, b@.skip(v.1 as int)),
            ),
            None => dec_u64(b@.skip(pos as int)) is None,
        },
{
    if b.len() - pos >= 8 {
        let s = slice_subrange(b, pos, pos + 8);
        let x = u64_from_le_bytes(s);
        proof {
            assert(s@ =~= b@.skip(pos as int).take(8));
            assert(b@.skip(pos as int).skip(8) =~= b@.skip(pos as int + 8));
        }
        Some((x, pos + 8))
    } else {
        None
    }
}

pub fn read_text(b: &[u8], pos: usize) -> (r: Option<(String, usize)>)
    requires
        pos <= b@.len(),
    ensures
        match r {
            Some(v) => pos <= v.1 <= b@.len() && dec_text(b@.skip(pos as int)) == Some(
                (v.0@, b@.skip(v.1 as int)),
            ),
            None => dec_text(b@.skip(pos as int)) is None,
        },
{
    let (n, mut p) = match read_u64(b, pos) {
        None => {
            return None;
        },
        Some(v) => v,
    };
    let mut s = String::new();
    let mut i: u64 = 0;
    while i < n
        invariant
            i <= n,
            pos <= p <= b@.len(),
            s@.len() == i,
            dec_text(b@.skip(pos as int)) == (match dec_chars(b@.skip(p as int), (n - i) as nat) {
                Some((s2, rest)) => Some((s@ + s2, rest)),
                None => None::<(Seq<char>, Seq<u8>)>,
            }),
        decreases n - i,
    {
        let (u, p2) = match read_u32(b, p) {
            None => {
                return None;
            },
            Some(v) => v,
        };
        let c = match char::from_u32(u) {
            None => {
                return None;
            },
            Some(c) => c,
        };
        let ghost s_old = s@;
        s.push(c);
        proof {
            let m = (n - i) as nat;
            assert(s@ =~= s_old + seq![c]);
            match dec_chars(b@.skip(p2 as int), (m - 1) as nat) {
                Some(pr) => {
                    assert(s_old + (seq![c] + pr.0) =~= (s_old + seq![c]) + pr.0);
                },
                None => {},
            }
        }
        p = p2;
        i = i + 1;
    }
    proof {
        assert(s@ + Seq::<char>::empty() =~= s@);
    }
    Some((s, p))
}

pub fn read_cell(b: &[u8], pos: usize) -> (r: Option<(CellValue, usize)>)
    requires
        pos <= b@.len(),
    ensures
        match r {
            Some(v) => pos <= v.1 <= b@.len() && dec_cell(b@.skip(pos as int)) == Some(
                (v.0@, b@.skip(v.1 as int)),
            ),
            None => dec_cell(b@.skip(pos as int)) is None,
        },
{
    let (tag, p) = match read_u8(b, pos) {
        None => {
            return None;
        },
        Some(v) => v,
    };
    if tag == 0 {
        Some((CellValue::Null, p))
    } else if tag == 1 {
        match read_u32(b, p) {
            None => None,
            Some((u, p2)) => {
                let x: i32 = if u < 0x8000_0000 {
                    u as i32
                } else {
                    ((u as i64) - 0x1_0000_0000) as i32
                };
                proof {
                    assert(x == i32_of_bits(u));
                }
                Some((CellValue::Int32(x), p2))
            },
        }
    } else if tag == 2 {
        match read_u64(b, p) {
            None => None,
            Some((u, p2)) => {
                let x: i64 = if u < 0x8000_0000_0000_0000 {
                    u as i64
                } else {
                    ((u as i128) - 0x1_0000_0000_0000_0000) as i64
                };
                proof {
                    assert(x == i64_of_bits(u));
                }
                Some((CellValue::Int64(x), p2))
            },
        }
    } else if tag == 3 {
        match read_u8(b, p) {
            None => None,
            Some((v, p2)) => if v == 1 {
                Some((CellValue::Boolean(true), p2))
            } else if v == 0 {
                Some((CellValue::Boolean(false), p2))
            } else {
                None
            },
        }
    } else if tag == 4 {
        match read_text(b, p) {
            None => None,
            Some((s, p2)) => Some((CellValue::Text(s), p2)),
        }
    } else {
        None
    }
}

pub fn read_opt_cell(b: &[u8], pos: usize) -> (r: Option<(Option<CellValue>, usize)>)
    requires
        pos <= b@.len(),
    ensures
        match r {
            Some(v) => pos <= v.1 <= b@.len() && dec_opt_cell(b@.skip(pos as int)) == Some(
                (
                    match v.0 {
                        Some(c) => Some(c@),
                        None => None,
                    },
                    b@.skip(v.1 as int),
                ),
            ),
            None => dec_opt_cell(b@.skip(pos as int)) is None,
        },
{
    let (tag, p) = match read_u8(b, pos) {
        None => {
            return None;
        },
        Some(v) => v,
    };
    if tag == 0 {
        Some((None, p))
    } else if tag == 1 {
        match read_cell(b, p) {
            None => None,
            Some((c, p2)) => Some((Some(c), p2)),
        }
    } else {
        None
    }
}

} // verus!
