//! Serialization of a segment's words: the low `w` bytes of each word in
//! little-endian order, the same bytes in big-endian order, or the
//! big-endian bytes as uppercase hexadecimal text, one line per word.

use vstd::prelude::*;

use crate::parse::OutputFormat;

verus! {

/// The low `w` bytes of the word, least significant first.
pub open spec fn spec_le_word(val: u64, w: nat) -> Seq<u8> {
    Seq::new(w, |i: int| ((val >> ((8 * i) as u64)) & 0xff) as u8)
}

/// The low `w` bytes of the word, most significant of them first: the
/// last `w` bytes of the full 8-byte big-endian encoding.
pub open spec fn spec_be_word(val: u64, w: nat) -> Seq<u8> {
    Seq::new(w, |i: int| ((val >> ((8 * (w - 1 - i)) as u64)) & 0xff) as u8)
}

/// The ASCII code of the uppercase hexadecimal digit for `n` (0..=15).
pub open spec fn hex_digit(n: u8) -> u8 {
    if n < 10 {
        (0x30 + n) as u8
    } else {
        (0x37 + n) as u8
    }
}

/// One HexList record: two uppercase digits per big-endian byte, then a
/// newline.
pub open spec fn spec_hex_word(val: u64, w: nat) -> Seq<u8> {
    let bs = spec_be_word(val, w);
    Seq::new(2 * w, |i: int| if i % 2 == 0 {
        hex_digit(bs[i / 2] / 16)
    } else {
        hex_digit(bs[i / 2] % 16)
    }).push(0x0a)
}

/// The bytes one word contributes to the output in the given format.
pub open spec fn spec_word_bytes(val: u64, w: nat, format: OutputFormat) -> Seq<u8> {
    match format {
        OutputFormat::LittleEndian => spec_le_word(val, w),
        OutputFormat::BigEndian => spec_be_word(val, w),
        OutputFormat::HexList => spec_hex_word(val, w),
    }
}

/// The bytes of the words from `i` on, concatenated.
pub open spec fn spec_output_words(words: Seq<u64>, w: nat, format: OutputFormat, i: int) -> Seq<
    u8,
>
    decreases words.len() - i,
{
    if i < 0 || i >= words.len() {
        Seq::empty()
    } else {
        spec_word_bytes(words[i], w, format) + spec_output_words(words, w, format, i + 1)
    }
}

/// The low `width` bytes of the word, least significant first.
pub fn le_word_bytes(val: u64, width: usize) -> (r: Vec<u8>)
    requires
        width <= 8,
    ensures
        r@ == spec_le_word(val, width as nat),
{
    let mut r: Vec<u8> = Vec::new();
    for i in 0..width
        invariant
            width <= 8,
            r@.len() == i,
            forall|k: int| 0 <= k < i ==> r@[k] == ((val >> ((8 * k) as u64)) & 0xff) as u8,
    {
        let b = #[verifier::truncate] (((val >> ((8 * i) as u32)) & 0xff) as u8);
        r.push(b);
    }
    proof {
        assert(r@ =~= spec_le_word(val, width as nat));
    }
    r
}

/// The low `width` bytes of the word, most significant of them first.
pub fn be_word_bytes(val: u64, width: usize) -> (r: Vec<u8>)
    requires
        1 <= width <= 8,
    ensures
        r@ == spec_be_word(val, width as nat),
{
    let mut r: Vec<u8> = Vec::new();
    for i in 0..width
        invariant
            1 <= width <= 8,
            r@.len() == i,
            forall|k: int|
                0 <= k < i ==> r@[k] == ((val >> ((8 * (width - 1 - k)) as u64)) & 0xff) as u8,
    {
        let b = #[verifier::truncate] (((val >> ((8 * (width - 1 - i)) as u32)) & 0xff) as u8);
        r.push(b);
    }
    proof {
        assert(r@ =~= spec_be_word(val, width as nat));
    }
    r
}

/// The uppercase hexadecimal digit for a value below 16.
fn hex_digit_byte(n: u8) -> (r: u8)
    requires
        n < 16,
    ensures
        r == hex_digit(n),
{
    if n < 10 {
        0x30 + n
    } else {
        0x37 + n
    }
}

/// One HexList record for the word.
pub fn hex_word_bytes(val: u64, width: usize) -> (r: Vec<u8>)
    requires
        1 <= width <= 8,
    ensures
        r@ == spec_hex_word(val, width as nat),
{
    let bs = be_word_bytes(val, width);
    let ghost bsv = spec_be_word(val, width as nat);
    let mut r: Vec<u8> = Vec::new();
    let n = bs.len();
    for i in 0..n
        invariant
            n == bsv.len(),
            bs@ == bsv,
            r@.len() == 2 * i,
            forall|k: int|
                0 <= k < 2 * i ==> r@[k] == (if k % 2 == 0 {
                    hex_digit(bsv[k / 2] / 16)
                } else {
                    hex_digit(bsv[k / 2] % 16)
                }),
    {
        let b = bs[i];
        let hi = hex_digit_byte(b / 16);
        let lo = hex_digit_byte(b % 16);
        r.push(hi);
        r.push(lo);
    }
    r.push(0x0a);
    proof {
        assert(r@ =~= spec_hex_word(val, width as nat));
    }
    r
}

/// The bytes one word contributes in the given format.
pub fn word_bytes(val: u64, width: usize, format: OutputFormat) -> (r: Vec<u8>)
    requires
        1 <= width <= 8,
    ensures
        r@ == spec_word_bytes(val, width as nat, format),
{
    match format {
        OutputFormat::LittleEndian => le_word_bytes(val, width),
        OutputFormat::BigEndian => be_word_bytes(val, width),
        OutputFormat::HexList => hex_word_bytes(val, width),
    }
}

/// Every segment serialized in the given format, in segment order.
pub open spec fn spec_all_outputs(
    segments: Seq<Seq<u64>>,
    cfg: crate::config::ConfigModel,
    format: OutputFormat,
) -> Seq<Seq<u8>> {
    Seq::new(
        cfg.seg_count(),
        |i: int| spec_output_words(segments[i], cfg.widths[i] as nat, format, 0),
    )
}

/// For every width, the big-endian bytes of a word are the reverse of its
/// little-endian bytes; with width 8 this is the full byte-reversal law.
pub proof fn lemma_be_is_le_reversed(val: u64, w: nat)
    ensures
        spec_be_word(val, w) == spec_le_word(val, w).reverse(),
{
    assert(spec_be_word(val, w) =~= spec_le_word(val, w).reverse());
}

} // verus!
