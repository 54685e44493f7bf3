//! The metadata codec: a textual interchange format for every field of a
//! [`RenderedFont`] except the image slot.
//!
//! The format is fixed-width: every number is written as sixteen lowercase
//! hex digits (`u32` values widened, `i32` values biased by `0x8000_0000`),
//! and every character — the font name's characters and the table keys — is
//! written verbatim.  Decoding accepts exactly the strings that encoding
//! produces, which makes the round trip exact.

use vstd::prelude::*;
use vstd::string::StrSliceExecFns;

use crate::font::CharInfo;
use crate::font::FontMeta;
use crate::font::RenderedFont;

verus! {

// ------------------------------------------------------------------
// Hex digits and sixteen-digit numbers
// ------------------------------------------------------------------

pub open spec fn hex_digit(d: u64) -> char {
    if d == 0 {
        '0'
    } else if d == 1 {
        '1'
    } else if d == 2 {
        '2'
    } else if d == 3 {
        '3'
    } else if d == 4 {
        '4'
    } else if d == 5 {
        '5'
    } else if d == 6 {
        '6'
    } else if d == 7 {
        '7'
    } else if d == 8 {
        '8'
    } else if d == 9 {
        '9'
    } else if d == 10 {
        'a'
    } else if d == 11 {
        'b'
    } else if d == 12 {
        'c'
    } else if d == 13 {
        'd'
    } else if d == 14 {
        'e'
    } else if d == 15 {
        'f'
    } else {
        '0'
    }
}

pub open spec fn hex_val(c: char) -> Option<u64> {
    if c == '0' {
        Some(0u64)
    } else if c == '1' {
        Some(1u64)
    } else if c == '2' {
        Some(2u64)
    } else if c == '3' {
        Some(3u64)
    } else if c == '4' {
        Some(4u64)
    } else if c == '5' {
        Some(5u64)
    } else if c == '6' {
        Some(6u64)
    } else if c == '7' {
        Some(7u64)
    } else if c == '8' {
        Some(8u64)
    } else if c == '9' {
        Some(9u64)
    } else if c == 'a' {
        Some(10u64)
    } else if c == 'b' {
        Some(11u64)
    } else if c == 'c' {
        Some(12u64)
    } else if c == 'd' {
        Some(13u64)
    } else if c == 'e' {
        Some(14u64)
    } else if c == 'f' {
        Some(15u64)
    } else {
        None
    }
}

pub open spec fn hex_val_or_zero(c: char) -> u64 {
    match hex_val(c) {
        Some(d) => d,
        None => 0u64,
    }
}

/// The `i`-th hex digit (big-endian, `0 <= i < 16`) of `n`.
pub open spec fn nibble(n: u64, i: int) -> u64 {
    (n >> (((15 - i) * 4) as u64)) & 0xf
}

/// `n` written as sixteen lowercase hex digits, most significant first.
pub open spec fn hex16(n: u64) -> Seq<char> {
    Seq::new(16, |i: int| hex_digit(nibble(n, i)))
}

/// Sixteen valid hex digits start at position `p` of `t`.
pub open spec fn hex_chunk_ok(t: Seq<char>, p: int) -> bool {
    0 <= p && p + 16 <= t.len() && forall|j: int|
        0 <= j < 16 ==> hex_val(#[trigger] t[p + j]) is Some
}

/// The value of the first `k` hex digits at position `p`, most significant
/// first.
pub open spec fn hex_acc(t: Seq<char>, p: int, k: int) -> u64
    decreases k,
{
    if k <= 0 {
        0u64
    } else {
        (hex_acc(t, p, k - 1) << 4) | hex_val_or_zero(t[p + k - 1])
    }
}

/// The number encoded by the sixteen hex digits at position `p`, if all
/// sixteen are valid digits and fit inside `t`.
pub open spec fn parse_hex16_at(t: Seq<char>, p: int) -> Option<u64> {
    if hex_chunk_ok(t, p) {
        Some(hex_acc(t, p, 16))
    } else {
        None
    }
}

proof fn lemma_hex_digit_val(d: u64)
    requires
        d < 16,
    ensures
        hex_val(hex_digit(d)) == Some(d),
{
}

proof fn lemma_nibble_bound(n: u64, i: int)
    requires
        0 <= i < 16,
    ensures
        nibble(n, i) < 16,
{
    let s = ((15 - i) * 4) as u64;
    assert(((n >> s) & 0xf) < 16) by (bit_vector);
}

proof fn lemma_hex_acc_of_hex16(n: u64, t: Seq<char>, p: int, k: int)
    requires
        0 <= k <= 16,
        0 <= p,
        p + 16 <= t.len(),
        forall|j: int| 0 <= j < 16 ==> #[trigger] t[p + j] == hex_digit(nibble(n, j)),
    ensures
        hex_acc(t, p, k) == (if k == 0 {
            0u64
        } else {
            n >> (((16 - k) * 4) as u64)
        }),
    decreases k,
{
    if k > 0 {
        lemma_hex_acc_of_hex16(n, t, p, k - 1);
        let j = k - 1;
        lemma_nibble_bound(n, j);
        lemma_hex_digit_val(nibble(n, j));
        assert(hex_val_or_zero(t[p + j]) == nibble(n, j));
        if k == 1 {
            assert(((0u64 << 4) | ((n >> 60) & 0xf)) == n >> 60) by (bit_vector);
            assert(((15 - j) * 4) as u64 == 60u64);
        } else {
            let s: u64 = ((16 - k) * 4) as u64;
            assert((((n >> (s + 4)) << 4) | ((n >> s) & 0xf)) == n >> s) by (bit_vector)
                requires
                    s <= 56,
            ;
            assert(((16 - (k - 1)) * 4) as u64 == s + 4);
            assert(((15 - j) * 4) as u64 == s);
        }
    }
}

/// Parsing inverts printing: sixteen digits written from `n` read back as
/// `n`.
pub proof fn lemma_parse_hex16_round(n: u64, t: Seq<char>, p: int)
    requires
        0 <= p,
        p + 16 <= t.len(),
        forall|j: int| 0 <= j < 16 ==> #[trigger] t[p + j] == hex16(n)[j],
    ensures
        parse_hex16_at(t, p) == Some(n),
{
    assert forall|j: int| 0 <= j < 16 implies #[trigger] t[p + j] == hex_digit(nibble(n, j)) by {
        assert(hex16(n)[j] == hex_digit(nibble(n, j)));
    }
    assert forall|j: int| 0 <= j < 16 implies hex_val(#[trigger] t[p + j]) is Some by {
        lemma_nibble_bound(n, j);
        lemma_hex_digit_val(nibble(n, j));
    }
    lemma_hex_acc_of_hex16(n, t, p, 16);
    assert(n >> 0u64 == n) by (bit_vector);
}

// ------------------------------------------------------------------
// Numbers: u32 widened, i32 biased
// ------------------------------------------------------------------

pub open spec fn enc_u32(v: u32) -> Seq<char> {
    hex16(v as u64)
}

pub open spec fn parse_u32_at(t: Seq<char>, p: int) -> Option<u32> {
    match parse_hex16_at(t, p) {
        Some(n) => if n <= u32::MAX as u64 {
            Some(n as u32)
        } else {
            None
        },
        None => None,
    }
}

/// An `i32` shifted into `0 .. 2^32`, so that it can be written unsigned.
pub open spec fn i32_biased(x: i32) -> u64 {
    (x as int + 0x8000_0000) as u64
}

pub open spec fn enc_i32(x: i32) -> Seq<char> {
    hex16(i32_biased(x))
}

pub open spec fn parse_i32_at(t: Seq<char>, p: int) -> Option<i32> {
    match parse_hex16_at(t, p) {
        Some(n) => if n < 0x1_0000_0000u64 {
            Some((n as int - 0x8000_0000) as i32)
        } else {
            None
        },
        None => None,
    }
}

pub proof fn lemma_parse_u32_round(v: u32, t: Seq<char>, p: int)
    requires
        0 <= p,
        p + 16 <= t.len(),
        forall|j: int| 0 <= j < 16 ==> #[trigger] t[p + j] == enc_u32(v)[j],
    ensures
        parse_u32_at(t, p) == Some(v),
{
    lemma_parse_hex16_round(v as u64, t, p);
}

pub proof fn lemma_parse_i32_round(x: i32, t: Seq<char>, p: int)
    requires
        0 <= p,
        p + 16 <= t.len(),
        forall|j: int| 0 <= j < 16 ==> #[trigger] t[p + j] == enc_i32(x)[j],
    ensures
        parse_i32_at(t, p) == Some(x),
{
    lemma_parse_hex16_round(i32_biased(x), t, p);
}

// ------------------------------------------------------------------
// Table entries and the whole record
// ------------------------------------------------------------------

/// A glyph-table entry: the character verbatim, then its four metrics.
/// Width: 1 + 4 * 16 = 65 characters.
pub open spec fn enc_ci_entry(e: (char, CharInfo)) -> Seq<char> {
    seq![e.0] + enc_u32(e.1.advance.0) + enc_u32(e.1.advance.1) + enc_u32(e.1.pixel_offset.0)
        + enc_u32(e.1.pixel_offset.1)
}

pub open spec fn enc_ci_seq(s: Seq<(char, CharInfo)>) -> Seq<char>
    decreases s.len(),
{
    if s.len() == 0 {
        Seq::empty()
    } else {
        enc_ci_entry(s[0]) + enc_ci_seq(s.drop_first())
    }
}

/// A kerning-table entry: the two characters verbatim, then the adjustment.
/// Width: 2 + 2 * 16 = 34 characters.
pub open spec fn enc_kern_entry(e: ((char, char), (i32, i32))) -> Seq<char> {
    seq![e.0.0, e.0.1] + enc_i32(e.1.0) + enc_i32(e.1.1)
}

pub open spec fn enc_kern_seq(s: Seq<((char, char), (i32, i32))>) -> Seq<char>
    decreases s.len(),
{
    if s.len() == 0 {
        Seq::empty()
    } else {
        enc_kern_entry(s[0]) + enc_kern_seq(s.drop_first())
    }
}

/// The encoding of the whole record: the name length-prefixed, the three
/// global metrics, then each table length-prefixed.
pub open spec fn encode_meta(m: FontMeta) -> Seq<char> {
    hex16(m.name.len() as u64) + m.name + enc_u32(m.font_size) + enc_u32(m.line_height) + enc_u32(
        m.max_width,
    ) + hex16(m.char_info.len() as u64) + enc_ci_seq(m.char_info) + hex16(m.kerning.len() as u64)
        + enc_kern_seq(m.kerning)
}

proof fn lemma_enc_ci_seq_snoc(s: Seq<(char, CharInfo)>, e: (char, CharInfo))
    ensures
        enc_ci_seq(s.push(e)) == enc_ci_seq(s) + enc_ci_entry(e),
    decreases s.len(),
{
    if s.len() == 0 {
        assert(s.push(e)[0] == e);
        assert(s.push(e).drop_first() =~= Seq::<(char, CharInfo)>::empty());
        assert(enc_ci_seq(Seq::<(char, CharInfo)>::empty()) == Seq::<char>::empty());
        assert(enc_ci_entry(e) + Seq::<char>::empty() =~= Seq::<char>::empty() + enc_ci_entry(e));
    } else {
        assert(s.push(e)[0] == s[0]);
        assert(s.push(e).drop_first() =~= s.drop_first().push(e));
        lemma_enc_ci_seq_snoc(s.drop_first(), e);
        assert(enc_ci_entry(s[0]) + (enc_ci_seq(s.drop_first()) + enc_ci_entry(e)) =~= (enc_ci_entry(
            s[0],
        ) + enc_ci_seq(s.drop_first())) + enc_ci_entry(e));
    }
}

proof fn lemma_enc_kern_seq_snoc(s: Seq<((char, char), (i32, i32))>, e: ((char, char), (i32, i32)))
    ensures
        enc_kern_seq(s.push(e)) == enc_kern_seq(s) + enc_kern_entry(e),
    decreases s.len(),
{
    if s.len() == 0 {
        assert(s.push(e)[0] == e);
        assert(s.push(e).drop_first() =~= Seq::<((char, char), (i32, i32))>::empty());
        assert(enc_kern_seq(Seq::<((char, char), (i32, i32))>::empty()) == Seq::<char>::empty());
        assert(enc_kern_entry(e) + Seq::<char>::empty() =~= Seq::<char>::empty() + enc_kern_entry(
            e,
        ));
    } else {
        assert(s.push(e)[0] == s[0]);
        assert(s.push(e).drop_first() =~= s.drop_first().push(e));
        lemma_enc_kern_seq_snoc(s.drop_first(), e);
        assert(enc_kern_entry(s[0]) + (enc_kern_seq(s.drop_first()) + enc_kern_entry(e)) =~= (
        enc_kern_entry(s[0]) + enc_kern_seq(s.drop_first())) + enc_kern_entry(e));
    }
}

// ------------------------------------------------------------------
// Decoding, as a specification
// ------------------------------------------------------------------

/// A glyph-table entry read back from position `p`.
pub open spec fn parse_ci_entry_at(t: Seq<char>, p: int) -> Option<(char, CharInfo)> {
    if 0 <= p && p + 65 <= t.len() {
        match (parse_u32_at(t, p + 1), parse_u32_at(t, p + 17), parse_u32_at(t, p + 33), parse_u32_at(t, p + 49)) {
            (Some(a0), Some(a1), Some(o0), Some(o1)) => Some(
                (t[p], CharInfo { advance: (a0, a1), pixel_offset: (o0, o1) }),
            ),
            _ => None,
        }
    } else {
        None
    }
}

/// `count` consecutive glyph-table entries starting at position `p`.
pub open spec fn parse_ci_seq_at(t: Seq<char>, p: int, count: u64) -> Option<Seq<(char, CharInfo)>>
    decreases count,
{
    if count == 0 {
        Some(Seq::empty())
    } else {
        match parse_ci_entry_at(t, p) {
            Some(e) => match parse_ci_seq_at(t, p + 65, (count - 1) as u64) {
                Some(rest) => Some(seq![e] + rest),
                None => None,
            },
            None => None,
        }
    }
}

/// A kerning-table entry read back from position `p`.
pub open spec fn parse_kern_entry_at(t: Seq<char>, p: int) -> Option<((char, char), (i32, i32))> {
    if 0 <= p && p + 34 <= t.len() {
        match (parse_i32_at(t, p + 2), parse_i32_at(t, p + 18)) {
            (Some(dx), Some(dy)) => Some(((t[p], t[p + 1]), (dx, dy))),
            _ => None,
        }
    } else {
        None
    }
}

/// `count` consecutive kerning-table entries starting at position `p`.
pub open spec fn parse_kern_seq_at(t: Seq<char>, p: int, count: u64) -> Option<
    Seq<((char, char), (i32, i32))>,
>
    decreases count,
{
    if count == 0 {
        Some(Seq::empty())
    } else {
        match parse_kern_entry_at(t, p) {
            Some(e) => match parse_kern_seq_at(t, p + 34, (count - 1) as u64) {
                Some(rest) => Some(seq![e] + rest),
                None => None,
            },
            None => None,
        }
    }
}

/// The record encoded by `t`, if `t` is exactly an encoding: the inverse of
/// [`encode_meta`] on its image, `None` elsewhere.
pub open spec fn decode_meta(t: Seq<char>) -> Option<FontMeta> {
    match parse_hex16_at(t, 0) {
        Some(nl) => {
            let name_end = 16 + nl as int;
            if name_end <= t.len() {
                match (parse_u32_at(t, name_end), parse_u32_at(t, name_end + 16), parse_u32_at(t, name_end + 32)) {
                    (Some(fs), Some(lh), Some(mw)) => match parse_hex16_at(t, name_end + 48) {
                        Some(ci_count) => {
                            let ci_start = name_end + 64;
                            match parse_ci_seq_at(t, ci_start, ci_count) {
                                Some(ci) => {
                                    let k_pos = ci_start + 65 * ci_count as int;
                                    match parse_hex16_at(t, k_pos) {
                                        Some(k_count) => {
                                            let k_start = k_pos + 16;
                                            match parse_kern_seq_at(t, k_start, k_count) {
                                                Some(kern) => if k_start + 34 * k_count as int
                                                    == t.len() {
                                                    Some(
                                                        FontMeta {
                                                            name: t.subrange(16, name_end),
                                                            font_size: fs,
                                                            line_height: lh,
                                                            max_width: mw,
                                                            char_info: ci,
                                                            kerning: kern,
                                                        },
                                                    )
                                                } else {
                                                    None
                                                },
                                                None => None,
                                            }
                                        },
                                        None => None,
                                    }
                                },
                                None => None,
                            }
                        },
                        None => None,
                    },
                    _ => None,
                }
            } else {
                None
            }
        },
        None => None,
    }
}

// ------------------------------------------------------------------
// The round trip: decoding inverts encoding
// ------------------------------------------------------------------

proof fn lemma_enc_ci_seq_len(s: Seq<(char, CharInfo)>)
    ensures
        enc_ci_seq(s).len() == 65 * s.len(),
    decreases s.len(),
{
    if s.len() > 0 {
        lemma_enc_ci_seq_len(s.drop_first());
    }
}

proof fn lemma_enc_kern_seq_len(s: Seq<((char, char), (i32, i32))>)
    ensures
        enc_kern_seq(s).len() == 34 * s.len(),
    decreases s.len(),
{
    if s.len() > 0 {
        lemma_enc_kern_seq_len(s.drop_first());
    }
}

proof fn lemma_parse_ci_entry_round(t: Seq<char>, p: int, e: (char, CharInfo))
    requires
        0 <= p,
        p + 65 <= t.len(),
        forall|j: int| 0 <= j < 65 ==> #[trigger] t[p + j] == enc_ci_entry(e)[j],
    ensures
        parse_ci_entry_at(t, p) == Some(e),
{
    let enc = enc_ci_entry(e);
    assert(t[p + 0] == enc[0]);
    assert(enc[0] == e.0);
    assert forall|j: int| 0 <= j < 16 implies #[trigger] t[p + 1 + j] == enc_u32(e.1.advance.0)[j] by {
        assert(t[p + (1 + j)] == enc[1 + j]);
        assert(enc[1 + j] == enc_u32(e.1.advance.0)[j]);
    }
    lemma_parse_u32_round(e.1.advance.0, t, p + 1);
    assert forall|j: int| 0 <= j < 16 implies #[trigger] t[p + 17 + j] == enc_u32(e.1.advance.1)[j] by {
        assert(t[p + (17 + j)] == enc[17 + j]);
        assert(enc[17 + j] == enc_u32(e.1.advance.1)[j]);
    }
    lemma_parse_u32_round(e.1.advance.1, t, p + 17);
    assert forall|j: int| 0 <= j < 16 implies #[trigger] t[p + 33 + j] == enc_u32(
        e.1.pixel_offset.0,
    )[j] by {
        assert(t[p + (33 + j)] == enc[33 + j]);
        assert(enc[33 + j] == enc_u32(e.1.pixel_offset.0)[j]);
    }
    lemma_parse_u32_round(e.1.pixel_offset.0, t, p + 33);
    assert forall|j: int| 0 <= j < 16 implies #[trigger] t[p + 49 + j] == enc_u32(
        e.1.pixel_offset.1,
    )[j] by {
        assert(t[p + (49 + j)] == enc[49 + j]);
        assert(enc[49 + j] == enc_u32(e.1.pixel_offset.1)[j]);
    }
    lemma_parse_u32_round(e.1.pixel_offset.1, t, p + 49);
}

proof fn lemma_parse_kern_entry_round(t: Seq<char>, p: int, e: ((char, char), (i32, i32)))
    requires
        0 <= p,
        p + 34 <= t.len(),
        forall|j: int| 0 <= j < 34 ==> #[trigger] t[p + j] == enc_kern_entry(e)[j],
    ensures
        parse_kern_entry_at(t, p) == Some(e),
{
    let enc = enc_kern_entry(e);
    assert(t[p + 0] == enc[0]);
    assert(enc[0] == e.0.0);
    assert(t[p + 1] == enc[1]);
    assert(enc[1] == e.0.1);
    assert forall|j: int| 0 <= j < 16 implies #[trigger] t[p + 2 + j] == enc_i32(e.1.0)[j] by {
        assert(t[p + (2 + j)] == enc[2 + j]);
        assert(enc[2 + j] == enc_i32(e.1.0)[j]);
    }
    lemma_parse_i32_round(e.1.0, t, p + 2);
    assert forall|j: int| 0 <= j < 16 implies #[trigger] t[p + 18 + j] == enc_i32(e.1.1)[j] by {
        assert(t[p + (18 + j)] == enc[18 + j]);
        assert(enc[18 + j] == enc_i32(e.1.1)[j]);
    }
    lemma_parse_i32_round(e.1.1, t, p + 18);
}

proof fn lemma_parse_ci_seq_round(t: Seq<char>, p: int, s: Seq<(char, CharInfo)>)
    requires
        0 <= p,
        s.len() <= u64::MAX,
        p + 65 * s.len() <= t.len(),
        forall|j: int| 0 <= j < 65 * s.len() ==> #[trigger] t[p + j] == enc_ci_seq(s)[j],
    ensures
        parse_ci_seq_at(t, p, s.len() as u64) == Some(s),
    decreases s.len(),
{
    if s.len() > 0 {
        let head = enc_ci_entry(s[0]);
        let tail = enc_ci_seq(s.drop_first());
        lemma_enc_ci_seq_len(s.drop_first());
        assert forall|j: int| 0 <= j < 65 implies #[trigger] t[p + j] == enc_ci_entry(s[0])[j] by {
            assert(enc_ci_seq(s)[j] == head[j]);
        }
        lemma_parse_ci_entry_round(t, p, s[0]);
        assert forall|j: int| 0 <= j < 65 * s.drop_first().len() implies #[trigger] t[p + 65 + j]
            == enc_ci_seq(s.drop_first())[j] by {
            assert(t[p + (65 + j)] == enc_ci_seq(s)[65 + j]);
            assert(enc_ci_seq(s)[65 + j] == tail[j]);
        }
        lemma_parse_ci_seq_round(t, p + 65, s.drop_first());
        assert((s.len() as u64 - 1) as u64 == s.drop_first().len() as u64);
        assert(seq![s[0]] + s.drop_first() =~= s);
    }
}

proof fn lemma_parse_kern_seq_round(t: Seq<char>, p: int, s: Seq<((char, char), (i32, i32))>)
    requires
        0 <= p,
        s.len() <= u64::MAX,
        p + 34 * s.len() <= t.len(),
        forall|j: int| 0 <= j < 34 * s.len() ==> #[trigger] t[p + j] == enc_kern_seq(s)[j],
    ensures
        parse_kern_seq_at(t, p, s.len() as u64) == Some(s),
    decreases s.len(),
{
    if s.len() > 0 {
        let head = enc_kern_entry(s[0]);
        let tail = enc_kern_seq(s.drop_first());
        lemma_enc_kern_seq_len(s.drop_first());
        assert forall|j: int| 0 <= j < 34 implies #[trigger] t[p + j] == enc_kern_entry(s[0])[j] by {
            assert(enc_kern_seq(s)[j] == head[j]);
        }
        lemma_parse_kern_entry_round(t, p, s[0]);
        assert forall|j: int| 0 <= j < 34 * s.drop_first().len() implies #[trigger] t[p + 34 + j]
            == enc_kern_seq(s.drop_first())[j] by {
            assert(t[p + (34 + j)] == enc_kern_seq(s)[34 + j]);
            assert(enc_kern_seq(s)[34 + j] == tail[j]);
        }
        lemma_parse_kern_seq_round(t, p + 34, s.drop_first());
        assert((s.len() as u64 - 1) as u64 == s.drop_first().len() as u64);
        assert(seq![s[0]] + s.drop_first() =~= s);
    }
}

/// Decoding inverts encoding: any record whose lengths fit the format's
/// sixteen-digit length fields reads back exactly, every field preserved.
#[verifier::rlimit(100)]
pub proof fn lemma_meta_round_trip(m: FontMeta)
    requires
        m.name.len() <= u64::MAX,
        m.char_info.len() <= u64::MAX,
        m.kerning.len() <= u64::MAX,
    ensures
        decode_meta(encode_meta(m)) == Some(m),
{
    let t = encode_meta(m);
    let nl = m.name.len() as u64;
    let ci_count = m.char_info.len() as u64;
    let k_count = m.kerning.len() as u64;
    lemma_enc_ci_seq_len(m.char_info);
    lemma_enc_kern_seq_len(m.kerning);

    let name_end = 16 + m.name.len() as int;
    let ci_start = name_end + 64;
    let k_pos = ci_start + 65 * m.char_info.len() as int;
    let k_start = k_pos + 16;
    assert(t.len() == k_start + 34 * m.kerning.len() as int);

    assert forall|j: int| 0 <= j < 16 implies #[trigger] t[0 + j] == hex16(nl)[j] by {
        assert(t[j] == hex16(nl)[j]);
    }
    lemma_parse_hex16_round(nl, t, 0);

    assert(t.subrange(16, name_end) =~= m.name);

    assert forall|j: int| 0 <= j < 16 implies #[trigger] t[name_end + j] == enc_u32(
        m.font_size,
    )[j] by {}
    lemma_parse_u32_round(m.font_size, t, name_end);

    assert forall|j: int| 0 <= j < 16 implies #[trigger] t[name_end + 16 + j] == enc_u32(
        m.line_height,
    )[j] by {
        assert(t[name_end + (16 + j)] == enc_u32(m.line_height)[j]);
    }
    lemma_parse_u32_round(m.line_height, t, name_end + 16);

    assert forall|j: int| 0 <= j < 16 implies #[trigger] t[name_end + 32 + j] == enc_u32(
        m.max_width,
    )[j] by {
        assert(t[name_end + (32 + j)] == enc_u32(m.max_width)[j]);
    }
    lemma_parse_u32_round(m.max_width, t, name_end + 32);

    assert forall|j: int| 0 <= j < 16 implies #[trigger] t[name_end + 48 + j] == hex16(
        ci_count,
    )[j] by {
        assert(t[name_end + (48 + j)] == hex16(ci_count)[j]);
    }
    lemma_parse_hex16_round(ci_count, t, name_end + 48);

    assert forall|j: int| 0 <= j < 65 * m.char_info.len() implies #[trigger] t[ci_start + j]
        == enc_ci_seq(m.char_info)[j] by {
        assert(t[name_end + (64 + j)] == enc_ci_seq(m.char_info)[j]);
    }
    lemma_parse_ci_seq_round(t, ci_start, m.char_info);

    assert forall|j: int| 0 <= j < 16 implies #[trigger] t[k_pos + j] == hex16(k_count)[j] by {
        assert(t[k_pos + j] == hex16(k_count)[j]);
    }
    lemma_parse_hex16_round(k_count, t, k_pos);

    assert forall|j: int| 0 <= j < 34 * m.kerning.len() implies #[trigger] t[k_start + j]
        == enc_kern_seq(m.kerning)[j] by {
        assert(t[k_start + j] == enc_kern_seq(m.kerning)[j]);
    }
    lemma_parse_kern_seq_round(t, k_start, m.kerning);

    assert(decode_meta(t) == Some(
        FontMeta {
            name: t.subrange(16, name_end),
            font_size: m.font_size,
            line_height: m.line_height,
            max_width: m.max_width,
            char_info: m.char_info,
            kerning: m.kerning,
        },
    ));
}

/// The error of the metadata decoder: the text is not an encoding produced
/// by [`encode_metadata`].
#[derive(Clone, Copy, Debug, PartialEq, Eq)]
pub enum MetaDecodeError {
    Malformed,
}

// ------------------------------------------------------------------
// Executable encoding
// ------------------------------------------------------------------

/// Relies on `FromIterator<char> for String` (through `Iterator::collect`):
/// collecting characters yields the string of exactly those characters in
/// order.
#[verifier::external_body]
fn string_from_chars(v: Vec<char>) -> (r: String)
    ensures
        r@ == v@,
{
    v.into_iter().collect()
}

fn hex_digit_exec(d: u64) -> (r: char)
    ensures
        r == hex_digit(d),
{
    if d == 0 {
        '0'
    } else if d == 1 {
        '1'
    } else if d == 2 {
        '2'
    } else if d == 3 {
        '3'
    } else if d == 4 {
        '4'
    } else if d == 5 {
        '5'
    } else if d == 6 {
        '6'
    } else if d == 7 {
        '7'
    } else if d == 8 {
        '8'
    } else if d == 9 {
        '9'
    } else if d == 10 {
        'a'
    } else if d == 11 {
        'b'
    } else if d == 12 {
        'c'
    } else if d == 13 {
        'd'
    } else if d == 14 {
        'e'
    } else if d == 15 {
        'f'
    } else {
        '0'
    }
}

fn hex_val_exec(c: char) -> (r: Option<u64>)
    ensures
        r == hex_val(c),
{
    match c {
        '0' => Some(0u64),
        '1' => Some(1u64),
        '2' => Some(2u64),
        '3' => Some(3u64),
        '4' => Some(4u64),
        '5' => Some(5u64),
        '6' => Some(6u64),
        '7' => Some(7u64),
        '8' => Some(8u64),
        '9' => Some(9u64),
        'a' => Some(10u64),
        'b' => Some(11u64),
        'c' => Some(12u64),
        'd' => Some(13u64),
        'e' => Some(14u64),
        'f' => Some(15u64),
        _ => None,
    }
}

fn push_hex16(out: &mut Vec<char>, n: u64)
    ensures
        final(out)@ == old(out)@ + hex16(n),
{
    let mut j: usize = 0;
    while j < 16
        invariant
            j <= 16,
            out@ == old(out)@ + hex16(n).take(j as int),
        decreases 16 - j,
    {
        let shift: u64 = 60 - 4 * (j as u64);
        let d: u64 = (n >> shift) & 0xf;
        let c = hex_digit_exec(d);
        out.push(c);
        proof {
            assert(((15 - j as int) * 4) as u64 == shift);
            assert(d == nibble(n, j as int));
            assert(hex16(n)[j as int] == hex_digit(nibble(n, j as int)));
            assert(out@ =~= old(out)@ + hex16(n).take(j as int + 1));
        }
        j += 1;
    }
    proof {
        assert(hex16(n).take(16) =~= hex16(n));
    }
}

/// Produces the metadata text of the font: exactly [`encode_meta`] of its
/// metadata fields.  Encoding is total — the format can express every value
/// of the model — so no error case exists.
pub fn encode_metadata(font: &RenderedFont<()>) -> (r: String)
    ensures
        r@ == encode_meta(font.meta()),
{
    let ghost m = font.meta();
    let mut out: Vec<char> = Vec::new();

    let name_str: &str = font.name.as_str();
    let name_len: usize = name_str.unicode_len();
    push_hex16(&mut out, name_len as u64);
    let ghost part1 = hex16(m.name.len() as u64);
    assert(out@ == part1);

    let mut i: usize = 0;
    while i < name_len
        invariant
            name_len == m.name.len(),
            name_str@ == m.name,
            i <= name_len,
            out@ == part1 + m.name.take(i as int),
            part1 == hex16(m.name.len() as u64),
        decreases name_len - i,
    {
        let c = name_str.get_char(i);
        out.push(c);
        proof {
            assert(out@ =~= part1 + m.name.take(i as int + 1));
        }
        i += 1;
    }
    proof {
        assert(m.name.take(name_len as int) =~= m.name);
    }
    let ghost part2 = part1 + m.name;
    assert(out@ == part2);

    push_hex16(&mut out, font.font_size as u64);
    push_hex16(&mut out, font.line_height as u64);
    push_hex16(&mut out, font.max_width as u64);
    let ghost part5 = part2 + enc_u32(m.font_size) + enc_u32(m.line_height) + enc_u32(m.max_width);
    assert(out@ == part5);

    let ci_len: usize = font.char_info.len();
    push_hex16(&mut out, ci_len as u64);
    let ghost part6 = part5 + hex16(m.char_info.len() as u64);
    assert(out@ == part6);

    let mut idx: usize = 0;
    while idx < ci_len
        invariant
            ci_len == m.char_info.len(),
            font.char_info@ == m.char_info,
            idx <= ci_len,
            out@ == part6 + enc_ci_seq(m.char_info.take(idx as int)),
        decreases ci_len - idx,
    {
        let (c, info) = font.char_info[idx];
        out.push(c);
        push_hex16(&mut out, info.advance.0 as u64);
        push_hex16(&mut out, info.advance.1 as u64);
        push_hex16(&mut out, info.pixel_offset.0 as u64);
        push_hex16(&mut out, info.pixel_offset.1 as u64);
        proof {
            let s = m.char_info;
            assert(s.take(idx as int).push(s[idx as int]) =~= s.take(idx as int + 1));
            lemma_enc_ci_seq_snoc(s.take(idx as int), s[idx as int]);
            assert(out@ =~= part6 + enc_ci_seq(s.take(idx as int + 1)));
        }
        idx += 1;
    }
    proof {
        assert(m.char_info.take(ci_len as int) =~= m.char_info);
    }
    let ghost part7 = part6 + enc_ci_seq(m.char_info);
    assert(out@ == part7);

    let k_len: usize = font.kerning.len();
    push_hex16(&mut out, k_len as u64);
    let ghost part8 = part7 + hex16(m.kerning.len() as u64);
    assert(out@ == part8);

    let mut kdx: usize = 0;
    while kdx < k_len
        invariant
            k_len == m.kerning.len(),
            font.kerning@ == m.kerning,
            kdx <= k_len,
            out@ == part8 + enc_kern_seq(m.kerning.take(kdx as int)),
        decreases k_len - kdx,
    {
        let (pair, adj) = font.kerning[kdx];
        out.push(pair.0);
        out.push(pair.1);
        push_hex16(&mut out, ((adj.0 as i64) + 0x8000_0000i64) as u64);
        push_hex16(&mut out, ((adj.1 as i64) + 0x8000_0000i64) as u64);
        proof {
            let s = m.kerning;
            assert(((adj.0 as i64) + 0x8000_0000i64) as u64 == i32_biased(adj.0));
            assert(((adj.1 as i64) + 0x8000_0000i64) as u64 == i32_biased(adj.1));
            assert(s.take(kdx as int).push(s[kdx as int]) =~= s.take(kdx as int + 1));
            lemma_enc_kern_seq_snoc(s.take(kdx as int), s[kdx as int]);
            assert(out@ =~= part8 + enc_kern_seq(s.take(kdx as int + 1)));
        }
        kdx += 1;
    }
    proof {
        assert(m.kerning.take(k_len as int) =~= m.kerning);
        assert(out@ == encode_meta(m));
    }

    string_from_chars(out)
}

// ------------------------------------------------------------------
// Executable decoding
// ------------------------------------------------------------------

fn parse_hex16(text: &str, p: usize) -> (r: Option<u64>)
    requires
        p + 16 <= text@.len(),
        text@.len() <= usize::MAX,
    ensures
        r == parse_hex16_at(text@, p as int),
{
    let mut acc: u64 = 0;
    let mut j: usize = 0;
    while j < 16
        invariant
            p + 16 <= text@.len(),
            text@.len() <= usize::MAX,
            j <= 16,
            forall|jj: int| 0 <= jj < j ==> hex_val(#[trigger] text@[p + jj]) is Some,
            acc == hex_acc(text@, p as int, j as int),
        decreases 16 - j,
    {
        let c = text.get_char(p + j);
        match hex_val_exec(c) {
            Some(d) => {
                acc = (acc << 4) | d;
            },
            None => {
                return None;
            },
        }
        j += 1;
    }
    Some(acc)
}

fn parse_u32(text: &str, p: usize) -> (r: Option<u32>)
    requires
        p + 16 <= text@.len(),
        text@.len() <= usize::MAX,
    ensures
        r == parse_u32_at(text@, p as int),
{
    match parse_hex16(text, p) {
        Some(n) => if n <= 0xffff_ffffu64 {
            Some(n as u32)
        } else {
            None
        },
        None => None,
    }
}

fn parse_i32(text: &str, p: usize) -> (r: Option<i32>)
    requires
        p + 16 <= text@.len(),
        text@.len() <= usize::MAX,
    ensures
        r == parse_i32_at(text@, p as int),
{
    match parse_hex16(text, p) {
        Some(n) => if n < 0x1_0000_0000u64 {
            Some(((n as i64) - 0x8000_0000i64) as i32)
        } else {
            None
        },
        None => None,
    }
}

/// Reads a metadata text back into a font with a placeholder image.  Returns
/// `Ok` exactly on the strings that [`encode_metadata`] produces, and the
/// record it returns is the one the text encodes.
#[verifier::loop_isolation(false)]
#[verifier::rlimit(100)]
pub fn decode_metadata(text: &str) -> (r: Result<RenderedFont<()>, MetaDecodeError>)
    ensures
        match r {
            Ok(f) => decode_meta(text@) == Some(f.meta()),
            Err(_) => decode_meta(text@) is None,
        },
{
    let ghost t = text@;
    let len: usize = text.unicode_len();

    if len < 16 {
        return Err(MetaDecodeError::Malformed);
    }
    let nl = match parse_hex16(text, 0) {
        Some(v) => v,
        None => {
            return Err(MetaDecodeError::Malformed);
        },
    };
    if nl > (len - 16) as u64 {
        return Err(MetaDecodeError::Malformed);
    }
    let name_len: usize = nl as usize;
    let name_end: usize = 16 + name_len;

    let mut name_chars: Vec<char> = Vec::new();
    let mut i: usize = 0;
    while i < name_len
        invariant
            i <= name_len,
            name_chars@ == t.subrange(16, 16 + i as int),
        decreases name_len - i,
    {
        let c = text.get_char(16 + i);
        name_chars.push(c);
        proof {
            assert(t.subrange(16, 16 + i as int).push(t[16 + i as int]) =~= t.subrange(
                16,
                16 + i as int + 1,
            ));
        }
        i += 1;
    }
    let name = string_from_chars(name_chars);
    assert(name@ == t.subrange(16, name_end as int));

    let mut p: usize = name_end;
    if len - p < 16 {
        return Err(MetaDecodeError::Malformed);
    }
    let font_size = match parse_u32(text, p) {
        Some(v) => v,
        None => {
            return Err(MetaDecodeError::Malformed);
        },
    };
    p += 16;
    if len - p < 16 {
        return Err(MetaDecodeError::Malformed);
    }
    let line_height = match parse_u32(text, p) {
        Some(v) => v,
        None => {
            return Err(MetaDecodeError::Malformed);
        },
    };
    p += 16;
    if len - p < 16 {
        return Err(MetaDecodeError::Malformed);
    }
    let max_width = match parse_u32(text, p) {
        Some(v) => v,
        None => {
            return Err(MetaDecodeError::Malformed);
        },
    };
    p += 16;
    if len - p < 16 {
        return Err(MetaDecodeError::Malformed);
    }
    let ci_count = match parse_hex16(text, p) {
        Some(v) => v,
        None => {
            return Err(MetaDecodeError::Malformed);
        },
    };
    p += 16;

    let ghost ci_start = p as int;
    let mut ci_vec: Vec<(char, CharInfo)> = Vec::new();
    let mut done: u64 = 0;
    while done < ci_count
        invariant
            done <= ci_count,
            p as int == ci_start + 65 * done as int,
            p <= len,
            ci_vec@.len() == done as int,
            (match parse_ci_seq_at(t, p as int, (ci_count - done) as u64) {
                Some(rest) => parse_ci_seq_at(t, ci_start, ci_count) == Some(ci_vec@ + rest),
                None => parse_ci_seq_at(t, ci_start, ci_count) is None,
            }),
        decreases ci_count - done,
    {
        if len - p < 65 {
            return Err(MetaDecodeError::Malformed);
        }
        let ghost acc0 = ci_vec@;
        let c0 = text.get_char(p);
        let a0 = match parse_u32(text, p + 1) {
            Some(v) => v,
            None => {
                return Err(MetaDecodeError::Malformed);
            },
        };
        let a1 = match parse_u32(text, p + 17) {
            Some(v) => v,
            None => {
                return Err(MetaDecodeError::Malformed);
            },
        };
        let o0 = match parse_u32(text, p + 33) {
            Some(v) => v,
            None => {
                return Err(MetaDecodeError::Malformed);
            },
        };
        let o1 = match parse_u32(text, p + 49) {
            Some(v) => v,
            None => {
                return Err(MetaDecodeError::Malformed);
            },
        };
        let info = CharInfo { advance: (a0, a1), pixel_offset: (o0, o1) };
        ci_vec.push((c0, info));
        proof {
            let cd = (ci_count - done) as u64;
            let e = (t[p as int], info);
            assert(parse_ci_entry_at(t, p as int) == Some(e));
            if let Some(rest2) = parse_ci_seq_at(t, p as int + 65, (cd - 1) as u64) {
                assert(parse_ci_seq_at(t, p as int, cd) == Some(seq![e] + rest2));
                assert(acc0 + (seq![e] + rest2) =~= acc0.push(e) + rest2);
            }
        }
        p += 65;
        done += 1;
    }
    assert(parse_ci_seq_at(t, ci_start, ci_count) == Some(ci_vec@));

    let ghost k_pos = p as int;
    if len - p < 16 {
        return Err(MetaDecodeError::Malformed);
    }
    let k_count = match parse_hex16(text, p) {
        Some(v) => v,
        None => {
            return Err(MetaDecodeError::Malformed);
        },
    };
    p += 16;

    let ghost k_start = p as int;
    let mut kern_vec: Vec<((char, char), (i32, i32))> = Vec::new();
    let mut kdone: u64 = 0;
    while kdone < k_count
        invariant
            kdone <= k_count,
            p as int == k_start + 34 * kdone as int,
            p <= len,
            kern_vec@.len() == kdone as int,
            (match parse_kern_seq_at(t, p as int, (k_count - kdone) as u64) {
                Some(rest) => parse_kern_seq_at(t, k_start, k_count) == Some(kern_vec@ + rest),
                None => parse_kern_seq_at(t, k_start, k_count) is None,
            }),
        decreases k_count - kdone,
    {
        if len - p < 34 {
            return Err(MetaDecodeError::Malformed);
        }
        let ghost acc0 = kern_vec@;
        let c0 = text.get_char(p);
        let c1 = text.get_char(p + 1);
        let dx = match parse_i32(text, p + 2) {
            Some(v) => v,
            None => {
                return Err(MetaDecodeError::Malformed);
            },
        };
        let dy = match parse_i32(text, p + 18) {
            Some(v) => v,
            None => {
                return Err(MetaDecodeError::Malformed);
            },
        };
        kern_vec.push(((c0, c1), (dx, dy)));
        proof {
            let cd = (k_count - kdone) as u64;
            let e = ((t[p as int], t[p as int + 1]), (dx, dy));
            assert(parse_kern_entry_at(t, p as int) == Some(e));
            if let Some(rest2) = parse_kern_seq_at(t, p as int + 34, (cd - 1) as u64) {
                assert(parse_kern_seq_at(t, p as int, cd) == Some(seq![e] + rest2));
                assert(acc0 + (seq![e] + rest2) =~= acc0.push(e) + rest2);
            }
        }
        p += 34;
        kdone += 1;
    }
    assert(parse_kern_seq_at(t, k_start, k_count) == Some(kern_vec@));

    if p != len {
        return Err(MetaDecodeError::Malformed);
    }

    let font = RenderedFont::new(name, font_size, (), line_height, max_width, ci_vec, kern_vec);
    proof {
        assert(decode_meta(t) == Some(font.meta()));
    }
    Ok(font)
}

} // verus!
