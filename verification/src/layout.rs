//! The layout engine: a single pass over the characters of a text that emits
//! one draw position per character present in the atlas, honouring line
//! breaks, kerning and glyph presence.

use vstd::prelude::*;

use crate::font::CharInfo;
use crate::font::RenderedFont;

verus! {

/// The position of a character when drawn from a string.
#[derive(Clone, Copy, Debug, PartialEq, Eq)]
pub struct OutputPosition {
    /// The character being drawn
    pub c: char,
    /// The position of the character on the screen
    pub pos: (i32, i32),
    /// The size of the character
    pub size: (u32, u32),
}

/// The incremental state of the layout scan: the pen position, the previous
/// input character (if any since the last line break), and the positions
/// emitted so far.  The pen is kept as unbounded integers; the executable
/// code tracks it in `i32` under [`layout_fits`].
pub struct LayoutState {
    pub x: int,
    pub y: int,
    pub prev: Option<char>,
    pub out: Seq<OutputPosition>,
}

/// The kerning adjustment applied between the previous character (if one is
/// set) and the current one.
pub open spec fn kern_pair(
    ker: Map<(char, char), (i32, i32)>,
    prev: Option<char>,
    c: char,
) -> (i32, i32) {
    match prev {
        Some(p) => if ker.contains_key((p, c)) {
            ker[(p, c)]
        } else {
            (0i32, 0i32)
        },
        None => (0i32, 0i32),
    }
}

/// The state before any character has been read: the pen sits at `x = 0` one
/// line height below the origin, with no previous character.
pub open spec fn layout_init(lh: u32) -> LayoutState {
    LayoutState { x: 0, y: lh as int, prev: None, out: Seq::empty() }
}

/// One step of the scan on character `c`:
/// - a line break resets `x`, advances `y` by the line height, clears the
///   previous character and emits nothing;
/// - otherwise the kerning adjustment for (previous, current) is added to the
///   pen, then, if the atlas has a glyph for `c`, a position is emitted at
///   `(x + offset.0, y - offset.1)` with the advance as its size and the pen
///   moves by the advance; a character without a glyph emits nothing and
///   moves the pen no further.  Either way `c` becomes the previous
///   character.
pub open spec fn layout_step(
    ci: Map<char, CharInfo>,
    ker: Map<(char, char), (i32, i32)>,
    lh: u32,
    st: LayoutState,
    c: char,
) -> LayoutState {
    if c == '\n' {
        LayoutState { x: 0, y: st.y + lh as int, prev: None, out: st.out }
    } else {
        let k = kern_pair(ker, st.prev, c);
        let x1 = st.x + k.0 as int;
        let y1 = st.y + k.1 as int;
        if ci.contains_key(c) {
            let info = ci[c];
            let p = OutputPosition {
                c: c,
                pos: (
                    (x1 + info.pixel_offset.0 as int) as i32,
                    (y1 - info.pixel_offset.1 as int) as i32,
                ),
                size: info.advance,
            };
            LayoutState {
                x: x1 + info.advance.0 as int,
                y: y1 + info.advance.1 as int,
                prev: Some(c),
                out: st.out.push(p),
            }
        } else {
            LayoutState { x: x1, y: y1, prev: Some(c), out: st.out }
        }
    }
}

/// The state after scanning the first `n` characters of `text`.
pub open spec fn layout_run(
    ci: Map<char, CharInfo>,
    ker: Map<(char, char), (i32, i32)>,
    lh: u32,
    text: Seq<char>,
    n: int,
) -> LayoutState
    decreases n,
{
    if n <= 0 {
        layout_init(lh)
    } else {
        layout_step(ci, ker, lh, layout_run(ci, ker, lh, text, n - 1), text[n - 1])
    }
}

/// The positions emitted for `text`, in input order.
pub open spec fn layout(
    ci: Map<char, CharInfo>,
    ker: Map<(char, char), (i32, i32)>,
    lh: u32,
    text: Seq<char>,
) -> Seq<OutputPosition> {
    layout_run(ci, ker, lh, text, text.len() as int).out
}

pub open spec fn in_i32(v: int) -> bool {
    i32::MIN <= v <= i32::MAX
}

/// Every value that one step of the scan computes stays within `i32`.
pub open spec fn step_fits(
    ci: Map<char, CharInfo>,
    ker: Map<(char, char), (i32, i32)>,
    lh: u32,
    st: LayoutState,
    c: char,
) -> bool {
    if c == '\n' {
        in_i32(st.y + lh as int)
    } else {
        let k = kern_pair(ker, st.prev, c);
        let x1 = st.x + k.0 as int;
        let y1 = st.y + k.1 as int;
        in_i32(x1) && in_i32(y1) && (ci.contains_key(c) ==> {
            let info = ci[c];
            in_i32(x1 + info.pixel_offset.0 as int) && in_i32(y1 - info.pixel_offset.1 as int)
                && in_i32(x1 + info.advance.0 as int) && in_i32(y1 + info.advance.1 as int)
        })
    }
}

/// The whole scan of `text` stays within `i32`: the machine-width limit under
/// which the pen positions of the executable scan are exact.
pub open spec fn layout_fits(
    ci: Map<char, CharInfo>,
    ker: Map<(char, char), (i32, i32)>,
    lh: u32,
    text: Seq<char>,
) -> bool {
    lh <= i32::MAX && forall|n: int|
        0 <= n < text.len() ==> step_fits(
            ci,
            ker,
            lh,
            layout_run(ci, ker, lh, text, n),
            #[trigger] text[n],
        )
}

/// What one step does to the whole state when the atlas has a glyph for the
/// (non-newline) character: kerning shifts the pen, one position is emitted,
/// the advance moves the pen, and the character becomes the previous one.
proof fn lemma_step_glyph_eq(
    ci: Map<char, CharInfo>,
    ker: Map<(char, char), (i32, i32)>,
    lh: u32,
    st: LayoutState,
    c: char,
)
    requires
        c != '\n',
        ci.contains_key(c),
    ensures
        ({
            let k = kern_pair(ker, st.prev, c);
            let x1 = st.x + k.0 as int;
            let y1 = st.y + k.1 as int;
            let info = ci[c];
            layout_step(ci, ker, lh, st, c) == (LayoutState {
                x: x1 + info.advance.0 as int,
                y: y1 + info.advance.1 as int,
                prev: Some(c),
                out: st.out.push(
                    OutputPosition {
                        c: c,
                        pos: (
                            (x1 + info.pixel_offset.0 as int) as i32,
                            (y1 - info.pixel_offset.1 as int) as i32,
                        ),
                        size: info.advance,
                    },
                ),
            })
        }),
{
}

/// What one step does to the whole state when the atlas has no glyph for the
/// (non-newline) character: nothing is emitted, the pen moves only by the
/// kerning adjustment, and the character still becomes the previous one.
proof fn lemma_step_skip_eq(
    ci: Map<char, CharInfo>,
    ker: Map<(char, char), (i32, i32)>,
    lh: u32,
    st: LayoutState,
    c: char,
)
    requires
        c != '\n',
        !ci.contains_key(c),
    ensures
        ({
            let k = kern_pair(ker, st.prev, c);
            layout_step(ci, ker, lh, st, c) == (LayoutState {
                x: st.x + k.0 as int,
                y: st.y + k.1 as int,
                prev: Some(c),
                out: st.out,
            })
        }),
{
}

/// The scan of the first `n` characters depends only on those characters:
/// two texts that agree on them reach the same state.
pub proof fn lemma_run_prefix(
    ci: Map<char, CharInfo>,
    ker: Map<(char, char), (i32, i32)>,
    lh: u32,
    t1: Seq<char>,
    t2: Seq<char>,
    n: int,
)
    requires
        0 <= n <= t1.len(),
        n <= t2.len(),
        forall|j: int| 0 <= j < n ==> t1[j] == #[trigger] t2[j],
    ensures
        layout_run(ci, ker, lh, t1, n) == layout_run(ci, ker, lh, t2, n),
    decreases n,
{
    if n > 0 {
        lemma_run_prefix(ci, ker, lh, t1, t2, n - 1);
        assert(t1[n - 1] == t2[n - 1]);
    }
}

/// The whole-text form of the glyph-skip policy: appending a non-newline
/// character without a glyph emits nothing — the output of the longer text
/// is the output of the shorter one — while the pen moves only by the
/// kerning adjustment against the previous character, and the skipped
/// character still becomes the previous character.
pub proof fn lemma_missing_glyph_text(
    ci: Map<char, CharInfo>,
    ker: Map<(char, char), (i32, i32)>,
    lh: u32,
    t: Seq<char>,
    c: char,
)
    requires
        c != '\n',
        !ci.contains_key(c),
    ensures
        layout(ci, ker, lh, t.push(c)) == layout(ci, ker, lh, t),
        ({
            let st = layout_run(ci, ker, lh, t, t.len() as int);
            let k = kern_pair(ker, st.prev, c);
            layout_run(ci, ker, lh, t.push(c), t.len() as int + 1) == (LayoutState {
                x: st.x + k.0 as int,
                y: st.y + k.1 as int,
                prev: Some(c),
                out: st.out,
            })
        }),
{
    let u = t.push(c);
    lemma_run_prefix(ci, ker, lh, u, t, t.len() as int);
    let st = layout_run(ci, ker, lh, t, t.len() as int);
    assert(u[t.len() as int] == c);
    assert(layout_run(ci, ker, lh, u, t.len() as int + 1) == layout_step(ci, ker, lh, st, c));
    lemma_step_skip_eq(ci, ker, lh, st, c);
}

/// A skipped character is still the reference for the next kerning lookup:
/// after a non-newline character `c` without a glyph, a character `b` with a
/// glyph is drawn at the pen shifted by the kerning into `c` and then by the
/// kerning of the pair `(c, b)` — not by any kerning against the character
/// before `c` — and nothing was emitted for `c` itself.
pub proof fn lemma_missing_glyph_kerns_next(
    ci: Map<char, CharInfo>,
    ker: Map<(char, char), (i32, i32)>,
    lh: u32,
    t: Seq<char>,
    c: char,
    b: char,
)
    requires
        c != '\n',
        !ci.contains_key(c),
        b != '\n',
        ci.contains_key(b),
    ensures
        ({
            let st = layout_run(ci, ker, lh, t, t.len() as int);
            let k1 = kern_pair(ker, st.prev, c);
            let k2 = kern_pair(ker, Some(c), b);
            let info = ci[b];
            let x1 = st.x + k1.0 as int + k2.0 as int;
            let y1 = st.y + k1.1 as int + k2.1 as int;
            layout(ci, ker, lh, t + seq![c, b]) == layout(ci, ker, lh, t).push(
                OutputPosition {
                    c: b,
                    pos: (
                        (x1 + info.pixel_offset.0 as int) as i32,
                        (y1 - info.pixel_offset.1 as int) as i32,
                    ),
                    size: info.advance,
                },
            )
        }),
{
    let u = t + seq![c, b];
    assert(u.len() == t.len() + 2);
    lemma_run_prefix(ci, ker, lh, u, t, t.len() as int);
    let st = layout_run(ci, ker, lh, t, t.len() as int);
    assert(u[t.len() as int] == c);
    assert(u[t.len() as int + 1] == b);
    assert(layout_run(ci, ker, lh, u, t.len() as int + 1) == layout_step(ci, ker, lh, st, c));
    lemma_step_skip_eq(ci, ker, lh, st, c);
    let st2 = layout_run(ci, ker, lh, u, t.len() as int + 1);
    assert(layout_run(ci, ker, lh, u, t.len() as int + 2) == layout_step(ci, ker, lh, st2, b));
    lemma_step_glyph_eq(ci, ker, lh, st2, b);
}

/// Every metric of the font is bounded by `b`: each advance and offset
/// component, and the magnitude of each kerning adjustment.
pub open spec fn metrics_bounded(
    ci: Map<char, CharInfo>,
    ker: Map<(char, char), (i32, i32)>,
    b: int,
) -> bool {
    (forall|c: char|
        ci.contains_key(c) ==> {
            let info = #[trigger] ci[c];
            info.advance.0 as int <= b && info.advance.1 as int <= b && info.pixel_offset.0 as int
                <= b && info.pixel_offset.1 as int <= b
        }) && (forall|pr: (char, char)|
        ker.contains_key(pr) ==> {
            let k = #[trigger] ker[pr];
            -b <= k.0 as int <= b && -b <= k.1 as int <= b
        })
}

proof fn lemma_run_bounded(
    ci: Map<char, CharInfo>,
    ker: Map<(char, char), (i32, i32)>,
    lh: u32,
    text: Seq<char>,
    b: int,
    n: int,
)
    requires
        metrics_bounded(ci, ker, b),
        lh as int <= b,
        0 <= b,
        0 <= n,
    ensures
        -(2 * b * n) <= layout_run(ci, ker, lh, text, n).x <= 2 * b * n,
        -(b + 2 * b * n) <= layout_run(ci, ker, lh, text, n).y <= b + 2 * b * n,
    decreases n,
{
    if n > 0 {
        lemma_run_bounded(ci, ker, lh, text, b, n - 1);
        let st = layout_run(ci, ker, lh, text, n - 1);
        let c = text[n - 1];
        assert(2 * b * (n - 1) + 2 * b == 2 * b * n) by (nonlinear_arith);
        assert(0 <= 2 * b * (n - 1)) by (nonlinear_arith)
            requires
                0 <= b && 1 <= n,
        ;
        let k = kern_pair(ker, st.prev, c);
        assert(-b <= k.0 as int <= b && -b <= k.1 as int <= b);
        if c != '\n' && ci.contains_key(c) {
            let info = ci[c];
            assert(info.advance.0 as int <= b && info.advance.1 as int <= b);
        }
    }
}

/// A usable sufficient condition for [`layout_fits`]: when the line height
/// and every table metric are bounded by `b`, and the text is short enough
/// that `3*b + 2*b*len` still fits in `i32`, the whole scan stays in range.
pub proof fn lemma_bounded_metrics_fit(
    ci: Map<char, CharInfo>,
    ker: Map<(char, char), (i32, i32)>,
    lh: u32,
    text: Seq<char>,
    b: int,
)
    requires
        metrics_bounded(ci, ker, b),
        lh as int <= b,
        0 <= b,
        3 * b + 2 * b * text.len() <= i32::MAX,
    ensures
        layout_fits(ci, ker, lh, text),
{
    assert forall|n: int| 0 <= n < text.len() implies step_fits(
        ci,
        ker,
        lh,
        layout_run(ci, ker, lh, text, n),
        #[trigger] text[n],
    ) by {
        lemma_run_bounded(ci, ker, lh, text, b, n);
        let st = layout_run(ci, ker, lh, text, n);
        let c = text[n];
        assert(2 * b * n + 2 * b <= 2 * b * text.len()) by (nonlinear_arith)
            requires
                0 <= b && 0 <= n && n < text.len(),
        ;
        let k = kern_pair(ker, st.prev, c);
        assert(-b <= k.0 as int <= b && -b <= k.1 as int <= b);
        if c != '\n' && ci.contains_key(c) {
            let info = ci[c];
            assert(info.advance.0 as int <= b && info.advance.1 as int <= b
                && info.pixel_offset.0 as int <= b && info.pixel_offset.1 as int <= b);
        }
    }
}

impl<I> RenderedFont<I> {
    /// Given a string, this function returns a vec containing all of the
    /// positions of each character as it should be rendered to the screen.
    ///
    /// The position is relative to the (0, 0) coordinate, and progresses
    /// in the +x, +y direction.
    pub fn positions_for(&self, text: &str) -> (r: Vec<OutputPosition>)
        requires
            layout_fits(
                self.char_info_map(),
                self.kerning_map(),
                self.spec_line_height(),
                text@,
            ),
        ensures
            r@ == layout(self.char_info_map(), self.kerning_map(), self.spec_line_height(), text@),
    {
        let ghost ci = self.char_info_map();
        let ghost ker = self.kerning_map();
        let ghost lh = self.spec_line_height();

        let len: usize = text.unicode_len();
        let mut out: Vec<OutputPosition> = Vec::new();
        let mut x: i32 = 0;
        let mut y: i32 = self.line_height() as i32;
        let mut prev: Option<char> = None;
        let mut i: usize = 0;

        while i < len
            invariant
                len == text@.len(),
                i <= len,
                layout_fits(ci, ker, lh, text@),
                ci == self.char_info_map(),
                ker == self.kerning_map(),
                lh == self.spec_line_height(),
                x as int == layout_run(ci, ker, lh, text@, i as int).x,
                y as int == layout_run(ci, ker, lh, text@, i as int).y,
                prev == layout_run(ci, ker, lh, text@, i as int).prev,
                out@ == layout_run(ci, ker, lh, text@, i as int).out,
            decreases len - i,
        {
            let ghost st = layout_run(ci, ker, lh, text@, i as int);
            proof {
                assert(step_fits(ci, ker, lh, st, text@[i as int]));
                assert(layout_run(ci, ker, lh, text@, i as int + 1) == layout_step(
                    ci,
                    ker,
                    lh,
                    st,
                    text@[i as int],
                ));
            }
            let c = text.get_char(i);
            if c == '\n' {
                x = 0;
                y = ((y as i64) + (self.line_height() as i64)) as i32;
                prev = None;
            } else {
                if let Some(p) = prev {
                    let (dx, dy) = self.kerning(p, c);
                    x = ((x as i64) + (dx as i64)) as i32;
                    y = ((y as i64) + (dy as i64)) as i32;
                }
                if let Some(info) = self.char_info(c) {
                    let (ox, oy) = info.pixel_offset;
                    let pos = (
                        ((x as i64) + (ox as i64)) as i32,
                        ((y as i64) - (oy as i64)) as i32,
                    );
                    let size = info.advance;
                    out.push(OutputPosition { c, pos, size });
                    let (dx, dy) = info.advance;
                    x = ((x as i64) + (dx as i64)) as i32;
                    y = ((y as i64) + (dy as i64)) as i32;
                }
                prev = Some(c);
            }
            i += 1;
        }
        out
    }
}

/// A character without an entry in the glyph table is skipped: the step
/// emits nothing for it and the pen moves only by the kerning adjustment
/// against the previous character, yet the skipped character still becomes
/// the previous character for the following kerning lookup.
pub proof fn lemma_missing_glyph_skipped(
    ci: Map<char, CharInfo>,
    ker: Map<(char, char), (i32, i32)>,
    lh: u32,
    st: LayoutState,
    c: char,
)
    requires
        c != '\n',
        !ci.contains_key(c),
    ensures
        ({
            let k = kern_pair(ker, st.prev, c);
            let stepped = layout_step(ci, ker, lh, st, c);
            stepped.out == st.out && stepped.x == st.x + k.0 as int && stepped.y == st.y
                + k.1 as int && stepped.prev == Some(c)
        }),
{
}

/// Laying out the empty text yields the empty sequence of positions.
pub proof fn lemma_empty_text(
    ci: Map<char, CharInfo>,
    ker: Map<(char, char), (i32, i32)>,
    lh: u32,
)
    ensures
        layout(ci, ker, lh, Seq::<char>::empty()) == Seq::<OutputPosition>::empty(),
{
}

proof fn lemma_step_glyph_out(
    ci: Map<char, CharInfo>,
    ker: Map<(char, char), (i32, i32)>,
    lh: u32,
    st: LayoutState,
    c: char,
)
    requires
        c != '\n',
        ci.contains_key(c),
    ensures
        ({
            let so = layout_step(ci, ker, lh, st, c).out;
            so.len() == st.out.len() + 1 && (forall|i: int|
                0 <= i < st.out.len() ==> so[i] == #[trigger] st.out[i]) && so[st.out.len() as int].c
                == c
        }),
{
}

proof fn lemma_step_no_glyph_out(
    ci: Map<char, CharInfo>,
    ker: Map<(char, char), (i32, i32)>,
    lh: u32,
    st: LayoutState,
    c: char,
)
    requires
        c == '\n' || !ci.contains_key(c),
    ensures
        layout_step(ci, ker, lh, st, c).out == st.out,
{
}

proof fn lemma_run_output_only_glyphs(
    ci: Map<char, CharInfo>,
    ker: Map<(char, char), (i32, i32)>,
    lh: u32,
    text: Seq<char>,
    n: int,
)
    ensures
        forall|i: int|
            0 <= i < layout_run(ci, ker, lh, text, n).out.len() ==> ci.contains_key(
                #[trigger] layout_run(ci, ker, lh, text, n).out[i].c,
            ) && layout_run(ci, ker, lh, text, n).out[i].c != '\n',
    decreases n,
{
    if n > 0 {
        lemma_run_output_only_glyphs(ci, ker, lh, text, n - 1);
        let prior = layout_run(ci, ker, lh, text, n - 1);
        let stepped = layout_run(ci, ker, lh, text, n);
        let c = text[n - 1];
        assert(stepped == layout_step(ci, ker, lh, prior, c));
        if c != '\n' && ci.contains_key(c) {
            lemma_step_glyph_out(ci, ker, lh, prior, c);
            assert forall|i: int| 0 <= i < stepped.out.len() implies ci.contains_key(
                #[trigger] stepped.out[i].c,
            ) && stepped.out[i].c != '\n' by {
                if i < prior.out.len() {
                    assert(stepped.out[i] == prior.out[i]);
                } else {
                    assert(stepped.out[i].c == c);
                }
            }
        } else {
            lemma_step_no_glyph_out(ci, ker, lh, prior, c);
            assert forall|i: int| 0 <= i < stepped.out.len() implies ci.contains_key(
                #[trigger] stepped.out[i].c,
            ) && stepped.out[i].c != '\n' by {
                assert(stepped.out[i] == prior.out[i]);
            }
        }
    }
}

/// Every position the layout emits belongs to a character that has a glyph
/// in the atlas, and is never a newline: a character outside `char_info` is
/// never drawn, and a line break is never drawn even when the atlas holds an
/// entry for it.
pub proof fn lemma_output_only_glyphs(
    ci: Map<char, CharInfo>,
    ker: Map<(char, char), (i32, i32)>,
    lh: u32,
    text: Seq<char>,
    i: int,
)
    requires
        0 <= i < layout(ci, ker, lh, text).len(),
    ensures
        ci.contains_key(layout(ci, ker, lh, text)[i].c),
        layout(ci, ker, lh, text)[i].c != '\n',
{
    lemma_run_output_only_glyphs(ci, ker, lh, text, text.len() as int);
}

/// Layout is deterministic: equal fonts and equal texts yield equal output
/// sequences.
pub proof fn lemma_layout_deterministic(
    ci1: Map<char, CharInfo>,
    ker1: Map<(char, char), (i32, i32)>,
    lh1: u32,
    text1: Seq<char>,
    ci2: Map<char, CharInfo>,
    ker2: Map<(char, char), (i32, i32)>,
    lh2: u32,
    text2: Seq<char>,
)
    requires
        ci1 == ci2,
        ker1 == ker2,
        lh1 == lh2,
        text1 == text2,
    ensures
        layout(ci1, ker1, lh1, text1) == layout(ci2, ker2, lh2, text2),
{
}

} // verus!
