//! The in-memory font model: per-character placement info and pairwise
//! kerning adjustments, together with the owned atlas image.

use vstd::prelude::*;

verus! {

/// Placement information about a specific character.
#[derive(Clone, Copy, Debug, PartialEq, Eq)]
pub struct CharInfo {
    /// The number of pixels (x, y) that are advanced after this character
    /// is drawn.
    pub advance: (u32, u32),
    /// The distance that the pen should move before printing the character.
    pub pixel_offset: (u32, u32),
}

/// A representation of a fully-rendered font that contains an atlas image
/// and the metadata required to draw from it.
///
/// The two lookup tables are association lists; a key that occurs more than
/// once is resolved in favour of its first occurrence, so the tables denote
/// the finite maps given by [`RenderedFont::char_info_map`] and
/// [`RenderedFont::kerning_map`].
pub struct RenderedFont<I> {
    pub(crate) name: String,
    pub(crate) font_size: u32,

    pub(crate) image: I,
    pub(crate) line_height: u32,
    pub(crate) max_width: u32,
    pub(crate) char_info: Vec<(char, CharInfo)>,
    pub(crate) kerning: Vec<((char, char), (i32, i32))>,
}

/// Every field of a [`RenderedFont`] except the image slot, at the
/// specification level: the ghost image of the metadata.
pub struct FontMeta {
    pub name: Seq<char>,
    pub font_size: u32,
    pub line_height: u32,
    pub max_width: u32,
    pub char_info: Seq<(char, CharInfo)>,
    pub kerning: Seq<((char, char), (i32, i32))>,
}

/// The finite map denoted by an association list, first occurrence of a key
/// winning.
pub open spec fn assoc_map<K, V>(s: Seq<(K, V)>) -> Map<K, V>
    decreases s.len(),
{
    if s.len() == 0 {
        Map::empty()
    } else {
        assoc_map(s.drop_first()).insert(s[0].0, s[0].1)
    }
}

/// If `k` first occurs at index `i`, the denoted map sends `k` to the value
/// stored there.
pub proof fn lemma_assoc_map_found<K, V>(s: Seq<(K, V)>, k: K, i: int)
    requires
        0 <= i < s.len(),
        s[i].0 == k,
        forall|j: int| 0 <= j < i ==> (#[trigger] s[j]).0 != k,
    ensures
        assoc_map(s).contains_key(k),
        assoc_map(s)[k] == s[i].1,
    decreases i,
{
    if i > 0 {
        lemma_assoc_map_found(s.drop_first(), k, i - 1);
    }
}

/// A key that occurs nowhere in the list is absent from the denoted map.
pub proof fn lemma_assoc_map_absent<K, V>(s: Seq<(K, V)>, k: K)
    requires
        forall|j: int| 0 <= j < s.len() ==> (#[trigger] s[j]).0 != k,
    ensures
        !assoc_map(s).contains_key(k),
    decreases s.len(),
{
    if s.len() > 0 {
        lemma_assoc_map_absent(s.drop_first(), k);
    }
}

impl<I> RenderedFont<I> {
    /// The map from characters to their placement info.
    pub open(crate) spec fn char_info_map(self) -> Map<char, CharInfo> {
        assoc_map(self.char_info@)
    }

    /// The map from ordered character pairs to their kerning adjustment.
    pub open(crate) spec fn kerning_map(self) -> Map<(char, char), (i32, i32)> {
        assoc_map(self.kerning@)
    }

    pub open(crate) spec fn spec_name(self) -> Seq<char> {
        self.name@
    }

    pub open(crate) spec fn spec_font_size(self) -> u32 {
        self.font_size
    }

    pub open(crate) spec fn spec_line_height(self) -> u32 {
        self.line_height
    }

    pub open(crate) spec fn spec_max_width(self) -> u32 {
        self.max_width
    }

    pub open(crate) spec fn spec_image(self) -> I {
        self.image
    }

    /// All metadata fields (everything but the image slot).
    pub open(crate) spec fn meta(self) -> FontMeta {
        FontMeta {
            name: self.name@,
            font_size: self.font_size,
            line_height: self.line_height,
            max_width: self.max_width,
            char_info: self.char_info@,
            kerning: self.kerning@,
        }
    }

    /// The kerning adjustment for the ordered pair `(a, b)`: the table entry
    /// if the pair is present, `(0, 0)` otherwise.
    pub open spec fn spec_kerning(self, a: char, b: char) -> (i32, i32) {
        if self.kerning_map().contains_key((a, b)) {
            self.kerning_map()[(a, b)]
        } else {
            (0i32, 0i32)
        }
    }

    /// The placement info for `c`, if `c` is present in the atlas.
    pub open spec fn spec_char_info(self, c: char) -> Option<CharInfo> {
        if self.char_info_map().contains_key(c) {
            Some(self.char_info_map()[c])
        } else {
            None
        }
    }

    pub fn new(
        name: String,
        font_size: u32,
        image: I,
        line_height: u32,
        max_width: u32,
        char_info: Vec<(char, CharInfo)>,
        kerning: Vec<((char, char), (i32, i32))>,
    ) -> (r: RenderedFont<I>)
        ensures
            r.meta() == (FontMeta {
                name: name@,
                font_size: font_size,
                line_height: line_height,
                max_width: max_width,
                char_info: char_info@,
                kerning: kerning@,
            }),
            r.spec_image() == image,
    {
        RenderedFont {
            name,
            font_size,
            image,
            line_height,
            max_width,
            char_info,
            kerning,
        }
    }

    /// Returns the offsets `(dx, dy)` in pixels that should be applied
    /// to the difference in position between chars `a` and `b` where
    /// `a` comes immediately before `b` in the text.
    ///
    /// If the font doesn't specify a special kerning between these
    /// characters, `(0, 0)` is returned instead.
    pub fn kerning(&self, a: char, b: char) -> (r: (i32, i32))
        ensures
            r == self.spec_kerning(a, b),
    {
        let mut idx: usize = 0;
        while idx < self.kerning.len()
            invariant
                idx <= self.kerning@.len(),
                forall|j: int| 0 <= j < idx ==> (#[trigger] self.kerning@[j]).0 != (a, b),
            decreases self.kerning@.len() - idx,
        {
            let (key, val) = self.kerning[idx];
            if key.0 == a && key.1 == b {
                proof {
                    lemma_assoc_map_found(self.kerning@, (a, b), idx as int);
                }
                return val;
            }
            idx += 1;
        }
        proof {
            lemma_assoc_map_absent(self.kerning@, (a, b));
        }
        (0, 0)
    }

    /// Returns the offset and advance information regarding the specified
    /// character, or `None` when the character is not present in the atlas.
    pub fn char_info(&self, c: char) -> (r: Option<CharInfo>)
        ensures
            r == self.spec_char_info(c),
    {
        let mut idx: usize = 0;
        while idx < self.char_info.len()
            invariant
                idx <= self.char_info@.len(),
                forall|j: int| 0 <= j < idx ==> (#[trigger] self.char_info@[j]).0 != c,
            decreases self.char_info@.len() - idx,
        {
            let (key, val) = self.char_info[idx];
            if key == c {
                proof {
                    lemma_assoc_map_found(self.char_info@, c, idx as int);
                }
                return Some(val);
            }
            idx += 1;
        }
        proof {
            lemma_assoc_map_absent(self.char_info@, c);
        }
        None
    }

    /// Returns the suggested distance between lines of text.
    pub fn line_height(&self) -> (r: u32)
        ensures
            r == self.spec_line_height(),
    {
        self.line_height
    }

    /// Returns the maximum width of a single char using this font.
    pub fn max_width(&self) -> (r: u32)
        ensures
            r == self.spec_max_width(),
    {
        self.max_width
    }

    /// Returns the name of this font.
    pub fn name(&self) -> (r: &str)
        ensures
            r@ == self.spec_name(),
    {
        self.name.as_str()
    }

    /// Returns the size that this font was rendered at.
    pub fn size(&self) -> (r: u32)
        ensures
            r == self.spec_font_size(),
    {
        self.font_size
    }

    /// Returns a reference to the contained image.
    pub fn image(&self) -> (r: &I)
        ensures
            r == self.spec_image(),
    {
        &self.image
    }

    /// Returns a mutable reference to the contained image.
    pub fn image_mut(&mut self) -> (r: &mut I)
        ensures
            final(self).spec_image() == *final(r),
            final(self).meta() == old(self).meta(),
    {
        &mut self.image
    }

    /// Applies a transformation function to the image of this rendered font
    /// producing a new rendered font with that image.
    ///
    /// Every field other than the image is preserved exactly.
    pub fn map_img<B, F: FnOnce(I) -> B>(self, mapping_fn: F) -> (r: RenderedFont<B>)
        requires
            call_requires(mapping_fn, (self.spec_image(),)),
        ensures
            r.meta() == self.meta(),
            call_ensures(mapping_fn, (self.spec_image(),), r.spec_image()),
    {
        let RenderedFont { name, font_size, image, line_height, max_width, char_info, kerning } =
            self;
        RenderedFont {
            name,
            font_size,
            image: mapping_fn(image),
            line_height,
            max_width,
            char_info,
            kerning,
        }
    }
}

/// A character pair that is absent from the kerning table kerns to `(0, 0)`.
pub proof fn lemma_kerning_default<I>(font: RenderedFont<I>, a: char, b: char)
    requires
        !font.kerning_map().contains_key((a, b)),
    ensures
        font.spec_kerning(a, b) == (0i32, 0i32),
{
}

} // verus!
