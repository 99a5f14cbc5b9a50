use vstd::prelude::*;
use vstd::string::StringExecFns;
use crate::font_types::{FontWeight, FontShape, font_weight_name, font_shape_name,
    spec_parse_font_weight, spec_parse_font_shape};
use crate::style::{StyleInterface, spec_style, spec_cramp, spec_text};
use crate::setting::Settings;
use crate::text::{decimal, prefixed_decimal, string_of, str_eq};

verus! {

/// The base size index (\normalsize).
pub const BASESIZE: usize = 6;

/// Sizes at text, script and scriptscript style for each of the eleven size
/// indices, as in TeX with \normalsize = 10pt.
pub open spec fn size_style_map(size: usize, col: int) -> usize {
    let row: Seq<usize> = if size == 1 { seq![1, 1, 1] } else if size == 2 { seq![2, 1, 1] }
        else if size == 3 { seq![3, 1, 1] } else if size == 4 { seq![4, 2, 1] }
        else if size == 5 { seq![5, 2, 1] } else if size == 6 { seq![6, 3, 1] }
        else if size == 7 { seq![7, 4, 2] } else if size == 8 { seq![8, 6, 3] }
        else if size == 9 { seq![9, 7, 6] } else if size == 10 { seq![10, 8, 7] }
        else { seq![11, 10, 9] };
    row[col]
}

/// The size index that `size` takes on in `style`.
pub open spec fn spec_size_at_style(size: usize, style: StyleInterface) -> usize {
    if style.size < 2 { size } else { size_style_map(size, style.size - 1) }
}

pub open spec fn valid_size(size: usize) -> bool {
    1 <= size <= 11
}

/// The size index that `size` takes on in `style`.
pub fn size_at_style(size: usize, style: &StyleInterface) -> (r: usize)
    requires
        valid_size(size),
        style.size <= 3,
    ensures
        r == spec_size_at_style(size, *style),
        valid_size(r),
{
    if style.size < 2 {
        return size;
    }
    let col = style.size - 1;
    let row: [usize; 3] = if size == 1 { [1, 1, 1] } else if size == 2 { [2, 1, 1] }
        else if size == 3 { [3, 1, 1] } else if size == 4 { [4, 2, 1] }
        else if size == 5 { [5, 2, 1] } else if size == 6 { [6, 3, 1] }
        else if size == 7 { [7, 4, 2] } else if size == 8 { [8, 6, 3] }
        else if size == 9 { [9, 7, 6] } else if size == 10 { [10, 8, 7] }
        else { [11, 10, 9] };
    let r = if col == 1 { row[1] } else { row[2] };
    proof {
        let srow = if size == 1 { seq![1usize, 1, 1] } else if size == 2 { seq![2usize, 1, 1] }
            else if size == 3 { seq![3usize, 1, 1] } else if size == 4 { seq![4usize, 2, 1] }
            else if size == 5 { seq![5usize, 2, 1] } else if size == 6 { seq![6usize, 3, 1] }
            else if size == 7 { seq![7usize, 4, 2] } else if size == 8 { seq![8usize, 6, 3] }
            else if size == 9 { seq![9usize, 7, 6] } else if size == 10 { seq![10usize, 8, 7] }
            else { seq![11usize, 10, 9] };
        assert(row@ =~= srow);
    }
    r
}

/// What the parser carries along while building: current style, size, color
/// and fonts. Values are not changed in place; the `having*` and `with*`
/// methods make new ones.
#[derive(Debug)]
#[allow(non_snake_case)]
pub struct Options {
    pub style: StyleInterface,
    pub color: Option<String>,
    pub size: usize,
    pub textSize: usize,
    pub phantom: bool,
    pub font: String,
    pub fontFamily: String,
    pub font_weight: FontWeight,
    pub font_shape: FontShape,
}

fn clone_opt_string(s: &Option<String>) -> (r: Option<String>)
    ensures
        r == *s,
{
    match s {
        Some(x) => Some(x.clone()),
        None => None,
    }
}

impl Options {
    /// The style is one of the eight and both sizes are size indices.
    pub open spec fn wf(self) -> bool {
        &&& self.style.wf()
        &&& self.style == spec_style(self.style.id)
        &&& valid_size(self.size)
        &&& valid_size(self.textSize)
    }

    pub fn duplicate(&self) -> (r: Options)
        ensures
            r == *self,
    {
        Options {
            style: self.style,
            color: clone_opt_string(&self.color),
            size: self.size,
            textSize: self.textSize,
            phantom: self.phantom,
            font: self.font.clone(),
            fontFamily: self.fontFamily.clone(),
            font_weight: self.font_weight,
            font_shape: self.font_shape,
        }
    }

    /// Base options: display style, normal size, no color, no font.
    pub fn new() -> (r: Options)
        ensures
            r.wf(),
            r.style == spec_style(0),
            r.color is None,
            r.size == BASESIZE,
            r.textSize == BASESIZE,
            !r.phantom,
            r.font@.len() == 0,
            r.fontFamily@.len() == 0,
            r.font_weight == FontWeight::NoChange,
            r.font_shape == FontShape::NoChange,
    {
        Options {
            style: StyleInterface::from_id(0),
            color: None,
            size: BASESIZE,
            textSize: BASESIZE,
            phantom: false,
            font: String::new(),
            fontFamily: String::new(),
            font_weight: FontWeight::NoChange,
            font_shape: FontShape::NoChange,
        }
    }

    /// Base options in display style when the settings ask for display mode,
    /// else in text style.
    pub fn from_settings(settings: &Settings) -> (r: Options)
        ensures
            r.wf(),
            r.style == spec_style(if settings.display_mode { 0 } else { 2 }),
            r.color is None,
            r.size == BASESIZE,
            r.textSize == BASESIZE,
            !r.phantom,
            r.font@.len() == 0,
            r.fontFamily@.len() == 0,
            r.font_weight == FontWeight::NoChange,
            r.font_shape == FontShape::NoChange,
    {
        let mut res = Options::new();
        res.style = if settings.get_display_mode() {
            StyleInterface::from_id(0)
        } else {
            StyleInterface::from_id(2)
        };
        res
    }

    #[allow(non_snake_case)]
    pub fn fontWeight(&self) -> (s: String)
        ensures
            s@ == font_weight_name(self.font_weight),
    {
        string_of(self.font_weight.as_str())
    }

    #[allow(non_snake_case)]
    pub fn fontShape(&self) -> (s: String)
        ensures
            s@ == font_shape_name(self.font_shape),
    {
        string_of(self.font_shape.as_str())
    }

    pub fn get_style(&self) -> (s: StyleInterface)
        ensures
            s == self.style,
    {
        self.style
    }

    pub fn set_style(&mut self, style: StyleInterface)
        ensures
            *final(self) == (Options { style, ..*old(self) }),
    {
        self.style = style;
    }

    /// Options in `style`; unchanged when the style is the current one, else
    /// the size follows the style from the text size.
    pub fn having_style(&self, style: &StyleInterface) -> (r: Options)
        requires
            self.wf(),
            style.wf(),
            *style == spec_style(style.id),
        ensures
            r.wf(),
            r == (if self.style == *style {
                *self
            } else {
                Options {
                    style: *style,
                    size: spec_size_at_style(self.textSize, *style),
                    ..*self
                }
            }),
    {
        if self.style == *style {
            self.duplicate()
        } else {
            let mut r = self.duplicate();
            r.style = *style;
            r.size = size_at_style(self.textSize, style);
            r
        }
    }

    /// Options in the cramped version of the current style.
    pub fn having_cramped_style(&self) -> (r: Options)
        requires
            self.wf(),
        ensures
            r.wf(),
            r.style == spec_style(spec_cramp(self.style.id)),
            r.textSize == self.textSize,
            r.color == self.color,
            r.font == self.font,
    {
        let s = self.style.cramp();
        self.having_style(&s)
    }

    /// Options at size index `size`, in at least text style; unchanged when
    /// both sizes already are `size`.
    pub fn having_size(&self, size: usize) -> (r: Options)
        requires
            self.wf(),
            valid_size(size),
        ensures
            r.wf(),
            r == (if self.size == size && self.textSize == size {
                *self
            } else {
                Options {
                    style: spec_style(spec_text(self.style.id)),
                    size,
                    textSize: size,
                    ..*self
                }
            }),
    {
        if self.size == size && self.textSize == size {
            self.duplicate()
        } else {
            let mut r = self.duplicate();
            r.style = self.style.text();
            r.size = size;
            r.textSize = size;
            r
        }
    }

    /// Like `having_size(BASESIZE).having_style(style)`.
    pub fn having_base_style(&self, style: &StyleInterface) -> (r: Options)
        requires
            self.wf(),
            style.wf(),
            *style == spec_style(style.id),
        ensures
            r.wf(),
            r == (if self.size == spec_size_at_style(BASESIZE, *style)
                && self.textSize == BASESIZE && self.style == *style {
                *self
            } else {
                Options { style: *style, size: spec_size_at_style(BASESIZE, *style), ..*self }
            }),
    {
        let want_size = size_at_style(BASESIZE, style);
        if self.size == want_size && self.textSize == BASESIZE && self.style == *style {
            self.duplicate()
        } else {
            let mut r = self.duplicate();
            r.style = *style;
            r.size = want_size;
            r
        }
    }

    /// Removes the effect of sizing commands, keeping the current style.
    pub fn having_base_sizing(&self) -> (r: Options)
        requires
            self.wf(),
        ensures
            r.wf(),
            r == (Options {
                style: spec_style(spec_text(self.style.id)),
                size: if self.style.id == 4 || self.style.id == 5 {
                    3
                } else if self.style.id == 6 || self.style.id == 7 {
                    1
                } else {
                    6
                },
                ..*self
            }),
    {
        let size = if self.style.id == 4 || self.style.id == 5 {
            3
        } else if self.style.id == 6 || self.style.id == 7 {
            1
        } else {
            6
        };
        let mut r = self.duplicate();
        r.style = self.style.text();
        r.size = size;
        r
    }

    pub fn with_color(&self, color: String) -> (r: Options)
        ensures
            r == (Options { color: Some(color), ..*self }),
    {
        let mut r = self.duplicate();
        r.color = Some(color);
        r
    }

    pub fn with_phantom(&self) -> (r: Options)
        ensures
            r == (Options { phantom: true, ..*self }),
    {
        let mut r = self.duplicate();
        r.phantom = true;
        r
    }

    pub fn with_font(&self, font: String) -> (r: Options)
        ensures
            r == (Options { font, ..*self }),
    {
        let mut r = self.duplicate();
        r.font = font;
        r
    }

    #[allow(non_snake_case)]
    pub fn with_text_font_family(&self, fontFamily: String) -> (r: Options)
        ensures
            r.fontFamily == fontFamily,
            r.font@.len() == 0,
            r == (Options { fontFamily: r.fontFamily, font: r.font, ..*self }),
    {
        let mut r = self.duplicate();
        r.fontFamily = fontFamily;
        r.font = String::new();
        r
    }

    /// Options with the weight named `font_weight`; the name must be one of
    /// the weights.
    pub fn with_text_font_weight(&self, font_weight: String) -> (r: Options)
        requires
            spec_parse_font_weight(font_weight@) is Some,
        ensures
            Some(r.font_weight) == spec_parse_font_weight(font_weight@),
            r.font@.len() == 0,
            r == (Options { font_weight: r.font_weight, font: r.font, ..*self }),
    {
        let w = match FontWeight::from_name(font_weight.as_str()) {
            Ok(w) => w,
            Err(_) => FontWeight::NoChange,
        };
        let mut r = self.duplicate();
        r.font_weight = w;
        r.font = String::new();
        r
    }

    /// Options with the shape named `font_shape`, or the current shape when
    /// none is named; a given name must be one of the shapes.
    pub fn with_text_font_shape(&self, font_shape: Option<String>) -> (r: Options)
        requires
            font_shape matches Some(n) ==> spec_parse_font_shape(n@) is Some,
        ensures
            font_shape matches Some(n) ==> Some(r.font_shape) == spec_parse_font_shape(n@),
            font_shape is None ==> r.font_shape == self.font_shape,
            r.font@.len() == 0,
            r == (Options { font_shape: r.font_shape, font: r.font, ..*self }),
    {
        let s = match &font_shape {
            Some(p) => match FontShape::from_name(p.as_str()) {
                Ok(s) => s,
                Err(_) => FontShape::NoChange,
            },
            None => self.font_shape,
        };
        let mut r = self.duplicate();
        r.font_shape = s;
        r.font = String::new();
        r
    }

    /// CSS classes that switch from the size of `old_options` to this size;
    /// none when the sizes agree.
    pub fn sizing_classes(&self, old_options: &Options) -> (v: Vec<String>)
        ensures
            old_options.size == self.size ==> v@.len() == 0,
            old_options.size != self.size ==> v@.len() == 3
                && v@[0]@ == seq!['s', 'i', 'z', 'i', 'n', 'g']
                && v@[1]@ == seq!['r', 'e', 's', 'e', 't', '-', 's', 'i', 'z', 'e'] + decimal(old_options.size as nat)
                && v@[2]@ == seq!['s', 'i', 'z', 'e'] + decimal(self.size as nat),
    {
        if old_options.size != self.size {
            size_change_classes(old_options.size, self.size)
        } else {
            Vec::new()
        }
    }

    /// CSS classes that switch to the base size; none when already there.
    pub fn base_sizing_classes(&self) -> (v: Vec<String>)
        ensures
            self.size == BASESIZE ==> v@.len() == 0,
            self.size != BASESIZE ==> v@.len() == 3
                && v@[0]@ == seq!['s', 'i', 'z', 'i', 'n', 'g']
                && v@[1]@ == seq!['r', 'e', 's', 'e', 't', '-', 's', 'i', 'z', 'e'] + decimal(self.size as nat)
                && v@[2]@ == seq!['s', 'i', 'z', 'e'] + decimal(BASESIZE as nat),
    {
        if self.size != BASESIZE {
            size_change_classes(self.size, BASESIZE)
        } else {
            Vec::new()
        }
    }

    /// The CSS color: transparent for phantoms, else the color if any.
    pub fn get_color(&self) -> (c: Option<String>)
        ensures
            self.phantom ==> (c matches Some(s) && s@ == seq!['t', 'r', 'a', 'n', 's', 'p', 'a', 'r', 'e', 'n', 't']),
            !self.phantom ==> c == self.color,
    {
        if self.phantom {
            proof {
                reveal_strlit("transparent");
                assert("transparent"@ =~= seq!['t', 'r', 'a', 'n', 's', 'p', 'a', 'r', 'e', 'n', 't']);
            }
            Some(string_of("transparent"))
        } else {
            clone_opt_string(&self.color)
        }
    }

    /// The font lookup name for a text font family in the current weight and
    /// shape: the base name, a hyphen, and the styles name.
    pub fn retrieve_text_font_name(&self, font_family: String) -> (r: String)
        ensures
            r@ == base_font_name(font_family@) + seq!['-'] + font_styles_name(self.font_weight, self.font_shape),
    {
        let mut r = if str_eq(font_family.as_str(), "amsrm") {
            string_of("AMS")
        } else if str_eq(font_family.as_str(), "textrm") {
            string_of("Main")
        } else if str_eq(font_family.as_str(), "textsf") {
            string_of("SansSerif")
        } else if str_eq(font_family.as_str(), "texttt") {
            string_of("Typewriter")
        } else {
            font_family.clone()
        };
        proof {
            reveal_strlit("amsrm");
            reveal_strlit("textrm");
            reveal_strlit("textsf");
            reveal_strlit("texttt");
            reveal_strlit("AMS");
            reveal_strlit("Main");
            reveal_strlit("SansSerif");
            reveal_strlit("Typewriter");
            reveal_strlit("-");
            reveal_strlit("BoldItalic");
            reveal_strlit("Bold");
            reveal_strlit("Regular");
        }
        r.append("-");
        if self.font_weight == FontWeight::Textbf && self.font_shape == FontShape::Textit {
            r.append("BoldItalic");
        } else if self.font_weight == FontWeight::Textbf {
            r.append("Bold");
        } else {
            r.append("Regular");
        }
        proof {
            assert("amsrm"@ =~= seq!['a', 'm', 's', 'r', 'm']);
            assert("textrm"@ =~= seq!['t', 'e', 'x', 't', 'r', 'm']);
            assert("textsf"@ =~= seq!['t', 'e', 'x', 't', 's', 'f']);
            assert("texttt"@ =~= seq!['t', 'e', 'x', 't', 't', 't']);
            assert("AMS"@ =~= seq!['A', 'M', 'S']);
            assert("Main"@ =~= seq!['M', 'a', 'i', 'n']);
            assert("SansSerif"@ =~= seq!['S', 'a', 'n', 's', 'S', 'e', 'r', 'i', 'f']);
            assert("Typewriter"@ =~= seq!['T', 'y', 'p', 'e', 'w', 'r', 'i', 't', 'e', 'r']);
            assert("-"@ =~= seq!['-']);
            assert("BoldItalic"@ =~= seq!['B', 'o', 'l', 'd', 'I', 't', 'a', 'l', 'i', 'c']);
            assert("Bold"@ =~= seq!['B', 'o', 'l', 'd']);
            assert("Regular"@ =~= seq!['R', 'e', 'g', 'u', 'l', 'a', 'r']);
            assert(r@ =~= base_font_name(font_family@) + seq!['-'] + font_styles_name(self.font_weight, self.font_shape));
        }
        r
    }
}

/// The font base name for a text font family; other families name their
/// own font.
pub open spec fn base_font_name(family: Seq<char>) -> Seq<char> {
    if family == seq!['a', 'm', 's', 'r', 'm'] {
        seq!['A', 'M', 'S']
    } else if family == seq!['t', 'e', 'x', 't', 'r', 'm'] {
        seq!['M', 'a', 'i', 'n']
    } else if family == seq!['t', 'e', 'x', 't', 's', 'f'] {
        seq!['S', 'a', 'n', 's', 'S', 'e', 'r', 'i', 'f']
    } else if family == seq!['t', 'e', 'x', 't', 't', 't'] {
        seq!['T', 'y', 'p', 'e', 'w', 'r', 'i', 't', 'e', 'r']
    } else {
        family
    }
}

/// The styles part of a font name: bold italic, bold, or regular for every
/// other combination (an italic shape alone is not told apart).
pub open spec fn font_styles_name(w: FontWeight, s: FontShape) -> Seq<char> {
    if w == FontWeight::Textbf && s == FontShape::Textit {
        seq!['B', 'o', 'l', 'd', 'I', 't', 'a', 'l', 'i', 'c']
    } else if w == FontWeight::Textbf {
        seq!['B', 'o', 'l', 'd']
    } else {
        seq!['R', 'e', 'g', 'u', 'l', 'a', 'r']
    }
}

fn size_change_classes(old_size: usize, new_size: usize) -> (v: Vec<String>)
    ensures
        v@.len() == 3,
        v@[0]@ == seq!['s', 'i', 'z', 'i', 'n', 'g'],
        v@[1]@ == seq!['r', 'e', 's', 'e', 't', '-', 's', 'i', 'z', 'e'] + decimal(old_size as nat),
        v@[2]@ == seq!['s', 'i', 'z', 'e'] + decimal(new_size as nat),
{
    proof {
        reveal_strlit("sizing");
        reveal_strlit("reset-size");
        reveal_strlit("size");
        assert("sizing"@ =~= seq!['s', 'i', 'z', 'i', 'n', 'g']);
        assert("reset-size"@ =~= seq!['r', 'e', 's', 'e', 't', '-', 's', 'i', 'z', 'e']);
        assert("size"@ =~= seq!['s', 'i', 'z', 'e']);
    }
    let mut v = Vec::new();
    v.push(string_of("sizing"));
    v.push(prefixed_decimal("reset-size", old_size));
    v.push(prefixed_decimal("size", new_size));
    v
}

/// Changing to a style gives options in that style whose size is the text
/// size seen in that style.
pub proof fn law_having_style_sets_style(o: Options, s: StyleInterface)
    requires
        o.wf(),
        s.wf(),
        s == spec_style(s.id),
        o.size == spec_size_at_style(o.textSize, o.style),
    ensures
        ({
            let r = if o.style == s { o } else {
                Options { style: s, size: spec_size_at_style(o.textSize, s), ..o }
            };
            r.style == s && r.size == spec_size_at_style(r.textSize, s) && r.textSize == o.textSize
        }),
{
}

} // verus!
