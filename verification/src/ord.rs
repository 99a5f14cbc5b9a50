use vstd::prelude::*;
use crate::font_types::{font_weight_name, font_shape_name};
use crate::macros::strings_view;
use crate::options::{Options, base_font_name, font_styles_name};
use crate::parse_node::{Mode, ParseNode};
use crate::tables::{pairs_view, spec_lookup, lookup};
use crate::text::{string_of, str_eq};

verus! {

/// The font commands and the fonts they draw symbols in.
pub open spec fn spec_font_map() -> Seq<(Seq<char>, Seq<char>)> {
    seq![
        ("mathbf"@, "Main-Bold"@),
        ("mathrm"@, "Main-Regular"@),
        ("textit"@, "Main-Italic"@),
        ("mathit"@, "Main-Italic"@),
        ("mathnormal"@, "Math-Italic"@),
        ("mathbb"@, "AMS-Regular"@),
        ("mathcal"@, "Caligraphic-Regular"@),
        ("mathfrak"@, "Fraktur-Regular"@),
        ("mathscr"@, "Script-Regular"@),
        ("mathsf"@, "SansSerif-Regular"@),
        ("mathtt"@, "Typewriter-Regular"@),
    ]
}

fn font_map() -> (v: Vec<(&'static str, &'static str)>)
    ensures
        pairs_view(v@) == spec_font_map(),
{
    let v = vec![
        ("mathbf", "Main-Bold"),
        ("mathrm", "Main-Regular"),
        ("textit", "Main-Italic"),
        ("mathit", "Main-Italic"),
        ("mathnormal", "Math-Italic"),
        ("mathbb", "AMS-Regular"),
        ("mathcal", "Caligraphic-Regular"),
        ("mathfrak", "Fraktur-Regular"),
        ("mathscr", "Script-Regular"),
        ("mathsf", "SansSerif-Regular"),
        ("mathtt", "Typewriter-Regular"),
    ];
    assert(pairs_view(v@) =~= spec_font_map());
    v
}

/// The symbol to draw for an ordinary: its text and mode, the font to look
/// its glyph up in, and the classes of its node.
#[derive(Debug)]
pub struct OrdSymbol {
    pub text: String,
    pub mode: Mode,
    pub font_name: String,
    pub classes: Vec<String>,
}

/// The text and mode of a node that `make_ord` draws.
pub open spec fn ord_text(n: ParseNode) -> (Seq<char>, Mode) {
    match n {
        ParseNode::Spacing { mode, text } => (text@, mode),
        ParseNode::MathOrd { mode, text } => (text@, mode),
        ParseNode::TextOrd { mode, text } => (text@, mode),
        _ => (Seq::empty(), Mode::Math),
    }
}

/// The font and extra classes that `\boldsymbol` gives: the bold italic
/// math font for a symbol other than a text ordinary that has a glyph there,
/// else the bold main font.
pub open spec fn bold_choice(node_type: Seq<char>, fonts: Seq<Seq<char>>) -> (Seq<char>, Seq<Seq<char>>) {
    if node_type != "textord"@ && fonts.contains("Math-BoldItalic"@) {
        ("Math-BoldItalic"@, seq!["boldsymbol"@])
    } else {
        ("Main-Bold"@, seq!["mathbf"@])
    }
}

/// The font and extra classes that the font command in force asks for, if
/// any.
pub open spec fn font_command_choice(font: Seq<char>, node_type: Seq<char>, fonts: Seq<Seq<char>>) -> Option<(Seq<char>, Seq<Seq<char>>)> {
    if font.len() == 0 {
        None
    } else if font == "boldsymbol"@ {
        Some(bold_choice(node_type, fonts))
    } else {
        match spec_lookup(spec_font_map(), font) {
            Some(name) => Some((name, seq![font])),
            None => None,
        }
    }
}

/// Whether the font command's choice holds a glyph for the symbol, so that
/// it is used.
pub open spec fn command_font_used(font: Seq<char>, node_type: Seq<char>, fonts: Seq<Seq<char>>) -> bool {
    font_command_choice(font, node_type, fonts) matches Some((name, _)) && fonts.contains(name)
}

/// The font and extra classes of an ordinary in the default fonts: math
/// italic for a math ordinary; for a text ordinary the text font of its
/// symbol's font (AMS, main, or another one) in the weight and shape in
/// force.
pub open spec fn default_choice(node_type: Seq<char>, symbol_font: Seq<char>, o: Options) -> (Seq<char>, Seq<Seq<char>>) {
    let weight = font_weight_name(o.font_weight);
    let shape = font_shape_name(o.font_shape);
    let styles = seq!['-'] + font_styles_name(o.font_weight, o.font_shape);
    if node_type == "mathord"@ {
        ("Math-Italic"@, seq!["mathnormal"@])
    } else if symbol_font == "ams"@ {
        (base_font_name("amsrm"@) + styles, seq!["amsrm"@, weight, shape])
    } else if symbol_font == "main"@ {
        (base_font_name("textrm"@) + styles, seq![weight, shape])
    } else {
        let name = base_font_name(symbol_font) + styles;
        (name, seq![name, weight, shape])
    }
}

/// What `make_ord` draws: the font command's choice where it holds a glyph
/// for the symbol, else the default fonts; the classes begin with `mord`.
pub open spec fn spec_make_ord(font: Seq<char>, node_type: Seq<char>, fonts: Seq<Seq<char>>, symbol_font: Seq<char>, o: Options) -> (Seq<char>, Seq<Seq<char>>) {
    let c = if command_font_used(font, node_type, fonts) {
        font_command_choice(font, node_type, fonts).unwrap()
    } else {
        default_choice(node_type, symbol_font, o)
    };
    (c.0, seq!["mord"@] + c.1)
}

fn contains_string(v: &Vec<String>, s: &str) -> (b: bool)
    ensures
        b == strings_view(v@).contains(s@),
{
    let mut i: usize = 0;
    while i < v.len()
        invariant
            i <= v@.len(),
            forall|j: int| 0 <= j < i ==> v@[j]@ != s@,
        decreases v.len() - i,
    {
        if str_eq(v[i].as_str(), s) {
            assert(strings_view(v@)[i as int] == s@);
            return true;
        }
        i = i + 1;
    }
    proof {
        if strings_view(v@).contains(s@) {
            let j = choose|j: int| 0 <= j < strings_view(v@).len() && strings_view(v@)[j] == s@;
            assert(v@[j]@ == s@);
        }
    }
    false
}

fn single_string(a: &str) -> (r: Vec<String>)
    ensures
        strings_view(r@) == seq![a@],
{
    let mut r: Vec<String> = Vec::new();
    r.push(string_of(a));
    assert(strings_view(r@) =~= seq![a@]);
    r
}

/// Makes a math or text ordinary (or a spacing symbol) in the right font:
/// the font that the font command in force (`options.font`) names, where
/// it has a glyph for the symbol, else math italic for a math ordinary, or
/// the text font of the symbol's font for a text ordinary. `fonts_with_glyph`
/// are the fonts whose metrics hold the symbol's text in its mode, and
/// `symbol_font` the font of the symbol's entry in the symbol table (`main`,
/// `ams`, or the name of another font). The node must be a spacing, math or
/// text ordinary, a font command other than `boldsymbol` must be one of the
/// font map, and where no font command is used the type must be `mathord`
/// or `textord`.
pub fn make_ord(group: &ParseNode, options: &Options, node_type: &str, fonts_with_glyph: &Vec<String>, symbol_font: &str) -> (r: OrdSymbol)
    requires
        group is Spacing || group is MathOrd || group is TextOrd,
        options.font@.len() > 0 && options.font@ != "boldsymbol"@ ==> spec_lookup(spec_font_map(), options.font@) is Some,
        !command_font_used(options.font@, node_type@, strings_view(fonts_with_glyph@))
            ==> (node_type@ == "mathord"@ || node_type@ == "textord"@),
    ensures
        r.text@ == ord_text(*group).0,
        r.mode == ord_text(*group).1,
        r.font_name@ == spec_make_ord(options.font@, node_type@, strings_view(fonts_with_glyph@), symbol_font@, *options).0,
        strings_view(r.classes@) == spec_make_ord(options.font@, node_type@, strings_view(fonts_with_glyph@), symbol_font@, *options).1,
{
    let ghost fonts = strings_view(fonts_with_glyph@);
    let (text, mode) = match group {
        ParseNode::Spacing { mode, text } => (string_of(text.as_str()), *mode),
        ParseNode::MathOrd { mode, text } => (string_of(text.as_str()), *mode),
        ParseNode::TextOrd { mode, text } => (string_of(text.as_str()), *mode),
        _ => (string_of(""), Mode::Math),
    };
    proof {
        reveal_strlit("");
        assert(""@ =~= Seq::<char>::empty());
    }
    let mut classes: Vec<String> = Vec::new();
    classes.push(string_of("mord"));
    let ghost mord = strings_view(classes@);
    assert(mord =~= seq!["mord"@]);
    let font = options.font.as_str();
    if !str_eq(font, "") {
        assert(options.font@.len() > 0) by {
            if options.font@.len() == 0 {
                assert(options.font@ =~= ""@);
            }
        }
        let (font_name, font_classes): (String, Vec<String>) = if str_eq(font, "boldsymbol") {
            if !str_eq(node_type, "textord") && contains_string(fonts_with_glyph, "Math-BoldItalic") {
                (string_of("Math-BoldItalic"), single_string("boldsymbol"))
            } else {
                (string_of("Main-Bold"), single_string("mathbf"))
            }
        } else {
            let table = font_map();
            let name = lookup(&table, font).unwrap();
            let mut fc: Vec<String> = Vec::new();
            fc.push(string_of(font));
            assert(strings_view(fc@) =~= seq![options.font@]);
            (string_of(name), fc)
        };
        assert(font_command_choice(options.font@, node_type@, fonts) == Some((font_name@, strings_view(font_classes@))));
        if contains_string(fonts_with_glyph, font_name.as_str()) {
            let mut all = classes;
            let ghost fcv = strings_view(font_classes@);
            let mut rest = font_classes;
            all.append(&mut rest);
            assert(strings_view(all@) =~= seq!["mord"@] + fcv);
            return OrdSymbol { text, mode, font_name, classes: all };
        }
    }
    assert(!command_font_used(options.font@, node_type@, fonts));
    let ghost dc = default_choice(node_type@, symbol_font@, *options);
    assert(spec_make_ord(options.font@, node_type@, fonts, symbol_font@, *options).1 == seq!["mord"@] + dc.1);
    let weight = options.fontWeight();
    let shape = options.fontShape();
    if str_eq(node_type, "mathord") {
        classes.push(string_of("mathnormal"));
        assert(strings_view(classes@) =~= seq!["mord"@] + seq!["mathnormal"@]);
        OrdSymbol { text, mode, font_name: string_of("Math-Italic"), classes }
    } else if str_eq(symbol_font, "ams") {
        let font_name = options.retrieve_text_font_name(string_of("amsrm"));
        classes.push(string_of("amsrm"));
        classes.push(weight);
        classes.push(shape);
        assert(strings_view(classes@) =~= seq!["mord"@] + seq!["amsrm"@, font_weight_name(options.font_weight), font_shape_name(options.font_shape)]);
        OrdSymbol { text, mode, font_name, classes }
    } else if str_eq(symbol_font, "main") {
        let font_name = options.retrieve_text_font_name(string_of("textrm"));
        classes.push(weight);
        classes.push(shape);
        assert(strings_view(classes@) =~= seq!["mord"@] + seq![font_weight_name(options.font_weight), font_shape_name(options.font_shape)]);
        OrdSymbol { text, mode, font_name, classes }
    } else {
        let font_name = options.retrieve_text_font_name(string_of(symbol_font));
        assert(font_name@ =~= dc.0);
        classes.push(string_of(font_name.as_str()));
        classes.push(weight);
        classes.push(shape);
        assert(strings_view(classes@) =~= seq!["mord"@] + seq![font_name@, font_weight_name(options.font_weight), font_shape_name(options.font_shape)]);
        OrdSymbol { text, mode, font_name, classes }
    }
}

} // verus!
