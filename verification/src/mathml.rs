use vstd::prelude::*;
use crate::text::{string_of, str_eq};
use crate::options::Options;
use crate::font_types::{FontShape, FontWeight};
use crate::parse_node::ParseNode;

verus! {

/// The MathML element names.
#[derive(Debug, Clone, Copy, PartialEq, Eq, Structural)]
pub enum MathNodeType {
    Math,
    Annotation,
    Semantics,
    Mtext,
    Mn,
    Mo,
    Mi,
    Mspace,
    Mover,
    Munder,
    Munderover,
    Msup,
    Msub,
    Msubsup,
    Mfrac,
    Mroot,
    Msqrt,
    Mtable,
    Mtr,
    Mtd,
    Mlabeledtr,
    Mrow,
    Menclose,
    Mstyle,
    Mpadded,
    Mphantom,
    Mglyph,
}

/// A MathML node: an element with children and attributes, or text.
#[derive(Debug)]
pub enum MathDomNode {
    Node(MathNode),
    Text(String),
}

/// A MathML element.
#[derive(Debug)]
pub struct MathNode {
    pub node_type: MathNodeType,
    pub children: Vec<MathDomNode>,
    pub attributes: Vec<(String, String)>,
}

impl MathNode {
    /// An element with the children and no attributes.
    pub fn new(node_type: MathNodeType, children: Vec<MathDomNode>) -> (n: MathNode)
        ensures
            n.node_type == node_type,
            n.children == children,
            n.attributes@.len() == 0,
    {
        MathNode { node_type, children, attributes: Vec::new() }
    }

    /// Adds an attribute.
    pub fn set_attribute(&mut self, name: &str, value: &str)
        ensures
            final(self).node_type == old(self).node_type,
            final(self).children == old(self).children,
            final(self).attributes@.len() == old(self).attributes@.len() + 1,
            final(self).attributes@.take(old(self).attributes@.len() as int) == old(self).attributes@,
            final(self).attributes@.last().0@ == name@,
            final(self).attributes@.last().1@ == value@,
    {
        self.attributes.push((string_of(name), string_of(value)));
        assert(self.attributes@.take(old(self).attributes@.len() as int) =~= old(self).attributes@);
    }
}

/// A row of nodes: the node alone where there is one, else an `mrow`
/// around them.
pub fn make_row(body: Vec<MathDomNode>) -> (r: MathDomNode)
    ensures
        body@.len() == 1 ==> r == body@[0],
        body@.len() != 1 ==> (r matches MathDomNode::Node(n) && n.node_type == MathNodeType::Mrow
            && n.children == body && n.attributes@.len() == 0),
{
    if body.len() == 1 {
        let mut body = body;
        body.pop().unwrap()
    } else {
        MathDomNode::Node(MathNode::new(MathNodeType::Mrow, body))
    }
}

/// The MathML `mathvariant` values.
#[derive(Debug, Clone, Copy, PartialEq, Eq, Structural)]
pub enum FontVariant {
    Bold,
    Italic,
    BoldItalic,
    DoubleStruck,
    Fraktur,
    Script,
    SansSerif,
    BoldSansSerif,
    SansSerifItalic,
    SansSerifBoldItalic,
    Monospace,
}

/// The variant that a `\text...` font asks for: monospace for `\texttt`;
/// sans-serif for `\textsf`, bold and italic as its weight and shape say;
/// otherwise bold, italic or both for `\textbf` and `\textit`; `None` where
/// none of these decides.
pub open spec fn text_font_variant(o: Options) -> Option<FontVariant> {
    let it = o.font_shape == FontShape::Textit;
    let bf = o.font_weight == FontWeight::Textbf;
    if o.fontFamily@ == "texttt"@ {
        Some(FontVariant::Monospace)
    } else if o.fontFamily@ == "textsf"@ {
        Some(if it && bf { FontVariant::SansSerifBoldItalic } else if it { FontVariant::SansSerifItalic }
            else if bf { FontVariant::BoldSansSerif } else { FontVariant::SansSerif })
    } else if it && bf {
        Some(FontVariant::BoldItalic)
    } else if it {
        Some(FontVariant::Italic)
    } else if bf {
        Some(FontVariant::Bold)
    } else {
        None
    }
}

/// The variant of a math font command's font, where its name decides it.
pub open spec fn math_font_variant(font: Seq<char>) -> Option<FontVariant> {
    if font == "mathit"@ { Some(FontVariant::Italic) }
    else if font == "boldsymbol"@ { Some(FontVariant::BoldItalic) }
    else if font == "mathbf"@ { Some(FontVariant::Bold) }
    else if font == "mathbb"@ { Some(FontVariant::DoubleStruck) }
    else if font == "mathfrak"@ { Some(FontVariant::Fraktur) }
    else if font == "mathscr"@ || font == "mathcal"@ { Some(FontVariant::Script) }
    else if font == "mathsf"@ { Some(FontVariant::SansSerif) }
    else if font == "mathtt"@ { Some(FontVariant::Monospace) }
    else { None }
}

/// The text of a symbol node (an atom, accent, math ordinary, operator or
/// spacing).
pub open spec fn symbol_text(g: ParseNode) -> Option<Seq<char>> {
    match g {
        ParseNode::Atom { text, .. } => Some(text@),
        ParseNode::AccentToken { text, .. } => Some(text@),
        ParseNode::MathOrd { text, .. } => Some(text@),
        ParseNode::OpToken { text, .. } => Some(text@),
        ParseNode::Spacing { text, .. } => Some(text@),
        _ => None,
    }
}

/// How the MathML variant of a symbol is found: decided here, or by the
/// tables of the font's symbols and metrics.
#[derive(Debug, Clone, Copy, PartialEq, Eq, Structural)]
pub enum VariantChoice {
    Decided(Option<FontVariant>),
    ByFontTables,
}

/// Whether the choice of a variant reads the symbol's text: when neither a
/// `\text...` font nor an empty or `mathnormal` font decides it first.
pub open spec fn reads_symbol(o: Options) -> bool {
    text_font_variant(o) is None && !(o.font@.len() == 0 || o.font@ == "mathnormal"@)
}

/// The MathML variant of a symbol node under `options`: a `\text...` font
/// decides first; with no font or `mathnormal`, none; a math font command
/// whose name fixes it decides next; `\imath` and `\jmath` get none; any
/// other symbol is left to the font's symbol and metric tables.
pub fn get_variant(group: &ParseNode, options: &Options) -> (r: VariantChoice)
    requires
        reads_symbol(*options) ==> symbol_text(*group) is Some,
    ensures
        r == (if text_font_variant(*options) is Some {
            VariantChoice::Decided(text_font_variant(*options))
        } else if options.font@.len() == 0 || options.font@ == "mathnormal"@ {
            VariantChoice::Decided(None)
        } else if math_font_variant(options.font@) is Some {
            VariantChoice::Decided(math_font_variant(options.font@))
        } else if symbol_text(*group) == Some("\\imath"@) || symbol_text(*group) == Some("\\jmath"@) {
            VariantChoice::Decided(None)
        } else {
            VariantChoice::ByFontTables
        }),
{
    proof {
        reveal_strlit("texttt");
        reveal_strlit("textsf");
        reveal_strlit("mathnormal");
    }
    let it = options.font_shape == FontShape::Textit;
    let bf = options.font_weight == FontWeight::Textbf;
    if str_eq(options.fontFamily.as_str(), "texttt") {
        return VariantChoice::Decided(Some(FontVariant::Monospace));
    } else if str_eq(options.fontFamily.as_str(), "textsf") {
        let v = if it && bf { FontVariant::SansSerifBoldItalic } else if it { FontVariant::SansSerifItalic }
            else if bf { FontVariant::BoldSansSerif } else { FontVariant::SansSerif };
        return VariantChoice::Decided(Some(v));
    } else if it && bf {
        return VariantChoice::Decided(Some(FontVariant::BoldItalic));
    } else if it {
        return VariantChoice::Decided(Some(FontVariant::Italic));
    } else if bf {
        return VariantChoice::Decided(Some(FontVariant::Bold));
    }
    let font = options.font.as_str();
    if str_eq(font, "") || str_eq(font, "mathnormal") {
        proof {
            reveal_strlit("");
            if font@ == ""@ {
                assert(font@.len() == 0);
            }
        }
        return VariantChoice::Decided(None);
    }
    proof {
        reveal_strlit("");
        assert(options.font@.len() != 0) by {
            if options.font@.len() == 0 {
                assert(options.font@ =~= ""@);
            }
        }
    }
    let text = match group {
        ParseNode::Atom { text, .. } => text,
        ParseNode::AccentToken { text, .. } => text,
        ParseNode::MathOrd { text, .. } => text,
        ParseNode::OpToken { text, .. } => text,
        ParseNode::Spacing { text, .. } => text,
        _ => vstd::pervasive::unreached(),
    };
    proof {
        reveal_strlit("mathit");
        reveal_strlit("boldsymbol");
        reveal_strlit("mathbf");
        reveal_strlit("mathbb");
        reveal_strlit("mathfrak");
        reveal_strlit("mathscr");
        reveal_strlit("mathcal");
        reveal_strlit("mathsf");
        reveal_strlit("mathtt");
        reveal_strlit("\\imath");
        reveal_strlit("\\jmath");
    }
    if str_eq(font, "mathit") {
        VariantChoice::Decided(Some(FontVariant::Italic))
    } else if str_eq(font, "boldsymbol") {
        VariantChoice::Decided(Some(FontVariant::BoldItalic))
    } else if str_eq(font, "mathbf") {
        VariantChoice::Decided(Some(FontVariant::Bold))
    } else if str_eq(font, "mathbb") {
        VariantChoice::Decided(Some(FontVariant::DoubleStruck))
    } else if str_eq(font, "mathfrak") {
        VariantChoice::Decided(Some(FontVariant::Fraktur))
    } else if str_eq(font, "mathscr") || str_eq(font, "mathcal") {
        VariantChoice::Decided(Some(FontVariant::Script))
    } else if str_eq(font, "mathsf") {
        VariantChoice::Decided(Some(FontVariant::SansSerif))
    } else if str_eq(font, "mathtt") {
        VariantChoice::Decided(Some(FontVariant::Monospace))
    } else if str_eq(text.as_str(), "\\imath") || str_eq(text.as_str(), "\\jmath") {
        VariantChoice::Decided(None)
    } else {
        VariantChoice::ByFontTables
    }
}

} // verus!
