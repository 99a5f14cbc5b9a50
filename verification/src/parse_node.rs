use vstd::prelude::*;

verus! {

/// Whether the parser is in math or in text mode.
#[derive(Debug, Clone, Copy, PartialEq, Eq, Structural)]
pub enum Mode {
    Math,
    Text,
}

/// The family of an atom symbol.
#[derive(Debug, Clone, Copy, PartialEq, Eq, Structural)]
pub enum AtomFamily {
    Bin,
    Close,
    Inner,
    Open,
    Punct,
    Rel,
}

/// A style named in a parse node.
#[derive(Debug, Clone, Copy, PartialEq, Eq, Structural)]
pub enum StyleStr {
    Display,
    Text,
    Script,
    Scriptscript,
}

/// How the columns of an array are separated.
#[derive(Debug, Clone, Copy, PartialEq, Eq, Structural)]
pub enum ColSeparationType {
    Align,
    AlignAt,
    Gather,
    Small,
    CD,
}

/// A column of an array with its alignment and the gaps around it.
#[derive(Debug)]
pub struct Align {
    pub align: String,
    pub pregap: Option<String>,
    pub postgap: Option<String>,
}

/// A vertical separator between array columns.
#[derive(Debug)]
pub struct Separator {
    pub separator: String,
}

/// One entry of an array's column specification.
#[derive(Debug)]
pub enum AlignSpec {
    Align(Align),
    Separator(Separator),
}

/// A node of the parse tree.
#[derive(Debug)]
pub enum ParseNode {
    OrdGroup { mode: Mode, body: Vec<ParseNode>, semisimple: bool },
    TextOrd { mode: Mode, text: String },
    MathOrd { mode: Mode, text: String },
    Atom { mode: Mode, family: AtomFamily, text: String },
    AccentToken { mode: Mode, text: String },
    OpToken { mode: Mode, text: String },
    Spacing { mode: Mode, text: String },
    ColorToken { mode: Mode, color: String },
    Color { mode: Mode, color: String, body: Vec<ParseNode> },
    Url { mode: Mode, url: String },
    Op {
        mode: Mode,
        limits: bool,
        always_handle_sup_sub: bool,
        suppress_base_shift: bool,
        parent_is_sup_sub: bool,
        symbol: bool,
        name: Option<String>,
        body: Option<Vec<ParseNode>>,
    },
    Mclass { mode: Mode, mclass: String, body: Vec<ParseNode>, is_character_box: bool },
    Font { mode: Mode, font: String, body: Box<ParseNode> },
    Enclose {
        mode: Mode,
        label: String,
        background_color: Option<String>,
        border_color: Option<String>,
        body: Box<ParseNode>,
    },
    Genfrac {
        mode: Mode,
        continued: bool,
        numer: Box<ParseNode>,
        denom: Box<ParseNode>,
        has_bar_line: bool,
        left_delim: Option<String>,
        right_delim: Option<String>,
        size: String,
    },
    Hbox { mode: Mode, body: Vec<ParseNode> },
    Href { mode: Mode, href: String, body: Vec<ParseNode> },
    Text { mode: Mode, font: Option<String>, body: Vec<ParseNode> },
    Styling { mode: Mode, style: StyleStr, body: Vec<ParseNode> },
    AccentUnder {
        mode: Mode,
        label: String,
        is_stretchy: bool,
        is_shifty: bool,
        base: Box<ParseNode>,
    },
    Delimsizing { mode: Mode, size: usize, mclass: String, delim: String },
    LeftRightRight { mode: Mode, delim: String, color: Option<String> },
    LeftRight {
        mode: Mode,
        body: Vec<ParseNode>,
        left: String,
        right: String,
        right_color: Option<String>,
    },
    Middle { mode: Mode, delim: String },
    Internal { mode: Mode },
    Array(ArrayNode),
    Accent { mode: Mode, label: String, is_stretchy: bool, is_shifty: bool, base: Box<ParseNode> },
    XArrow { mode: Mode, label: String, body: Box<ParseNode>, below: Option<Box<ParseNode>> },
    CdLabel { mode: Mode, side: String, label: Box<ParseNode> },
    CdLabelParent { mode: Mode, fragment: Box<ParseNode> },
    Cr { mode: Mode, new_line: bool, size: Option<Measurement> },
    Environment { mode: Mode, name: String, name_group: Box<ParseNode> },
    HorizBrace { mode: Mode, label: String, is_over: bool, base: Box<ParseNode> },
    Html { mode: Mode, attributes: Vec<(String, String)>, body: Vec<ParseNode> },
    HtmlMathml { mode: Mode, html: Vec<ParseNode>, mathml: Vec<ParseNode> },
    Kern { mode: Mode, dimension: Measurement },
    Lap { mode: Mode, alignment: String, body: Box<ParseNode> },
    MathChoice {
        mode: Mode,
        display: Vec<ParseNode>,
        text: Vec<ParseNode>,
        script: Vec<ParseNode>,
        scriptscript: Vec<ParseNode>,
    },
    OperatorName {
        mode: Mode,
        body: Vec<ParseNode>,
        always_handle_sup_sub: bool,
        limits: bool,
        parent_is_sup_sub: bool,
    },
    Overline { mode: Mode, body: Box<ParseNode> },
    Phantom { mode: Mode, body: Vec<ParseNode> },
    HPhantom { mode: Mode, body: Box<ParseNode> },
    VPhantom { mode: Mode, body: Box<ParseNode> },
    Pmb { mode: Mode, mclass: String, body: Vec<ParseNode> },
    Raisebox { mode: Mode, dy: Measurement, body: Box<ParseNode> },
    Rule { mode: Mode, shift: Option<Measurement>, width: Measurement, height: Measurement },
    Sizing { mode: Mode, size: usize, body: Vec<ParseNode> },
    Size { mode: Mode, value: Measurement, is_blank: bool },
    Raw { mode: Mode, string: String },
    Verb { mode: Mode, body: String, star: bool },
    SupSub { mode: Mode, base: Option<Box<ParseNode>>, sup: Option<Box<ParseNode>>, sub: Option<Box<ParseNode>> },
}

/// A length as written: a signed decimal number (kept as its text) and a
/// two-letter unit.
#[derive(Debug)]
pub struct Measurement {
    pub number: String,
    pub unit: String,
}

impl Measurement {
    /// A copy of the measurement.
    pub fn duplicate(&self) -> (r: Measurement)
        ensures
            r.number@ == self.number@,
            r.unit@ == self.unit@,
    {
        Measurement { number: self.number.clone(), unit: self.unit.clone() }
    }
}

/// The tag of an array row: automatic numbering on or off, or the body of
/// a `\tag`.
#[derive(Debug)]
pub enum ArrayTag {
    Auto(bool),
    Manual(Vec<ParseNode>),
}

/// An array: rows of cells, with the column specification and layout flags.
/// `array_stretch` is the row stretch as written (a decimal number);
/// `row_gaps` the extra space after each row; `h_lines_before_row` the
/// horizontal lines before each row and after the last (`true` for a dashed
/// one); `tags` the row tags, where the environment has them.
#[derive(Debug)]
pub struct ArrayNode {
    pub mode: Mode,
    pub body: Vec<Vec<ParseNode>>,
    pub cols: Vec<AlignSpec>,
    pub col_separation_type: Option<ColSeparationType>,
    pub add_jot: bool,
    pub hskip_before_and_after: bool,
    pub leqno: bool,
    pub array_stretch: String,
    pub row_gaps: Vec<Option<Measurement>>,
    pub h_lines_before_row: Vec<Vec<bool>>,
    pub tags: Option<Vec<ArrayTag>>,
}

/// An error in the input, with a message for the user.
#[derive(Debug)]
pub struct ParseError {
    pub message: String,
}

/// Each character of a text followed by a combining low line (U+0332),
/// which underlines it.
pub open spec fn underlined(t: Seq<char>) -> Seq<char>
    decreases t.len(),
{
    if t.len() == 0 {
        Seq::empty()
    } else {
        underlined(t.drop_last()) + seq![t.last(), '\u{332}']
    }
}

/// The message of a parse error. Where the located text runs from `start`
/// to `end` (`start <= end`), the message says where it is (at the end of
/// the input, or at its 1-based position) and shows it underlined between
/// up to 15 characters of the input on either side, with an ellipsis where
/// the input goes on further.
pub open spec fn error_text(message: Seq<char>, input: Seq<char>, start: int, end: int) -> Seq<char> {
    let head = "KaTeX parse error: "@ + message;
    if start <= end {
        let at = if start == input.len() {
            " at end of input: "@
        } else {
            " at position "@ + crate::text::decimal((start + 1) as nat) + ": "@
        };
        let left = if start > 15 { "\u{2026} "@ + input.subrange(start - 15, start) } else { input.take(start) };
        let right = if end + 15 < input.len() { input.subrange(end, end + 15) + " ..."@ } else { input.skip(end) };
        head + at + left + underlined(input.subrange(start, end)) + right
    } else {
        head
    }
}

fn push_range(s: &mut String, chars: &Vec<char>, lo: usize, hi: usize)
    requires
        lo <= hi <= chars@.len(),
    ensures
        final(s)@ == old(s)@ + chars@.subrange(lo as int, hi as int),
{
    let mut i = lo;
    while i < hi
        invariant
            lo <= i <= hi <= chars@.len(),
            s@ == old(s)@ + chars@.subrange(lo as int, i as int),
        decreases hi - i,
    {
        crate::text::push_char(s, chars[i]);
        i = i + 1;
        assert(s@ =~= old(s)@ + chars@.subrange(lo as int, i as int));
    }
}

fn push_underlined(s: &mut String, chars: &Vec<char>, lo: usize, hi: usize)
    requires
        lo <= hi <= chars@.len(),
    ensures
        final(s)@ == old(s)@ + underlined(chars@.subrange(lo as int, hi as int)),
{
    let mut i = lo;
    assert(chars@.subrange(lo as int, lo as int) =~= Seq::<char>::empty());
    while i < hi
        invariant
            lo <= i <= hi <= chars@.len(),
            s@ == old(s)@ + underlined(chars@.subrange(lo as int, i as int)),
        decreases hi - i,
    {
        crate::text::push_char(s, chars[i]);
        crate::text::push_char(s, '\u{332}');
        assert(chars@.subrange(lo as int, i + 1).drop_last() =~= chars@.subrange(lo as int, i as int));
        i = i + 1;
        assert(s@ =~= old(s)@ + underlined(chars@.subrange(lo as int, i as int)));
    }
}

/// The error for a message about the input, located at the characters
/// from `start` to `end` of `input` where `start <= end` (see `error_text`).
pub fn parse_error(message: &str, input: &str, start: usize, end: usize) -> (e: ParseError)
    requires
        start <= end ==> end <= input@.len(),
    ensures
        e.message@ == error_text(message@, input@, start as int, end as int),
{
    let mut msg = crate::text::concat_str("KaTeX parse error: ", message);
    if start <= end {
        let chars = crate::text::str_chars(input);
        let n = chars.len();
        if start == n {
            msg.append(" at end of input: ");
        } else {
            msg.append(" at position ");
            crate::text::push_decimal(&mut msg, start + 1);
            msg.append(": ");
        }
        if start > 15 {
            msg.append("\u{2026} ");
            push_range(&mut msg, &chars, start - 15, start);
        } else {
            push_range(&mut msg, &chars, 0, start);
            assert(chars@.subrange(0, start as int) =~= input@.take(start as int));
        }
        push_underlined(&mut msg, &chars, start, end);
        if n >= 15 && end < n - 15 {
            push_range(&mut msg, &chars, end, end + 15);
            msg.append(" ...");
        } else {
            push_range(&mut msg, &chars, end, n);
            assert(chars@.subrange(end as int, n as int) =~= input@.skip(end as int));
        }
        assert(msg@ =~= error_text(message@, input@, start as int, end as int));
    }
    ParseError { message: msg }
}

/// Whether a node is one of the symbol kinds that carry a text.
pub open spec fn is_symbol_node(n: ParseNode) -> bool {
    match n {
        ParseNode::Atom { .. } => true,
        ParseNode::AccentToken { .. } => true,
        ParseNode::MathOrd { .. } => true,
        ParseNode::OpToken { .. } => true,
        ParseNode::Spacing { .. } => true,
        ParseNode::TextOrd { .. } => true,
        _ => false,
    }
}

/// The text of a symbol node.
pub open spec fn symbol_text(n: ParseNode) -> Seq<char> {
    match n {
        ParseNode::Atom { text, .. } => text@,
        ParseNode::AccentToken { text, .. } => text@,
        ParseNode::MathOrd { text, .. } => text@,
        ParseNode::OpToken { text, .. } => text@,
        ParseNode::Spacing { text, .. } => text@,
        ParseNode::TextOrd { text, .. } => text@,
        _ => Seq::empty(),
    }
}

/// The argument as a list: the body of a group, or the node alone.
pub open spec fn spec_ord_argument(arg: ParseNode) -> Seq<ParseNode> {
    match arg {
        ParseNode::OrdGroup { body, .. } => body@,
        _ => seq![arg],
    }
}

/// The argument as a list: the body of a group, or the node alone.
pub fn ord_argument(arg: ParseNode) -> (r: Vec<ParseNode>)
    ensures
        r@ == spec_ord_argument(arg),
{
    match arg {
        ParseNode::OrdGroup { body, .. } => body,
        other => {
            let mut v = Vec::new();
            v.push(other);
            v
        },
    }
}

/// The argument unwrapped from a group of exactly one node.
pub open spec fn spec_normalize_argument(arg: ParseNode) -> ParseNode {
    match arg {
        ParseNode::OrdGroup { body, .. } => if body@.len() == 1 { body@[0] } else { arg },
        _ => arg,
    }
}

/// The argument unwrapped from a group of exactly one node.
pub fn normalize_argument(arg: ParseNode) -> (r: ParseNode)
    ensures
        r == spec_normalize_argument(arg),
{
    match arg {
        ParseNode::OrdGroup { mode, mut body, semisimple } => {
            if body.len() == 1 {
                body.pop().unwrap()
            } else {
                ParseNode::OrdGroup { mode, body, semisimple }
            }
        },
        other => other,
    }
}

/// The node that stands for a group of one node (looking through single-node
/// groups, single-node color changes and fonts).
pub open spec fn base_elem(n: ParseNode) -> ParseNode
    decreases n,
{
    match n {
        ParseNode::OrdGroup { body, .. } => if body@.len() == 1 {
            base_elem(body@[0])
        } else {
            n
        },
        ParseNode::Color { body, .. } => if body@.len() == 1 {
            base_elem(body@[0])
        } else {
            n
        },
        ParseNode::Font { body, .. } => base_elem(*body),
        _ => n,
    }
}

/// Whether the node's base element is a single character.
pub open spec fn spec_is_character_box(n: ParseNode) -> bool {
    match base_elem(n) {
        ParseNode::MathOrd { .. } => true,
        ParseNode::TextOrd { .. } => true,
        ParseNode::Atom { .. } => true,
        _ => false,
    }
}

/// Whether the node's base element is a single character.
pub fn is_character_box(n: &ParseNode) -> (b: bool)
    ensures
        b == spec_is_character_box(*n),
    decreases n,
{
    match n {
        ParseNode::OrdGroup { body, .. } => {
            if body.len() == 1 {
                is_character_box(&body[0])
            } else {
                false
            }
        },
        ParseNode::Color { body, .. } => {
            if body.len() == 1 {
                is_character_box(&body[0])
            } else {
                false
            }
        },
        ParseNode::Font { body, .. } => is_character_box(body),
        ParseNode::MathOrd { .. } => true,
        ParseNode::TextOrd { .. } => true,
        ParseNode::Atom { .. } => true,
        _ => false,
    }
}



/// The measurement of a size node.
pub open spec fn size_value(n: ParseNode) -> Measurement {
    match n {
        ParseNode::Size { value, .. } => value,
        _ => Measurement { number: arbitrary(), unit: arbitrary() },
    }
}

/// The measurement of a size node, moved out of it.
pub fn take_size(n: ParseNode) -> (m: Measurement)
    requires
        n is Size,
    ensures
        m == size_value(n),
{
    match n {
        ParseNode::Size { value, .. } => value,
        _ => Measurement { number: String::new(), unit: String::new() },
    }
}

/// The node that shows an unsupported command: the command's characters as
/// text-mode characters, in text, in the error color.
pub open spec fn is_unsupported_cmd_node(r: ParseNode, m: Mode, error_color: Seq<char>, cmd: Seq<char>) -> bool {
    r matches ParseNode::Color { mode, color, body }
        && mode == m
        && color@ == error_color
        && body@.len() == 1
        && (body@[0] matches ParseNode::Text { mode: tmode, font: None, body: chars }
            && tmode == m
            && chars@.len() == cmd.len()
            && forall|i: int| 0 <= i < chars@.len() ==>
                (#[trigger] chars@[i] matches ParseNode::TextOrd { mode: cmode, text }
                    && cmode == Mode::Text && text@ == seq![cmd[i]]))
}

/// The node that shows an unsupported command in the error color.
pub fn format_unsupported_cmd(mode: Mode, error_color: &String, text: &str) -> (r: ParseNode)
    ensures
        is_unsupported_cmd_node(r, mode, error_color@, text@),
{
    let cs = crate::text::str_chars(text);
    let mut chars: Vec<ParseNode> = Vec::new();
    let mut i: usize = 0;
    while i < cs.len()
        invariant
            cs@ == text@,
            i <= cs@.len(),
            chars@.len() == i,
            forall|j: int| 0 <= j < i ==>
                (#[trigger] chars@[j] matches ParseNode::TextOrd { mode: cmode, text: t }
                    && cmode == Mode::Text && t@ == seq![cs@[j]]),
        decreases cs.len() - i,
    {
        let mut t = String::new();
        crate::text::push_char(&mut t, cs[i]);
        assert(t@ =~= seq![cs@[i as int]]);
        chars.push(ParseNode::TextOrd { mode: Mode::Text, text: t });
        i = i + 1;
    }
    let mut body = Vec::new();
    body.push(ParseNode::Text { mode, font: None, body: chars });
    ParseNode::Color { mode, color: error_color.clone(), body }
}


/// Whether a node is one of the symbol kinds that carry a text.
pub fn is_symbol(n: &ParseNode) -> (b: bool)
    ensures
        b == is_symbol_node(*n),
{
    match n {
        ParseNode::Atom { .. } => true,
        ParseNode::AccentToken { .. } => true,
        ParseNode::MathOrd { .. } => true,
        ParseNode::OpToken { .. } => true,
        ParseNode::Spacing { .. } => true,
        ParseNode::TextOrd { .. } => true,
        _ => false,
    }
}

/// The text of a symbol node.
pub fn symbol_text_of(n: &ParseNode) -> (s: String)
    ensures
        s@ == symbol_text(*n),
{
    match n {
        ParseNode::Atom { text, .. } => text.clone(),
        ParseNode::AccentToken { text, .. } => text.clone(),
        ParseNode::MathOrd { text, .. } => text.clone(),
        ParseNode::OpToken { text, .. } => text.clone(),
        ParseNode::Spacing { text, .. } => text.clone(),
        ParseNode::TextOrd { text, .. } => text.clone(),
        _ => String::new(),
    }
}

} // verus!
