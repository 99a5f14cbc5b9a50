use vstd::prelude::*;
use crate::options::{Options, BASESIZE};
use crate::text::decimal;
use crate::text::{str_eq, string_of, strings_seq};

verus! {

/// Which side of a tree to look at.
#[derive(Debug, Clone, Copy, PartialEq, Eq, Structural)]
pub enum Side {
    Left,
    Right,
}

/// The math class of an atom, as the first class of its node names it.
#[derive(Debug, Clone, Copy, PartialEq, Eq, Structural)]
pub enum DomType {
    Mord,
    Mop,
    Mbin,
    Mrel,
    Mopen,
    Mclose,
    Mpunct,
    Minner,
}

/// Whether an expression is a real group (nothing is added on either side),
/// a partial group (such as one made by `\color`), or the whole formula.
#[derive(Debug, Clone, Copy, PartialEq, Eq, Structural)]
pub enum IsRealGroup {
    T,
    F,
    Root,
}

/// The class name of a math class.
pub open spec fn dom_type_name(t: DomType) -> Seq<char> {
    match t {
        DomType::Mord => "mord"@,
        DomType::Mop => "mop"@,
        DomType::Mbin => "mbin"@,
        DomType::Mrel => "mrel"@,
        DomType::Mopen => "mopen"@,
        DomType::Mclose => "mclose"@,
        DomType::Mpunct => "mpunct"@,
        DomType::Minner => "minner"@,
    }
}

/// The math class that a class name names, if any.
pub open spec fn spec_parse_dom_type(s: Seq<char>) -> Option<DomType> {
    if s == "mord"@ { Some(DomType::Mord) }
    else if s == "mop"@ { Some(DomType::Mop) }
    else if s == "mbin"@ { Some(DomType::Mbin) }
    else if s == "mrel"@ { Some(DomType::Mrel) }
    else if s == "mopen"@ { Some(DomType::Mopen) }
    else if s == "mclose"@ { Some(DomType::Mclose) }
    else if s == "mpunct"@ { Some(DomType::Mpunct) }
    else if s == "minner"@ { Some(DomType::Minner) }
    else { None }
}

impl DomType {
    /// The class name of the math class.
    pub fn as_str(&self) -> (s: &'static str)
        ensures
            s@ == dom_type_name(*self),
    {
        match self {
            DomType::Mord => "mord",
            DomType::Mop => "mop",
            DomType::Mbin => "mbin",
            DomType::Mrel => "mrel",
            DomType::Mopen => "mopen",
            DomType::Mclose => "mclose",
            DomType::Mpunct => "mpunct",
            DomType::Minner => "minner",
        }
    }

    /// The math class a class name names; any other name is refused.
    pub fn from_name(s: &str) -> (r: Result<DomType, ()>)
        ensures
            match r {
                Ok(t) => spec_parse_dom_type(s@) == Some(t),
                Err(_) => spec_parse_dom_type(s@) is None,
            },
    {
        if str_eq(s, "mord") { Ok(DomType::Mord) }
        else if str_eq(s, "mop") { Ok(DomType::Mop) }
        else if str_eq(s, "mbin") { Ok(DomType::Mbin) }
        else if str_eq(s, "mrel") { Ok(DomType::Mrel) }
        else if str_eq(s, "mopen") { Ok(DomType::Mopen) }
        else if str_eq(s, "mclose") { Ok(DomType::Mclose) }
        else if str_eq(s, "mpunct") { Ok(DomType::Mpunct) }
        else if str_eq(s, "minner") { Ok(DomType::Minner) }
        else { Err(()) }
    }
}

impl core::str::FromStr for DomType {
    type Err = ();

    fn from_str(s: &str) -> (r: Result<DomType, ()>)
        ensures
            match r {
                Ok(t) => spec_parse_dom_type(s@) == Some(t),
                Err(_) => spec_parse_dom_type(s@) is None,
            },
    {
        DomType::from_name(s)
    }
}

/// Reading back the class name of a math class gives that class.
pub proof fn law_dom_type_names_round_trip(t: DomType)
    ensures
        spec_parse_dom_type(dom_type_name(t)) == Some(t),
{
    reveal_strlit("mord");
    reveal_strlit("mop");
    reveal_strlit("mbin");
    reveal_strlit("mrel");
    reveal_strlit("mopen");
    reveal_strlit("mclose");
    reveal_strlit("mpunct");
    reveal_strlit("minner");
    let names = seq!["mord"@, "mop"@, "mbin"@, "mrel"@, "mopen"@, "mclose"@, "mpunct"@, "minner"@];
    assert(forall|i: int, j: int| 0 <= i < j < 8 ==> names[i] != names[j]) by {
        assert forall|i: int, j: int| 0 <= i < j < 8 implies names[i] != names[j] by {
            if names[i].len() == names[j].len() {
                assert(names[i][1] != names[j][1]);
            }
        }
    }
    match t {
        DomType::Mord => {},
        DomType::Mop => { assert(names[1] != names[0]); },
        DomType::Mbin => { assert(names[2] != names[0] && names[2] != names[1]); },
        DomType::Mrel => { assert(names[3] != names[0] && names[3] != names[1] && names[3] != names[2]); },
        DomType::Mopen => { assert(names[4] != names[0] && names[4] != names[1] && names[4] != names[2] && names[4] != names[3]); },
        DomType::Mclose => { assert(names[5] != names[0] && names[5] != names[1] && names[5] != names[2] && names[5] != names[3] && names[5] != names[4]); },
        DomType::Mpunct => { assert(names[6] != names[0] && names[6] != names[1] && names[6] != names[2] && names[6] != names[3] && names[6] != names[4] && names[6] != names[5]); },
        DomType::Minner => { assert(names[7] != names[0] && names[7] != names[1] && names[7] != names[2] && names[7] != names[3] && names[7] != names[4] && names[7] != names[5] && names[7] != names[6]); },
    }
}

/// The kind of an HTML node of the output.
#[derive(Debug, Clone, Copy, PartialEq, Eq, Structural)]
pub enum HtmlKind {
    Span,
    Fragment,
    Anchor,
    Symbol,
    Other,
}

/// An HTML node of the output: its kind, its classes (the first one names
/// its math class), its children and its attributes.
#[derive(Debug)]
pub struct HtmlNode {
    pub kind: HtmlKind,
    pub classes: Vec<String>,
    pub children: Vec<HtmlNode>,
    pub attributes: Vec<(String, String)>,
}

/// Whether the node has the class.
pub open spec fn spec_has_class(n: HtmlNode, c: Seq<char>) -> bool {
    strings_seq(n.classes@).contains(c)
}

impl HtmlNode {
    /// Whether the node has the class.
    pub fn has_class(&self, c: &str) -> (b: bool)
        ensures
            b == spec_has_class(*self, c@),
    {
        let mut i: usize = 0;
        while i < self.classes.len()
            invariant
                i <= self.classes@.len(),
                forall|j: int| 0 <= j < i ==> self.classes@[j]@ != c@,
            decreases self.classes.len() - i,
        {
            if str_eq(self.classes[i].as_str(), c) {
                assert(strings_seq(self.classes@)[i as int] == c@);
                return true;
            }
            i = i + 1;
        }
        assert forall|j: int| 0 <= j < strings_seq(self.classes@).len() implies
            strings_seq(self.classes@)[j] != c@ by {}
        false
    }
}

/// A span with the classes and children.
pub fn make_span(classes: Vec<String>, children: Vec<HtmlNode>) -> (n: HtmlNode)
    ensures
        n == (HtmlNode { kind: HtmlKind::Span, classes, children, attributes: n.attributes }),
        n.attributes@.len() == 0,
{
    HtmlNode { kind: HtmlKind::Span, classes, children, attributes: Vec::new() }
}

/// A document fragment of the children.
pub fn make_fragment(children: Vec<HtmlNode>) -> (n: HtmlNode)
    ensures
        n.kind == HtmlKind::Fragment,
        n.classes@.len() == 0,
        n.children == children,
        n.attributes@.len() == 0,
{
    HtmlNode { kind: HtmlKind::Fragment, classes: Vec::new(), children, attributes: Vec::new() }
}

/// A link to `href` around the children.
pub fn make_anchor(href: String, classes: Vec<String>, children: Vec<HtmlNode>) -> (n: HtmlNode)
    ensures
        n.kind == HtmlKind::Anchor,
        n.classes == classes,
        n.children == children,
        n.attributes@.len() == 1,
        n.attributes@[0].0@ == "href"@,
        n.attributes@[0].1 == href,
{
    let mut attributes = Vec::new();
    attributes.push((string_of("href"), href));
    HtmlNode { kind: HtmlKind::Anchor, classes, children, attributes }
}

/// A document fragment wrapped in a span, so that classes and styles can be
/// applied; any other node as it is.
pub fn wrap_fragment(group: HtmlNode) -> (n: HtmlNode)
    ensures
        group.kind == HtmlKind::Fragment ==> n.kind == HtmlKind::Span && n.classes@.len() == 0
            && n.children@ == seq![group] && n.attributes@.len() == 0,
        group.kind != HtmlKind::Fragment ==> n == group,
{
    if group.kind == HtmlKind::Fragment {
        let mut children = Vec::new();
        children.push(group);
        make_span(Vec::new(), children)
    } else {
        group
    }
}

/// The classes that reset a size to the base size (none at the base size).
pub open spec fn base_sizing_class_names(size: usize) -> Seq<Seq<char>> {
    if size == BASESIZE {
        Seq::empty()
    } else {
        seq!["sizing"@, "reset-size"@ + decimal(size as nat), "size"@ + decimal(BASESIZE as nat)]
    }
}

/// An empty span that stands for a missing delimiter, reset to the base size.
pub fn make_null_delimiter(options: &Options, classes: Vec<String>) -> (n: HtmlNode)
    ensures
        n.kind == HtmlKind::Span,
        n.children@.len() == 0,
        strings_seq(n.classes@) == strings_seq(classes@).push("nulldelimiter"@)
            + base_sizing_class_names(options.size),
{
    let mut all = classes;
    all.push(string_of("nulldelimiter"));
    let mut more = options.base_sizing_classes();
    let ghost a = all@;
    let ghost m = more@;
    proof {
        reveal_strlit("sizing");
        reveal_strlit("reset-size");
        reveal_strlit("size");
        assert("sizing"@ =~= seq!['s', 'i', 'z', 'i', 'n', 'g']);
        assert("reset-size"@ =~= seq!['r', 'e', 's', 'e', 't', '-', 's', 'i', 'z', 'e']);
        assert("size"@ =~= seq!['s', 'i', 'z', 'e']);
        assert(strings_seq(m) =~= base_sizing_class_names(options.size));
    }
    all.append(&mut more);
    proof { assert(strings_seq(all@) =~= strings_seq(a) + strings_seq(m)); }
    make_span(all, Vec::new())
}

/// Whether a node is a partial group, which does not affect the spacing
/// around it: a fragment, a link, or an enclosing span.
pub open spec fn spec_check_partial_group(n: HtmlNode) -> bool {
    n.kind == HtmlKind::Fragment || n.kind == HtmlKind::Anchor
        || (n.kind == HtmlKind::Span && spec_has_class(n, "enclosing"@))
}

/// Whether a node is a partial group.
pub fn check_partial_group(node: &HtmlNode) -> (b: bool)
    ensures
        b == spec_check_partial_group(*node),
{
    node.kind == HtmlKind::Fragment || node.kind == HtmlKind::Anchor
        || (node.kind == HtmlKind::Span && node.has_class("enclosing"))
}

/// The outermost node on the given side: through partial groups with
/// children, to their first (left) or last (right) child.
pub open spec fn spec_outermost(n: HtmlNode, side: Side) -> HtmlNode
    decreases n,
{
    if spec_check_partial_group(n) && n.children@.len() > 0 {
        match side {
            Side::Right => spec_outermost(n.children@[n.children@.len() - 1], Side::Right),
            Side::Left => spec_outermost(n.children@[0], Side::Left),
        }
    } else {
        n
    }
}

/// The outermost node of a tree on the given side.
pub fn get_outermost_node(node: &HtmlNode, side: Side) -> (r: &HtmlNode)
    ensures
        *r == spec_outermost(*node, side),
    decreases node,
{
    if check_partial_group(node) && node.children.len() > 0 {
        match side {
            Side::Right => get_outermost_node(&node.children[node.children.len() - 1], Side::Right),
            Side::Left => get_outermost_node(&node.children[0], Side::Left),
        }
    } else {
        node
    }
}

/// The math class of a tree: that of its first class, looking at the
/// outermost node on the given side if a side is given.
pub open spec fn spec_type_of_dom_tree(n: HtmlNode, side: Option<Side>) -> Option<DomType> {
    let m = match side {
        Some(s) => spec_outermost(n, s),
        None => n,
    };
    if m.classes@.len() > 0 { spec_parse_dom_type(m.classes@[0]@) } else { spec_parse_dom_type(Seq::empty()) }
}

/// The math class of a tree.
pub fn get_type_of_dom_tree(node: &HtmlNode, side: Option<Side>) -> (r: Option<DomType>)
    ensures
        r == spec_type_of_dom_tree(*node, side),
{
    let m = match side {
        Some(s) => get_outermost_node(node, s),
        None => node,
    };
    proof { reveal_strlit(""); assert(""@ =~= Seq::<char>::empty()); }
    let parsed = if m.classes.len() > 0 { DomType::from_name(m.classes[0].as_str()) } else { DomType::from_name("") };
    match parsed {
        Ok(t) => Some(t),
        Err(_) => None,
    }
}


/// An operator after which a line may break: a binary operator, a relation,
/// or a node that allows a break.
pub open spec fn is_break_op(n: HtmlNode) -> bool {
    spec_has_class(n, "mbin"@) || spec_has_class(n, "mrel"@) || spec_has_class(n, "allowbreak"@)
}

/// Glue that stays on the line of the operator before it: space that is
/// not a new line.
pub open spec fn is_glue(n: HtmlNode) -> bool {
    spec_has_class(n, "mspace"@) && !spec_has_class(n, "newline"@)
}

/// Where the run of glue that starts at `k` ends.
pub open spec fn glue_end(e: Seq<HtmlNode>, k: int) -> int
    decreases e.len() - k,
{
    if 0 <= k < e.len() && is_glue(e[k]) { glue_end(e, k + 1) } else { k }
}

pub proof fn lemma_glue_end(e: Seq<HtmlNode>, k: int)
    requires
        0 <= k,
    ensures
        k <= glue_end(e, k),
        k <= e.len() ==> glue_end(e, k) <= e.len(),
        forall|j: int| k <= j < glue_end(e, k) ==> is_glue(#[trigger] e[j]),
    decreases e.len() - k,
{
    if 0 <= k < e.len() && is_glue(e[k]) {
        lemma_glue_end(e, k + 1);
    }
}

/// Whether one of `e[a..b]` forbids a break.
pub open spec fn has_nobreak(e: Seq<HtmlNode>, a: int, b: int) -> bool {
    exists|k: int| a <= k < b && spec_has_class(#[trigger] e[k], "nobreak"@)
}

/// The line of the parts so far, if there are any.
pub open spec fn flush(parts: Seq<HtmlNode>) -> Seq<(bool, Seq<HtmlNode>)> {
    if parts.len() > 0 { seq![(true, parts)] } else { Seq::empty() }
}

/// How a formula breaks into lines from position `i`, with `parts` on the
/// current line: each item is a line (`true`, its nodes) or a new-line node
/// kept as it is (`false`). A line may end after a binary operator or a
/// relation and the glue after it, unless that glue holds `\nobreak`; a
/// new-line node ends the line before it.
pub open spec fn lines_from(e: Seq<HtmlNode>, i: int, parts: Seq<HtmlNode>) -> Seq<(bool, Seq<HtmlNode>)>
    decreases e.len() - i,
{
    if i < 0 || i >= e.len() {
        flush(parts)
    } else if is_break_op(e[i]) {
        let j = glue_end(e, i + 1);
        proof { lemma_glue_end(e, i + 1); }
        let p2 = parts.push(e[i]) + e.subrange(i + 1, j);
        if has_nobreak(e, i + 1, j) {
            lines_from(e, j, p2)
        } else {
            seq![(true, p2)] + lines_from(e, j, Seq::empty())
        }
    } else if spec_has_class(e[i], "newline"@) {
        flush(parts) + seq![(false, seq![e[i]])] + lines_from(e, i + 1, Seq::empty())
    } else {
        lines_from(e, i + 1, parts.push(e[i]))
    }
}

/// The nodes of the items, in order.
pub open spec fn flatten_lines(items: Seq<(bool, Seq<HtmlNode>)>) -> Seq<HtmlNode>
    decreases items.len(),
{
    if items.len() == 0 { Seq::empty() } else { flatten_lines(items.drop_last()) + items.last().1 }
}

proof fn lemma_flatten_append(a: Seq<(bool, Seq<HtmlNode>)>, b: Seq<(bool, Seq<HtmlNode>)>)
    ensures
        flatten_lines(a + b) == flatten_lines(a) + flatten_lines(b),
    decreases b.len(),
{
    if b.len() == 0 {
        assert(a + b =~= a);
        assert(flatten_lines(a) + Seq::<HtmlNode>::empty() =~= flatten_lines(a));
    } else {
        lemma_flatten_append(a, b.drop_last());
        assert((a + b).drop_last() =~= a + b.drop_last());
        assert(flatten_lines(a) + flatten_lines(b) =~= flatten_lines(a) + flatten_lines(b.drop_last()) + b.last().1);
    }
}

proof fn lemma_lines_from_flatten(e: Seq<HtmlNode>, i: int, parts: Seq<HtmlNode>)
    requires
        0 <= i <= e.len(),
    ensures
        flatten_lines(lines_from(e, i, parts)) == parts + e.skip(i),
    decreases e.len() - i,
{
    assert(flatten_lines(Seq::<(bool, Seq<HtmlNode>)>::empty()) == Seq::<HtmlNode>::empty());
    assert(flatten_lines(flush(parts)) =~= parts) by {
        if parts.len() > 0 {
            assert(flush(parts).drop_last() =~= Seq::<(bool, Seq<HtmlNode>)>::empty());
        }
    }
    if i >= e.len() {
        assert(e.skip(i) =~= Seq::<HtmlNode>::empty());
        assert(parts + e.skip(i) =~= parts);
    } else if is_break_op(e[i]) {
        let j = glue_end(e, i + 1);
        lemma_glue_end(e, i + 1);
        let p2 = parts.push(e[i]) + e.subrange(i + 1, j);
        assert(p2 + e.skip(j) =~= parts + e.skip(i));
        if has_nobreak(e, i + 1, j) {
            lemma_lines_from_flatten(e, j, p2);
        } else {
            lemma_lines_from_flatten(e, j, Seq::empty());
            let head = seq![(true, p2)];
            lemma_flatten_append(head, lines_from(e, j, Seq::empty()));
            assert(head.drop_last() =~= Seq::<(bool, Seq<HtmlNode>)>::empty());
            assert(Seq::<HtmlNode>::empty() + e.skip(j) =~= e.skip(j));
        }
    } else if spec_has_class(e[i], "newline"@) {
        lemma_lines_from_flatten(e, i + 1, Seq::empty());
        let single = seq![(false, seq![e[i]])];
        lemma_flatten_append(flush(parts) + single, lines_from(e, i + 1, Seq::empty()));
        lemma_flatten_append(flush(parts), single);
        assert(single.drop_last() =~= Seq::<(bool, Seq<HtmlNode>)>::empty());
        assert(Seq::<HtmlNode>::empty() + e.skip(i + 1) =~= e.skip(i + 1));
        assert(parts + seq![e[i]] + e.skip(i + 1) =~= parts + e.skip(i));
    } else {
        lemma_lines_from_flatten(e, i + 1, parts.push(e[i]));
        assert(parts.push(e[i]) + e.skip(i + 1) =~= parts + e.skip(i));
    }
}

/// Breaking a formula into lines keeps every node, in order: the lines and
/// the new-line nodes between them give back the formula.
pub proof fn law_lines_give_back_the_formula(e: Seq<HtmlNode>)
    ensures
        flatten_lines(lines_from(e, 0, Seq::empty())) == e,
{
    lemma_lines_from_flatten(e, 0, Seq::empty());
    assert(Seq::<HtmlNode>::empty() + e.skip(0) =~= e);
}

/// Whether `n` is the output node of a line item: a span of class `base`
/// around the line's nodes, or the new-line node itself.
pub open spec fn is_line_node(n: HtmlNode, item: (bool, Seq<HtmlNode>)) -> bool {
    if item.0 {
        n.kind == HtmlKind::Span && strings_seq(n.classes@) == seq!["base"@]
            && n.children@ == item.1 && n.attributes@.len() == 0
    } else {
        item.1.len() == 1 && n == item.1[0]
    }
}

pub open spec fn are_line_nodes(out: Seq<HtmlNode>, items: Seq<(bool, Seq<HtmlNode>)>) -> bool {
    out.len() == items.len() && forall|k: int| 0 <= k < out.len() ==> is_line_node(#[trigger] out[k], items[k])
}

/// A span of class `base` around a line's nodes (an unbreakable unit).
fn base_span(parts: Vec<HtmlNode>) -> (n: HtmlNode)
    ensures
        is_line_node(n, (true, parts@)),
{
    let mut classes = Vec::new();
    classes.push(string_of("base"));
    proof { assert(strings_seq(classes@) =~= seq!["base"@]); }
    make_span(classes, parts)
}

/// Breaks a formula (its top-level nodes) into unbreakable lines.
pub fn split_lines(expression: Vec<HtmlNode>) -> (r: Vec<HtmlNode>)
    ensures
        are_line_nodes(r@, lines_from(expression@, 0, Seq::empty())),
{
    let ghost e = expression@;
    let total = expression.len();
    let mut rest = expression;
    let mut parts: Vec<HtmlNode> = Vec::new();
    let mut out: Vec<HtmlNode> = Vec::new();
    let ghost mut done: Seq<(bool, Seq<HtmlNode>)> = Seq::empty();
    let mut i: usize = 0;
    assert(e.skip(0) =~= e);
    while rest.len() > 0
        invariant
            e.len() == total,
            i + rest@.len() == e.len(),
            rest@ == e.skip(i as int),
            are_line_nodes(out@, done),
            done + lines_from(e, i as int, parts@) == lines_from(e, 0, Seq::empty()),
        decreases rest.len(),
    {
        let n = rest.remove(0);
        assert(n == e[i as int]);
        assert(rest@ =~= e.skip(i + 1));
        let i0 = i;
        i = i + 1;
        if n.has_class("mbin") || n.has_class("mrel") || n.has_class("allowbreak") {
            let ghost p0 = parts@;
            parts.push(n);
            let mut nobreak = false;
            proof { lemma_glue_end(e, i0 + 1); }
            assert(e.subrange(i0 + 1, i as int) =~= Seq::<HtmlNode>::empty());
            while rest.len() > 0 && rest[0].has_class("mspace") && !rest[0].has_class("newline")
                invariant
                    e.len() == total,
                    i0 + 1 <= i <= e.len(),
                    i + rest@.len() == e.len(),
                    rest@ == e.skip(i as int),
                    glue_end(e, i as int) == glue_end(e, i0 + 1),
                    parts@ == p0.push(e[i0 as int]) + e.subrange(i0 + 1, i as int),
                    nobreak == has_nobreak(e, i0 + 1, i as int),
                decreases rest.len(),
            {
                assert(rest@[0] == e[i as int]);
                let g = rest.remove(0);
                assert(rest@ =~= e.skip(i + 1));
                let nb = g.has_class("nobreak");
                let ghost before = parts@;
                parts.push(g);
                proof {
                    assert(parts@ =~= p0.push(e[i0 as int]) + e.subrange(i0 + 1, i + 1));
                    if nb {
                        assert(spec_has_class(e[i as int], "nobreak"@));
                    }
                    if has_nobreak(e, i0 + 1, i + 1) && !nb {
                        let k = choose|k: int| i0 + 1 <= k < i + 1 && spec_has_class(#[trigger] e[k], "nobreak"@);
                        assert(k < i);
                    }
                }
                nobreak = nobreak || nb;
                i = i + 1;
            }
            proof {
                if rest.len() > 0 {
                    assert(rest@[0] == e[i as int]);
                }
                assert(glue_end(e, i as int) == i);
            }
            if !nobreak {
                let mut line: Vec<HtmlNode> = Vec::new();
                std::mem::swap(&mut line, &mut parts);
                let ghost item = (true, line@);
                out.push(base_span(line));
                proof {
                    assert(parts@ =~= Seq::<HtmlNode>::empty());
                    assert(lines_from(e, i0 as int, p0) == seq![item] + lines_from(e, i as int, Seq::empty()));
                    assert(done.push(item) + lines_from(e, i as int, parts@) =~= done + lines_from(e, i0 as int, p0));
                    done = done.push(item);
                }
            }
        } else if n.has_class("newline") {
            let ghost p0 = parts@;
            let ghost fl = flush(p0);
            if parts.len() > 0 {
                let mut line: Vec<HtmlNode> = Vec::new();
                std::mem::swap(&mut line, &mut parts);
                out.push(base_span(line));
            }
            let ghost item = (false, seq![n]);
            out.push(n);
            proof {
                assert(parts@ =~= Seq::<HtmlNode>::empty());
                assert(lines_from(e, i0 as int, p0) == fl + seq![item] + lines_from(e, i as int, Seq::empty()));
                assert(done + fl + seq![item] + lines_from(e, i as int, parts@) =~= done + lines_from(e, i0 as int, p0));
                done = done + fl + seq![item];
            }
        } else {
            parts.push(n);
        }
    }
    let ghost p0 = parts@;
    if parts.len() > 0 {
        out.push(base_span(parts));
    }
    proof {
        assert(lines_from(e, i as int, p0) == flush(p0));
        done = done + flush(p0);
        assert(done =~= lines_from(e, 0, Seq::empty()));
    }
    out
}

/// The HTML of a formula, from its top-level nodes (and those of its tag,
/// if it has one): the formula broken into lines, then the tag (or an
/// equation number that an environment put last), in a span of class
/// `katex-html` hidden from screen readers.
pub fn build_html(expression: Vec<HtmlNode>, tag: Option<Vec<HtmlNode>>) -> (r: HtmlNode)
    ensures
        r.kind == HtmlKind::Span,
        strings_seq(r.classes@) == seq!["katex-html"@],
        r.attributes@.len() == 1 && r.attributes@[0].0@ == "aria-hidden"@ && r.attributes@[0].1@ == "true"@,
        ({
            let has_eqn = expression@.len() == 2 && spec_has_class(expression@[1], "tag"@);
            let body = if has_eqn { expression@.take(1) } else { expression@ };
            let items = lines_from(body, 0, Seq::empty());
            &&& are_line_nodes(r.children@.take(items.len() as int), items)
            &&& match tag {
                Some(t) => r.children@.len() == items.len() + 1 && ({
                    let c = r.children@[items.len() as int];
                    c.kind == HtmlKind::Span && strings_seq(c.classes@) == seq!["tag"@] && c.children@ == t@
                }),
                None => if has_eqn {
                    r.children@.len() == items.len() + 1 && r.children@[items.len() as int] == expression@[1]
                } else {
                    r.children@.len() == items.len()
                },
            }
        }),
{
    let ghost e0 = expression@;
    let mut expression = expression;
    let mut eqn_num: Option<HtmlNode> = None;
    if expression.len() == 2 && expression[1].has_class("tag") {
        eqn_num = expression.pop();
        assert(expression@ =~= e0.take(1));
    }
    let lines = split_lines(expression);
    let ghost n_items = lines@.len();
    let mut children = lines;
    match tag {
        Some(t) => {
            let mut tc = base_span(t);
            let mut classes = Vec::new();
            classes.push(string_of("tag"));
            proof { assert(strings_seq(classes@) =~= seq!["tag"@]); }
            tc.classes = classes;
            children.push(tc);
        },
        None => match eqn_num {
            Some(n) => children.push(n),
            None => {},
        },
    }
    assert(children@.take(n_items as int) =~= lines@);
    let mut classes = Vec::new();
    classes.push(string_of("katex-html"));
    proof { assert(strings_seq(classes@) =~= seq!["katex-html"@]); }
    let mut attributes = Vec::new();
    attributes.push((string_of("aria-hidden"), string_of("true")));
    HtmlNode { kind: HtmlKind::Span, classes, children, attributes }
}


/// The classes of a formula in display mode.
pub open spec fn display_classes(leqno: bool, fleqn: bool) -> Seq<Seq<char>> {
    seq!["katex-display"@] + (if leqno { seq!["leqno"@] } else { Seq::empty() })
        + (if fleqn { seq!["fleqn"@] } else { Seq::empty() })
}

/// In display mode, the node in a span of class `katex-display` (with
/// `leqno` and `fleqn` as the settings ask); else the node as it is.
pub fn display_wrap(node: HtmlNode, settings: &crate::setting::Settings) -> (r: HtmlNode)
    ensures
        settings.display_mode ==> r.kind == HtmlKind::Span
            && strings_seq(r.classes@) == display_classes(settings.leqno, settings.fleqn)
            && r.children@ == seq![node] && r.attributes@.len() == 0,
        !settings.display_mode ==> r == node,
{
    if settings.get_display_mode() {
        let mut classes = Vec::new();
        classes.push(string_of("katex-display"));
        if settings.leqno {
            classes.push(string_of("leqno"));
        }
        if settings.fleqn {
            classes.push(string_of("fleqn"));
        }
        assert(strings_seq(classes@) =~= display_classes(settings.leqno, settings.fleqn));
        let mut children = Vec::new();
        children.push(node);
        make_span(classes, children)
    } else {
        node
    }
}

/// The HTML tree of a formula: its HTML in a span of class `katex`, wrapped
/// for display mode.
pub fn build_html_tree(expression: Vec<HtmlNode>, tag: Option<Vec<HtmlNode>>, settings: &crate::setting::Settings) -> (r: HtmlNode)
    ensures
        ({
            let katex = if settings.display_mode { r.children@[0] } else { r };
            &&& settings.display_mode ==> r.kind == HtmlKind::Span && r.children@.len() == 1
                && strings_seq(r.classes@) == display_classes(settings.leqno, settings.fleqn)
            &&& katex.kind == HtmlKind::Span && strings_seq(katex.classes@) == seq!["katex"@]
            &&& katex.children@.len() == 1
            &&& strings_seq(katex.children@[0].classes@) == seq!["katex-html"@]
        }),
{
    let html = build_html(expression, tag);
    let mut classes = Vec::new();
    classes.push(string_of("katex"));
    assert(strings_seq(classes@) =~= seq!["katex"@]);
    let mut children = Vec::new();
    children.push(html);
    let katex = make_span(classes, children);
    display_wrap(katex, settings)
}


proof fn lemma_glue_stops_before(e: Seq<HtmlNode>, x: int, i: int)
    requires
        0 <= x <= i < e.len(),
        !spec_has_class(e[i], "mspace"@),
    ensures
        glue_end(e, x) <= i,
    decreases i - x,
{
    if x < i && is_glue(e[x]) {
        lemma_glue_stops_before(e, x + 1, i);
    }
}

proof fn lemma_flatten_single(x: (bool, Seq<HtmlNode>))
    ensures
        flatten_lines(seq![x]) == x.1,
{
    let one = seq![x];
    assert(one.len() == 1);
    assert(one.drop_last() =~= Seq::<(bool, Seq<HtmlNode>)>::empty());
    assert(one.last() == x);
    assert(flatten_lines(Seq::<(bool, Seq<HtmlNode>)>::empty()) == Seq::<HtmlNode>::empty());
    assert(flatten_lines(one) == flatten_lines(one.drop_last()) + one.last().1);
    assert(Seq::<HtmlNode>::empty() + x.1 =~= x.1);
}

proof fn lemma_flatten_take(a: Seq<(bool, Seq<HtmlNode>)>, b: Seq<(bool, Seq<HtmlNode>)>, k: int)
    requires
        0 <= k <= b.len(),
    ensures
        flatten_lines((a + b).take(a.len() + k)) == flatten_lines(a) + flatten_lines(b.take(k)),
{
    assert((a + b).take(a.len() + k) =~= a + b.take(k));
    lemma_flatten_append(a, b.take(k));
}

proof fn lemma_line_ends_after(e: Seq<HtmlNode>, s: int, parts: Seq<HtmlNode>, i: int)
    requires
        0 <= s <= i < e.len(),
        is_break_op(e[i]),
        !spec_has_class(e[i], "mspace"@),
        !has_nobreak(e, i + 1, glue_end(e, i + 1)),
    ensures
        exists|k: int| 0 <= k <= lines_from(e, s, parts).len()
            && #[trigger] flatten_lines(lines_from(e, s, parts).take(k)) == parts + e.subrange(s, glue_end(e, i + 1)),
    decreases i - s,
{
    let big_j = glue_end(e, i + 1);
    lemma_glue_end(e, i + 1);
    let items = lines_from(e, s, parts);
    if s == i {
        let p2 = parts.push(e[i]) + e.subrange(i + 1, big_j);
        let rest = lines_from(e, big_j, Seq::empty());
        assert(items == seq![(true, p2)] + rest);
        assert(items.take(1) =~= seq![(true, p2)]);
        lemma_flatten_single((true, p2));
        assert(p2 =~= parts + e.subrange(s, big_j));
        assert(flatten_lines(items.take(1)) == parts + e.subrange(s, big_j));
    } else if is_break_op(e[s]) {
        let j = glue_end(e, s + 1);
        lemma_glue_end(e, s + 1);
        lemma_glue_stops_before(e, s + 1, i);
        let p2 = parts.push(e[s]) + e.subrange(s + 1, j);
        if has_nobreak(e, s + 1, j) {
            lemma_line_ends_after(e, j, p2, i);
            let k = choose|k: int| 0 <= k <= lines_from(e, j, p2).len()
                && #[trigger] flatten_lines(lines_from(e, j, p2).take(k)) == p2 + e.subrange(j, big_j);
            assert(p2 + e.subrange(j, big_j) =~= parts + e.subrange(s, big_j));
            assert(flatten_lines(items.take(k)) == parts + e.subrange(s, big_j));
        } else {
            let rest = lines_from(e, j, Seq::empty());
            lemma_line_ends_after(e, j, Seq::empty(), i);
            let k = choose|k: int| 0 <= k <= rest.len()
                && #[trigger] flatten_lines(rest.take(k)) == Seq::<HtmlNode>::empty() + e.subrange(j, big_j);
            let head = seq![(true, p2)];
            assert(items == head + rest);
            lemma_flatten_take(head, rest, k);
            lemma_flatten_single((true, p2));
            assert(p2 + (Seq::<HtmlNode>::empty() + e.subrange(j, big_j)) =~= parts + e.subrange(s, big_j));
            assert(flatten_lines(items.take(head.len() + k)) == parts + e.subrange(s, big_j));
        }
    } else if spec_has_class(e[s], "newline"@) {
        let rest = lines_from(e, s + 1, Seq::empty());
        lemma_line_ends_after(e, s + 1, Seq::empty(), i);
        let k = choose|k: int| 0 <= k <= rest.len()
            && #[trigger] flatten_lines(rest.take(k)) == Seq::<HtmlNode>::empty() + e.subrange(s + 1, big_j);
        let head = flush(parts) + seq![(false, seq![e[s]])];
        assert(items == head + rest);
        lemma_flatten_take(head, rest, k);
        lemma_flatten_append(flush(parts), seq![(false, seq![e[s]])]);
        lemma_flatten_single((false, seq![e[s]]));
        if parts.len() > 0 {
            lemma_flatten_single((true, parts));
        } else {
            assert(flush(parts) =~= Seq::<(bool, Seq<HtmlNode>)>::empty());
            assert(parts =~= Seq::<HtmlNode>::empty());
        }
        assert(flatten_lines(flush(parts)) =~= parts);
        assert(parts + seq![e[s]] + (Seq::<HtmlNode>::empty() + e.subrange(s + 1, big_j)) =~= parts + e.subrange(s, big_j));
        assert(flatten_lines(items.take(head.len() + k)) == parts + e.subrange(s, big_j));
    } else {
        lemma_line_ends_after(e, s + 1, parts.push(e[s]), i);
        let k = choose|k: int| 0 <= k <= lines_from(e, s + 1, parts.push(e[s])).len()
            && #[trigger] flatten_lines(lines_from(e, s + 1, parts.push(e[s])).take(k)) == parts.push(e[s]) + e.subrange(s + 1, big_j);
        assert(parts.push(e[s]) + e.subrange(s + 1, big_j) =~= parts + e.subrange(s, big_j));
        assert(flatten_lines(items.take(k)) == parts + e.subrange(s, big_j));
    }
}

/// A line may end after every binary operator (`mbin`), relation (`mrel`)
/// or node that allows a break (`allowbreak`): where the space after such an
/// operator holds no `nobreak`, the formula's lines so far end exactly after
/// the operator and the space that follows it.
pub proof fn law_lines_end_after_operators(e: Seq<HtmlNode>, i: int)
    requires
        0 <= i < e.len(),
        spec_has_class(e[i], "mbin"@) || spec_has_class(e[i], "mrel"@) || spec_has_class(e[i], "allowbreak"@),
        !spec_has_class(e[i], "mspace"@),
        !has_nobreak(e, i + 1, glue_end(e, i + 1)),
    ensures
        exists|k: int| 0 <= k <= lines_from(e, 0, Seq::empty()).len()
            && #[trigger] flatten_lines(lines_from(e, 0, Seq::empty()).take(k)) == e.take(glue_end(e, i + 1)),
{
    lemma_line_ends_after(e, 0, Seq::empty(), i);
    lemma_glue_end(e, i + 1);
    assert(Seq::<HtmlNode>::empty() + e.subrange(0, glue_end(e, i + 1)) =~= e.take(glue_end(e, i + 1)));
}

} // verus!
