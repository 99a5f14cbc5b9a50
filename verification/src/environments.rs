use vstd::prelude::*;
use crate::functions::FunctionContext;
use crate::functions::char_code::{is_text_group, group_text};
use crate::gullet::{Gullet, spec_future, skip_spaces};
use crate::macros::TokenView;
use crate::parse_node::{
    ParseNode, ParseError, Mode, StyleStr, Align, Separator, AlignSpec, ColSeparationType, ArrayNode,
    is_symbol_node, symbol_text,
};
use crate::setting::Settings;
use crate::parser::{Parser, same_env};
use crate::parse_expr::Parsed;
use crate::array_parse::{ArrayShape, shape_of, spec_parse_array, parse_array, rows_view, hlines_view, cells_styled, lemma_parse_array_styled, RowsView};
use crate::node_view::{NodeView, nview, nview_seq, lemma_nview_seq_len};
use crate::namespace::spec_get;
use crate::text::{
    seq_contains, contains_str, starts_with, seq_starts_with, str_eq, string_of, concat_str,
    decimal, push_decimal, parse_unsigned, parses_unsigned, digits_value, unsigned_digits,
};

verus! {

/// An AMS environment may only stand in display mode; the parser checks
/// that before it reads one.
pub fn validate_ams_environment_context(settings: &Settings, env_name: &String)
    requires
        settings.display_mode,
{
}

/// Whether an environment numbers its equations by itself: not the
/// `..ed` forms and not the starred ones.
pub fn get_auto_tag(name: &str) -> (b: bool)
    ensures
        b == (!seq_contains(name@, "ed"@) && !seq_contains(name@, "*"@)),
{
    if contains_str(name, "ed") {
        return false;
    }
    if contains_str(name, "*") {
        return false;
    }
    true
}

/// The style of the cells of an array: display style for an environment
/// whose name begins with `d` (`darray`), else text style.
#[allow(non_snake_case)]
pub fn dCellStyle(env_name: &String) -> (s: StyleStr)
    ensures
        s == (if seq_starts_with(env_name@, "d"@) { StyleStr::Display } else { StyleStr::Text }),
{
    if starts_with(env_name.as_str(), "d") {
        StyleStr::Display
    } else {
        StyleStr::Text
    }
}

/// How the parser is to read the body of an array-like environment.
#[derive(Debug)]
pub struct ParseArrayArgs {
    pub hskip_before_and_after: bool,
    pub add_jot: bool,
    pub cols: Vec<AlignSpec>,
    pub col_separation_type: Option<ColSeparationType>,
    pub auto_tag: bool,
    pub single_row: bool,
    pub empty_single_row: bool,
    pub max_num_cols: Option<usize>,
    pub leqno: bool,
    pub array_stretch: Option<String>,
}

/// The column specification of `{array}`: a symbol, or the symbols of a group.
pub open spec fn col_spec_nodes(arg: ParseNode) -> Seq<ParseNode> {
    if is_symbol_node(arg) {
        seq![arg]
    } else {
        match arg {
            ParseNode::OrdGroup { body, .. } => body@,
            _ => Seq::empty(),
        }
    }
}

/// What a column letter of `{array}` stands for: an alignment (a piece of
/// `lcr`) or a separator (`|` or `:`); `None` for anything else.
pub open spec fn col_kind(t: Seq<char>) -> Option<bool> {
    if seq_contains("lcr"@, t) { Some(true) } else if t == "|"@ || t == ":"@ { Some(false) } else { None }
}

/// Whether a column entry is the one a column letter stands for.
pub open spec fn is_col_for(c: AlignSpec, t: Seq<char>) -> bool {
    if seq_contains("lcr"@, t) {
        c matches AlignSpec::Align(a) && a.align@ == t && a.pregap is None && a.postgap is None
    } else {
        c matches AlignSpec::Separator(s) && s.separator@ == t
    }
}

fn col_for(t: &str) -> (c: AlignSpec)
    requires
        col_kind(t@) is Some,
    ensures
        is_col_for(c, t@),
{
    if contains_str("lcr", t) {
        AlignSpec::Align(Align { align: string_of(t), pregap: None, postgap: None })
    } else {
        AlignSpec::Separator(Separator { separator: string_of(t) })
    }
}

/// The arguments `{array}` and `{darray}` read their body with, from the
/// column specification, and the style of the cells that `dCellStyle`
/// gives. Each column letter must be one of `l`, `c`, `r`, `|` and `:`.
pub fn array_parse_args(context: &FunctionContext, args: Vec<ParseNode>) -> (r: (ParseArrayArgs, StyleStr))
    requires
        args@.len() >= 1,
        is_symbol_node(args@[0]) || args@[0] is OrdGroup,
        forall|i: int| 0 <= i < col_spec_nodes(args@[0]).len() ==> is_symbol_node(#[trigger] col_spec_nodes(args@[0])[i]),
        forall|i: int| 0 <= i < col_spec_nodes(args@[0]).len() ==> col_kind(symbol_text(#[trigger] col_spec_nodes(args@[0])[i])) is Some,
    ensures
        ({
            let nodes = col_spec_nodes(args@[0]);
            let (a, style) = r;
                {
                    &&& a.cols@.len() == nodes.len()
                    &&& forall|i: int| 0 <= i < nodes.len() ==> is_col_for(#[trigger] a.cols@[i], symbol_text(nodes[i]))
                    &&& a.hskip_before_and_after && !a.add_jot
                    &&& a.max_num_cols == Some(nodes.len() as usize)
                    &&& a.col_separation_type is None
                    &&& !a.auto_tag && !a.single_row && !a.empty_single_row && !a.leqno && a.array_stretch is None
                    &&& style == (if seq_starts_with(context.func_name@, "d"@) { StyleStr::Display } else { StyleStr::Text })
                }
        }),
{
    let ghost nodes = col_spec_nodes(args@[0]);
    let mut rest = args;
    let arg = rest.swap_remove(0);
    let colalign: Vec<ParseNode> = if crate::parse_node::is_symbol(&arg) {
        let mut v = Vec::new();
        v.push(arg);
        v
    } else {
        match arg {
            ParseNode::OrdGroup { body, .. } => body,
            _ => Vec::new(),
        }
    };
    assert(colalign@ == nodes);
    let mut cols: Vec<AlignSpec> = Vec::new();
    let mut i: usize = 0;
    while i < colalign.len()
        invariant
            colalign@ == nodes,
            nodes == col_spec_nodes(args@[0]),
            forall|k: int| 0 <= k < nodes.len() ==> is_symbol_node(#[trigger] nodes[k]),
            forall|k: int| 0 <= k < nodes.len() ==> col_kind(symbol_text(#[trigger] nodes[k])) is Some,
            i <= nodes.len(),
            cols@.len() == i,
            forall|k: int| 0 <= k < i ==> is_col_for(#[trigger] cols@[k], symbol_text(nodes[k])),
        decreases colalign.len() - i,
    {
        let t = crate::parse_node::symbol_text_of(&colalign[i]);
        assert(col_kind(symbol_text(nodes[i as int])) is Some);
        cols.push(col_for(t.as_str()));
        i = i + 1;
    }
    let n = cols.len();
    let style = dCellStyle(&context.func_name);
    (ParseArrayArgs {
        hskip_before_and_after: true,
        add_jot: false,
        cols,
        col_separation_type: None,
        auto_tag: false,
        single_row: false,
        empty_single_row: false,
        max_num_cols: Some(n),
        leqno: false,
        array_stretch: None,
    }, style)
}


/// `{align}`, `{align*}`, `{aligned}`, `{split}`: how the parser is to read
/// the body (with cells in display style). The environments other than the
/// `..ed` forms may only stand in display mode.
pub fn aligned_parse_args(context: &FunctionContext, settings: &Settings) -> (a: ParseArrayArgs)
    requires
        seq_contains(context.func_name@, "ed"@) || settings.display_mode,
    ensures
        ({
            let f = context.func_name@;
            let is_split = f == "split"@;
            &&& !a.hskip_before_and_after && a.add_jot
            &&& a.cols@.len() == 0
            &&& a.col_separation_type == Some(if seq_contains(f, "at"@) { ColSeparationType::AlignAt } else { ColSeparationType::Align })
            &&& a.auto_tag == (!is_split && !seq_contains(f, "ed"@) && !seq_contains(f, "*"@))
            &&& !a.single_row && a.empty_single_row
            &&& a.max_num_cols == (if is_split { Some(2usize) } else { None })
            &&& a.leqno == settings.leqno
            &&& a.array_stretch is None
        }),
{
    if !contains_str(context.func_name.as_str(), "ed") {
        validate_ams_environment_context(settings, &context.func_name);
    }
    let separation = if contains_str(context.func_name.as_str(), "at") {
        ColSeparationType::AlignAt
    } else {
        ColSeparationType::Align
    };
    let is_split = str_eq(context.func_name.as_str(), "split");
    ParseArrayArgs {
        hskip_before_and_after: false,
        add_jot: true,
        cols: Vec::new(),
        col_separation_type: Some(separation),
        auto_tag: if is_split { false } else { get_auto_tag(context.func_name.as_str()) },
        single_row: false,
        empty_single_row: true,
        max_num_cols: if is_split { Some(2) } else { None },
        leqno: settings.get_leqno(),
        array_stretch: None,
    }
}

/// An empty group in the given mode.
pub open spec fn is_empty_group(n: ParseNode, m: Mode) -> bool {
    match n {
        ParseNode::OrdGroup { mode, body, semisimple } => mode == m && body@.len() == 0 && !semisimple,
        _ => false,
    }
}

/// A cell of an aligned environment as the parser builds it: a style change
/// whose body begins with a group.
pub open spec fn is_aligned_cell(n: ParseNode) -> bool {
    match n {
        ParseNode::Styling { body, .. } => body@.len() >= 1 && body@[0] is OrdGroup,
        _ => false,
    }
}

/// `new` is the cell `old` with an empty group put first in its group.
pub open spec fn cell_with_empty_group(new: ParseNode, old: ParseNode, m: Mode) -> bool {
    match (old, new) {
        (ParseNode::Styling { mode: om, style: os, body: ob }, ParseNode::Styling { mode: nm, style: ns, body: nb }) => {
            &&& nm == om && ns == os
            &&& ob@.len() >= 1 && nb@.len() == ob@.len()
            &&& nb@.skip(1) == ob@.skip(1)
            &&& match (ob@[0], nb@[0]) {
                (ParseNode::OrdGroup { mode: gm, body: gb, semisimple: gs }, ParseNode::OrdGroup { mode: hm, body: hb, semisimple: hs }) => {
                    &&& hm == gm && hs == gs
                    &&& hb@.len() == gb@.len() + 1
                    &&& is_empty_group(hb@[0], m)
                    &&& hb@.skip(1) == gb@
                },
                _ => false,
            }
        },
        _ => false,
    }
}

/// A row with an empty group put first in every second cell (from the
/// second on), so that an operator there becomes binary.
pub open spec fn row_with_empty_groups(new: Seq<ParseNode>, old: Seq<ParseNode>, m: Mode) -> bool {
    &&& new.len() == old.len()
    &&& forall|j: int| 0 <= j < old.len() ==> if j % 2 == 1 {
        cell_with_empty_group(#[trigger] new[j], old[j], m)
    } else {
        new[j] == old[j]
    }
}

/// Puts an empty group first in the cell's group.
pub fn prepend_empty_group(cell: ParseNode, m: Mode) -> (r: ParseNode)
    requires
        is_aligned_cell(cell),
    ensures
        cell_with_empty_group(r, cell, m),
{
    match cell {
        ParseNode::Styling { mode, style, body } => {
            let ghost ob = body@;
            let mut body = body;
            let first = body.remove(0);
            match first {
                ParseNode::OrdGroup { mode: gm, body: gb, semisimple } => {
                    let ghost g0 = gb@;
                    let mut gb = gb;
                    gb.insert(0, ParseNode::OrdGroup { mode: m, body: Vec::new(), semisimple: false });
                    assert(gb@.skip(1) =~= g0);
                    body.insert(0, ParseNode::OrdGroup { mode: gm, body: gb, semisimple });
                    assert(body@.skip(1) =~= ob.skip(1));
                    ParseNode::Styling { mode, style, body }
                },
                other => {
                    body.insert(0, other);
                    ParseNode::Styling { mode, style, body }
                },
            }
        },
        other => other,
    }
}

/// Whether every second cell of every row (from the second on) is an
/// aligned cell.
pub open spec fn rows_are_aligned_cells(rows: Seq<Vec<ParseNode>>) -> bool {
    forall|r: int, j: int| 0 <= r < rows.len() && 0 <= j < rows[r]@.len() && j % 2 == 1
        ==> is_aligned_cell(#[trigger] rows[r]@[j])
}

fn add_empty_groups(row: Vec<ParseNode>, m: Mode) -> (r: Vec<ParseNode>)
    requires
        forall|j: int| 0 <= j < row@.len() && j % 2 == 1 ==> is_aligned_cell(#[trigger] row@[j]),
    ensures
        row_with_empty_groups(r@, row@, m),
{
    let ghost orig = row@;
    let total = row.len();
    let mut rest = row;
    let mut out: Vec<ParseNode> = Vec::new();
    let mut j: usize = 0;
    while rest.len() > 0
        invariant
            orig.len() == total,
            j == out@.len(),
            j + rest@.len() == orig.len(),
            rest@ == orig.skip(j as int),
            forall|k: int| 0 <= k < orig.len() && k % 2 == 1 ==> is_aligned_cell(#[trigger] orig[k]),
            forall|k: int| 0 <= k < j ==> if k % 2 == 1 {
                cell_with_empty_group(#[trigger] out@[k], orig[k], m)
            } else {
                out@[k] == orig[k]
            },
        decreases rest.len(),
    {
        let cell = rest.remove(0);
        assert(cell == orig[j as int]);
        assert(rest@ =~= orig.skip(j + 1));
        if j % 2 == 1 {
            out.push(prepend_empty_group(cell, m));
        } else {
            out.push(cell);
        }
        j = j + 1;
    }
    out
}

/// The longest row's number of cells.
pub open spec fn max_row_len(rows: Seq<Vec<ParseNode>>) -> nat
    decreases rows.len(),
{
    if rows.len() == 0 {
        0
    } else {
        let m = max_row_len(rows.drop_last());
        if m < rows.last()@.len() { rows.last()@.len() } else { m }
    }
}

/// The number of maths pairs in the first row that has more than `n`: half
/// its number of cells.
pub open spec fn too_many_maths(rows: Seq<Vec<ParseNode>>, n: nat) -> Option<nat>
    decreases rows.len(),
{
    if rows.len() == 0 {
        None
    } else if rows[0]@.len() / 2 > n {
        Some(rows[0]@.len() / 2)
    } else {
        too_many_maths(rows.drop_first(), n)
    }
}

/// The number of maths pairs that the argument of `{alignedat}` asks for
/// (zero where there is no such argument).
pub open spec fn aligned_num_maths(args: Seq<ParseNode>) -> nat {
    if args.len() > 0 && args[0] is OrdGroup {
        digits_value(unsigned_digits(group_text(args[0])))
    } else {
        0
    }
}

/// The column entry at position `i` of an aligned environment: right- and
/// left-aligned columns in turn, with a gap before each pair after the first
/// where the number of columns comes from the rows.
pub open spec fn is_aligned_col(c: AlignSpec, i: int, aligned: bool) -> bool {
    match c {
        AlignSpec::Align(a) => {
            &&& a.align@ == (if i % 2 == 1 { "l"@ } else { "r"@ })
            &&& a.pregap matches Some(p) && p@ == (if i % 2 == 0 && i > 0 && aligned { "1"@ } else { "0"@ })
            &&& a.postgap matches Some(q) && q@ == "0"@
        },
        _ => false,
    }
}

fn aligned_col(i: usize, aligned: bool) -> (c: AlignSpec)
    ensures
        is_aligned_col(c, i as int, aligned),
{
    let odd = i % 2 == 1;
    let pregap = if !odd && i > 0 && aligned { string_of("1") } else { string_of("0") };
    AlignSpec::Align(Align {
        align: if odd { string_of("l") } else { string_of("r") },
        pregap: Some(pregap),
        postgap: Some(string_of("0")),
    })
}

/// The second step of `{align}`-like environments, on the array that was
/// read: puts an empty group first in every second cell, so that operators
/// there are binary, and sets the columns. With `{alignedat}`'s argument the
/// number of columns is twice that number (no row may have more pairs);
/// without it, it is the longest row's, with a gap before each pair after
/// the first. The array then adds a jot between rows and no skip at its
/// sides.
fn finish_aligned(context: &FunctionContext, args: Vec<ParseNode>, res: ArrayNode) -> (out: ArrayNode)
    requires
        args@.len() > 0 && args@[0] is OrdGroup ==> {
            &&& is_text_group(args@[0])
            &&& parses_unsigned(group_text(args@[0]), usize::MAX as nat)
            &&& digits_value(unsigned_digits(group_text(args@[0]))) * 2 <= usize::MAX
        },
        rows_are_aligned_cells(res.body@),
        aligned_num_maths(args@) > 0 ==> too_many_maths(res.body@, aligned_num_maths(args@)) is None,
    ensures
        ({
            let nm = aligned_num_maths(args@);
            let aligned = nm == 0;
            let rows = res.body@;
                {
                    let nc: int = if aligned { max_row_len(rows) as int } else { (nm * 2) as int };
                    &&& out.mode == res.mode && out.add_jot
                    &&& !out.hskip_before_and_after && out.leqno == res.leqno
                    &&& out.array_stretch == res.array_stretch && out.row_gaps == res.row_gaps
                    &&& out.h_lines_before_row == res.h_lines_before_row && out.tags == res.tags
                    &&& out.body@.len() == rows.len()
                    &&& forall|k: int| 0 <= k < rows.len() ==> row_with_empty_groups(#[trigger] out.body@[k]@, rows[k]@, context.mode)
                    &&& out.col_separation_type == Some(if aligned { ColSeparationType::Align } else { ColSeparationType::AlignAt })
                    &&& out.cols@.len() == (if nc < res.cols@.len() { res.cols@.len() as int } else { nc })
                    &&& forall|i: int| 0 <= i < nc ==> is_aligned_col(#[trigger] out.cols@[i], i, aligned)
                    &&& forall|i: int| nc <= i < res.cols@.len() ==> out.cols@[i] == res.cols@[i]
                }
        }),
{
    let ghost nm = aligned_num_maths(args@);
    let mut num_maths: usize = 0;
    if args.len() > 0 {
        if let ParseNode::OrdGroup { .. } = &args[0] {
            let text = crate::functions::char_code::group_text_exec(&args[0]);
            match parse_unsigned(text.as_str(), usize::MAX as u64) {
                Some(v) => { num_maths = v as usize; },
                None => {},
            }
        }
    }
    assert(num_maths == nm);
    let num_cols = num_maths * 2;
    let is_aligned = num_cols == 0;
    let ArrayNode { mode, body, cols, col_separation_type: _, add_jot: _, hskip_before_and_after: _, leqno,
        array_stretch, row_gaps, h_lines_before_row, tags } = res;
    let ghost rows = body@;
    let total = body.len();
    let mut rest = body;
    let mut out_rows: Vec<Vec<ParseNode>> = Vec::new();
    let mut max_len: usize = 0;
    let mut k: usize = 0;
    assert(rows.take(0) =~= Seq::<Vec<ParseNode>>::empty());
    assert(rows.skip(0) =~= rows);
    while rest.len() > 0
        invariant
            rows.len() == total,
            rows == res.body@,
            nm == aligned_num_maths(args@),
            k == out_rows@.len(),
            k + rest@.len() == rows.len(),
            rest@ == rows.skip(k as int),
            rows_are_aligned_cells(rows),
            num_maths == nm,
            is_aligned == (nm == 0),
            max_len == max_row_len(rows.take(k as int)),
            !is_aligned ==> too_many_maths(rows.skip(k as int), nm) is None,
            forall|q: int| 0 <= q < k ==> row_with_empty_groups(#[trigger] out_rows@[q]@, rows[q]@, context.mode),
        decreases rest.len(),
    {
        let row = rest.remove(0);
        assert(row == rows[k as int]);
        assert(rest@ =~= rows.skip(k + 1));
        let n = row.len();
        proof {
            assert forall|j: int| 0 <= j < row@.len() && j % 2 == 1 implies is_aligned_cell(#[trigger] row@[j]) by {
                assert(is_aligned_cell(rows[k as int]@[j]));
            }
        }
        let new_row = add_empty_groups(row, context.mode);
        if !is_aligned {
            let cur = n / 2;
            assert(rows.skip(k as int)[0] == rows[k as int]);
            assert(num_maths >= cur);
            assert(rows.skip(k as int).drop_first() =~= rows.skip(k + 1));
        }
        assert(rows.take(k + 1).drop_last() =~= rows.take(k as int));
        if max_len < n {
            max_len = n;
        }
        out_rows.push(new_row);
        k = k + 1;
    }
    assert(rows.take(k as int) =~= rows);
    if is_aligned {
        assert(max_len == max_row_len(rows));
    } else {
        assert(rows.skip(k as int) =~= Seq::<Vec<ParseNode>>::empty());
    }
    let nc = if is_aligned { max_len } else { num_cols };
    let ghost orig_cols = cols@;
    let mut cols = cols;
    let mut i: usize = 0;
    while i < nc
        invariant
            i <= nc,
            cols@.len() == (if i < orig_cols.len() { orig_cols.len() as int } else { i as int }),
            forall|q: int| 0 <= q < i ==> is_aligned_col(#[trigger] cols@[q], q, is_aligned),
            forall|q: int| i <= q < orig_cols.len() ==> cols@[q] == orig_cols[q],
        decreases nc - i,
    {
        let c = aligned_col(i, is_aligned);
        if i < cols.len() {
            cols.set(i, c);
        } else {
            cols.push(c);
        }
        i = i + 1;
    }
    let separation = if is_aligned { ColSeparationType::Align } else { ColSeparationType::AlignAt };
    ArrayNode {
        mode,
        body: out_rows,
        cols,
        col_separation_type: Some(separation),
        add_jot: true,
        hskip_before_and_after: false,
        leqno,
        array_stretch,
        row_gaps,
        h_lines_before_row,
        tags,
    }
}

/// Whether an aligned environment reads its body as an array that numbers
/// its rows: the ones whose name has neither `ed` nor `*` in it, but for
/// `split`.
pub open spec fn aligned_numbers_rows(f: Seq<char>) -> bool {
    f != "split"@ && !seq_contains(f, "ed"@) && !seq_contains(f, "*"@)
}

/// How the body of an aligned environment is read.
pub open spec fn aligned_shape(f: Seq<char>) -> ArrayShape {
    ArrayShape {
        single_row: false,
        empty_single_row: true,
        max_num_cols: if f == "split"@ { Some(2usize) } else { None },
        has_separation: true,
    }
}

/// The message for a row with more maths than `{alignedat}` asks for.
pub open spec fn too_many_message(expected: nat, got: nat) -> Seq<char> {
    "Too many math in a row: row[0] expected "@ + decimal(expected) + ", but got "@ + decimal(got)
}

/// The finished array of an aligned environment, from the array `res` that
/// was read as `rows`.
pub open spec fn aligned_result(out: ArrayNode, res: ArrayNode, rows: RowsView, nm: nat, m: Mode, settings: Settings) -> bool {
    let aligned = nm == 0;
    let nc: int = if aligned { max_row_len(res.body@) as int } else { (nm * 2) as int };
    &&& out.mode == res.mode
    &&& out.add_jot && !out.hskip_before_and_after
    &&& out.leqno == settings.leqno
    &&& out.array_stretch@ == seq!['1']
    &&& out.row_gaps@.len() == rows.gaps
    &&& (forall|i: int| 0 <= i < out.row_gaps@.len() ==> #[trigger] out.row_gaps@[i] is None)
    &&& hlines_view(out.h_lines_before_row@) == rows.hlines
    &&& out.tags is None
    &&& out.col_separation_type == Some(if aligned { ColSeparationType::Align } else { ColSeparationType::AlignAt })
    &&& out.cols@.len() == nc
    &&& (forall|i: int| 0 <= i < nc ==> is_aligned_col(#[trigger] out.cols@[i], i, aligned))
    &&& out.body@.len() == res.body@.len()
    &&& (forall|k: int| 0 <= k < res.body@.len() ==> row_with_empty_groups(#[trigger] out.body@[k]@, res.body@[k]@, m))
}

fn first_too_many(rows: &Vec<Vec<ParseNode>>, n: usize) -> (r: Option<usize>)
    ensures
        match r {
            Some(c) => too_many_maths(rows@, n as nat) == Some(c as nat),
            None => too_many_maths(rows@, n as nat) is None,
        },
{
    let mut i: usize = 0;
    assert(rows@.skip(0) =~= rows@);
    while i < rows.len()
        invariant
            i <= rows@.len(),
            too_many_maths(rows@, n as nat) == too_many_maths(rows@.skip(i as int), n as nat),
        decreases rows.len() - i,
    {
        assert(rows@.skip(i as int)[0] == rows@[i as int]);
        let c = rows[i].len() / 2;
        if c > n {
            return Some(c);
        }
        assert(rows@.skip(i as int).drop_first() =~= rows@.skip(i + 1));
        i = i + 1;
    }
    None
}

proof fn lemma_aligned_cells(res: ArrayNode, rows: Seq<Seq<NodeView>>)
    requires
        rows_view(res.body@) == rows,
        cells_styled(rows),
    ensures
        rows_are_aligned_cells(res.body@),
{
    assert forall|r: int, j: int| 0 <= r < res.body@.len() && 0 <= j < res.body@[r]@.len() && j % 2 == 1
        implies is_aligned_cell(#[trigger] res.body@[r]@[j]) by {
        lemma_nview_seq_len(res.body@[r]@);
        assert(rows[r] == nview_seq(res.body@[r]@));
        let n = res.body@[r]@[j];
        assert(rows[r][j] == nview(n));
        match n {
            ParseNode::Styling { body, .. } => {
                lemma_nview_seq_len(body@);
                assert(nview_seq(body@)[0] == nview(body@[0]));
            },
            _ => {},
        }
    }
}

/// `{align}`, `{alignat}`, `{aligned}`, `{alignedat}`, `{split}` and their
/// starred forms, from the environment's input to the finished array: an
/// environment whose name has no `ed` in it may only stand in display mode;
/// the body is read as an array (`parse_array`, in display style, with
/// `aligned_parse_args`); then every second cell gets an empty group first
/// and the columns are set (see `finish_aligned`): with `{alignedat}`'s
/// argument, a row with more pairs of cells than it asks for is an error.
/// Environments that number their rows are not read here.
pub fn aligned_handler(parser: &mut Parser, context: &FunctionContext, args: Vec<ParseNode>, settings: &Settings) -> (r: Result<ArrayNode, ParseError>)
    requires
        old(parser).wf(),
        context.mode == old(parser).mode,
        args@.len() > 0 && args@[0] is OrdGroup ==> {
            &&& is_text_group(args@[0])
            &&& parses_unsigned(group_text(args@[0]), usize::MAX as nat)
            &&& digits_value(unsigned_digits(group_text(args@[0]))) * 2 <= usize::MAX
        },
        seq_contains(context.func_name@, "ed"@) || settings.display_mode ==> {
            &&& !aligned_numbers_rows(context.func_name@)
            &&& spec_get(old(parser).gullet.macros@, "\\arraystretch"@) is None
            &&& !(spec_parse_array(old(parser)@, aligned_shape(context.func_name@), StyleStr::Display, old(parser).env()) is Stuck)
        },
    ensures
        ({
            let f = context.func_name@;
            let nm = aligned_num_maths(args@);
            if !seq_contains(f, "ed"@) && !settings.display_mode {
                r matches Err(e) && e.message@ == f + " can be used only in display mode."@
            } else {
                match spec_parse_array(old(parser)@, aligned_shape(f), StyleStr::Display, old(parser).env()) {
                    Parsed::Failed(m) => r matches Err(e) && e.message@ == m,
                    Parsed::Stuck => false,
                    Parsed::Done(rows, q) => {
                        &&& final(parser)@ == q
                        &&& final(parser).wf() && same_env(*old(parser), *final(parser))
                        &&& exists|res: ArrayNode| #[trigger] rows_view(res.body@) == rows.body && res.mode == old(parser)@.mode && ({
                            if nm > 0 && too_many_maths(res.body@, nm) is Some {
                                r matches Err(e) && e.message@ == too_many_message(nm, too_many_maths(res.body@, nm)->0)
                            } else {
                                r matches Ok(out) && aligned_result(out, res, rows, nm, context.mode, *settings)
                            }
                        })
                    },
                }
            }
        }),
{
    let ghost p = parser@;
    let ghost env = parser.env();
    let ghost f = context.func_name@;
    if !contains_str(context.func_name.as_str(), "ed") && !settings.get_display_mode() {
        return Err(ParseError { message: concat_str(context.func_name.as_str(), " can be used only in display mode.") });
    }
    let pa = aligned_parse_args(context, settings);
    assert(shape_of(pa) == aligned_shape(f));
    let res = match parse_array(parser, pa, StyleStr::Display) {
        Ok(a) => a,
        Err(e) => return Err(e),
    };
    let ghost rows = match spec_parse_array(p, aligned_shape(f), StyleStr::Display, env) {
        Parsed::Done(v, _) => v,
        _ => arbitrary(),
    };
    proof {
        lemma_parse_array_styled(p, aligned_shape(f), StyleStr::Display, env);
        lemma_aligned_cells(res, rows.body);
    }
    let ghost nm = aligned_num_maths(args@);
    let mut num_maths: usize = 0;
    if args.len() > 0 {
        if let ParseNode::OrdGroup { .. } = &args[0] {
            let text = crate::functions::char_code::group_text_exec(&args[0]);
            match parse_unsigned(text.as_str(), usize::MAX as u64) {
                Some(v) => { num_maths = v as usize; },
                None => {},
            }
        }
    }
    assert(num_maths == nm);
    if num_maths > 0 {
        match first_too_many(&res.body, num_maths) {
            Some(c) => {
                let mut msg = crate::text::prefixed_decimal("Too many math in a row: row[0] expected ", num_maths);
                msg.append(", but got ");
                push_decimal(&mut msg, c);
                assert(rows_view(res.body@) == rows.body);
                return Err(ParseError { message: msg });
            },
            None => {},
        }
    }
    let ghost res_g = res;
    let out = finish_aligned(context, args, res);
    assert(rows_view(res_g.body@) == rows.body);
    Ok(out)
}

/// How the body of `{array}` is read: many rows, an empty single row not
/// kept, at most `n` columns, and no separation type.
pub open spec fn array_shape(n: nat) -> ArrayShape {
    ArrayShape { single_row: false, empty_single_row: false, max_num_cols: Some(n as usize), has_separation: false }
}

/// `{array}` and `{darray}`, from the environment's input to the array:
/// the columns of the column specification, read with `array_parse_args`,
/// then the body (`parse_array`), with cells in display style for
/// `{darray}` and text style otherwise, a skip at the sides, no jot, no
/// separation type and no tags. Each column letter must be one of `l`, `c`,
/// `r`, `|` and `:`.
pub fn array_handler_fn(parser: &mut Parser, context: &FunctionContext, args: Vec<ParseNode>, opt_args: Vec<Option<ParseNode>>) -> (r: Result<ArrayNode, ParseError>)
    requires
        old(parser).wf(),
        args@.len() >= 1,
        is_symbol_node(args@[0]) || args@[0] is OrdGroup,
        forall|i: int| 0 <= i < col_spec_nodes(args@[0]).len() ==> is_symbol_node(#[trigger] col_spec_nodes(args@[0])[i]),
        forall|i: int| 0 <= i < col_spec_nodes(args@[0]).len() ==> col_kind(symbol_text(#[trigger] col_spec_nodes(args@[0])[i])) is Some,
        col_spec_nodes(args@[0]).len() <= usize::MAX,
        spec_get(old(parser).gullet.macros@, "\\arraystretch"@) is None,
        !(spec_parse_array(old(parser)@, array_shape(col_spec_nodes(args@[0]).len()),
            (if seq_starts_with(context.func_name@, "d"@) { StyleStr::Display } else { StyleStr::Text }), old(parser).env()) is Stuck),
    ensures
        ({
            let nodes = col_spec_nodes(args@[0]);
            let style = if seq_starts_with(context.func_name@, "d"@) { StyleStr::Display } else { StyleStr::Text };
            match spec_parse_array(old(parser)@, array_shape(nodes.len()), style, old(parser).env()) {
                Parsed::Done(rows, q) => r matches Ok(a) && {
                    &&& final(parser)@ == q
                    &&& final(parser).wf() && same_env(*old(parser), *final(parser))
                    &&& a.mode == old(parser)@.mode
                    &&& rows_view(a.body@) == rows.body
                    &&& a.cols@.len() == nodes.len()
                    &&& (forall|i: int| 0 <= i < nodes.len() ==> is_col_for(#[trigger] a.cols@[i], symbol_text(nodes[i])))
                    &&& a.hskip_before_and_after && !a.add_jot && !a.leqno
                    &&& a.col_separation_type is None
                    &&& a.array_stretch@ == seq!['1']
                    &&& a.row_gaps@.len() == rows.gaps
                    &&& (forall|i: int| 0 <= i < a.row_gaps@.len() ==> #[trigger] a.row_gaps@[i] is None)
                    &&& hlines_view(a.h_lines_before_row@) == rows.hlines
                    &&& a.tags is None
                },
                Parsed::Failed(m) => r matches Err(e) && e.message@ == m,
                Parsed::Stuck => false,
            }
        }),
{
    let (pa, style) = array_parse_args(context, args);
    parse_array(parser, pa, style)
}


/// The columns of an aligned environment alternate: every even column
/// (counted from zero) is right-aligned and every odd one left-aligned, so
/// that each pair reads `right = left`; no column has space after it, and
/// in `{aligned}` each pair after the first has a gap of 1 before it.
pub proof fn law_aligned_columns_alternate(out: ArrayNode, res: ArrayNode, rows: RowsView, nm: nat, m: Mode, settings: Settings)
    requires
        aligned_result(out, res, rows, nm, m, settings),
    ensures
        forall|i: int| 0 <= i < out.cols@.len() ==> (#[trigger] out.cols@[i] matches AlignSpec::Align(a) && {
            &&& i % 2 == 0 ==> a.align@ == "r"@
            &&& i % 2 == 1 ==> a.align@ == "l"@
            &&& a.postgap matches Some(q) && q@ == "0"@
            &&& a.pregap matches Some(g) && g@ == (if nm == 0 && i % 2 == 0 && i > 0 { "1"@ } else { "0"@ })
        }),
        out.tags is None,
{
    assert forall|i: int| 0 <= i < out.cols@.len() implies (#[trigger] out.cols@[i] matches AlignSpec::Align(a) && {
            &&& i % 2 == 0 ==> a.align@ == "r"@
            &&& i % 2 == 1 ==> a.align@ == "l"@
            &&& a.postgap matches Some(q) && q@ == "0"@
            &&& a.pregap matches Some(g) && g@ == (if nm == 0 && i % 2 == 0 && i > 0 { "1"@ } else { "0"@ })
        }) by {
        assert(is_aligned_col(out.cols@[i], i, nm == 0));
    }
}

} // verus!
