use vstd::prelude::*;
use crate::environments::ParseArrayArgs;
use crate::gullet::{eof_view, spec_future};
use crate::macros::TokenView;
use crate::namespace::spec_get;
use crate::node_view::{NodeView, nview, nview_seq, lemma_nview_seq_push, lemma_nview_seq_len};
use crate::parse_expr::{
    Parsed, measure, lemma_fetch_measure, spec_consume_spaces, lemma_consume_spaces_measure,
    spec_expression, brk_view, kept, result_seq,
};
use crate::parse_node::{Mode, ParseNode, ParseError, StyleStr, ArrayNode, Measurement};
use crate::parser::{Parser, ParserModel, spec_fetch, spec_consume, same_env};
use crate::text::{str_eq, string_of};

verus! {

/// A token whose text has other than three characters is not the end of
/// the input.
pub proof fn lemma_real_token(t: TokenView, c: Seq<char>)
    requires
        t.text == c,
        c.len() != 3,
    ensures
        t != eof_view(),
{
    reveal_strlit("EOF");
    assert(eof_view().text.len() == 3);
}

/// Whether a token draws a horizontal line: `\hline` or `\hdashline`.
pub open spec fn is_hline(t: Seq<char>) -> bool {
    t == "\\hline"@ || t == "\\hdashline"@
}

/// The run of horizontal lines from the state `p` on, spaces after each
/// skipped: whether each line is dashed, and the state after the run (with
/// the token after it looked at).
pub open spec fn spec_hline_run(p: ParserModel) -> (Seq<bool>, ParserModel)
    decreases measure(p),
{
    let (t, q) = spec_fetch(p);
    if is_hline(t.text) {
        proof {
            reveal_strlit("\\hline");
            reveal_strlit("\\hdashline");
            lemma_real_token(t, t.text);
            lemma_fetch_measure(p);
            lemma_consume_spaces_measure(spec_consume(q));
        }
        let (rest, q2) = spec_hline_run(spec_consume_spaces(spec_consume(q)));
        (seq![t.text == "\\hdashline"@] + rest, q2)
    } else {
        (Seq::empty(), q)
    }
}

/// The horizontal lines before a row of an array: after spaces and an
/// optional `\relax` (left by the `\cr` macro) and spaces, the run of
/// `\hline` and `\hdashline`.
pub open spec fn spec_get_hlines(p: ParserModel) -> (Seq<bool>, ParserModel) {
    let p1 = spec_consume_spaces(p);
    let (t, p2) = spec_fetch(p1);
    let p3 = if t.text == "\\relax"@ { spec_consume_spaces(spec_consume(p2)) } else { p2 };
    spec_hline_run(p3)
}

pub proof fn lemma_hline_run_measure(p: ParserModel)
    ensures
        measure(spec_hline_run(p).1) <= measure(p),
        spec_hline_run(p).1.mode == p.mode,
    decreases measure(p),
{
    lemma_fetch_measure(p);
    let (t, q) = spec_fetch(p);
    if is_hline(t.text) {
        reveal_strlit("\\hline");
        reveal_strlit("\\hdashline");
        lemma_real_token(t, t.text);
        lemma_consume_spaces_measure(spec_consume(q));
        lemma_hline_run_measure(spec_consume_spaces(spec_consume(q)));
    }
}

pub proof fn lemma_get_hlines_measure(p: ParserModel)
    ensures
        measure(spec_get_hlines(p).1) <= measure(p),
        spec_get_hlines(p).1.mode == p.mode,
{
    let p1 = spec_consume_spaces(p);
    lemma_consume_spaces_measure(p);
    lemma_fetch_measure(p1);
    let (t, p2) = spec_fetch(p1);
    lemma_consume_spaces_measure(spec_consume(p2));
    let p3 = if t.text == "\\relax"@ { spec_consume_spaces(spec_consume(p2)) } else { p2 };
    lemma_hline_run_measure(p3);
}

/// A cell of an array: the cell's expression, grouped, in the given style.
pub open spec fn cell_view(m: Mode, style: StyleStr, body: Seq<NodeView>) -> NodeView {
    NodeView::Styling { mode: m, style, body: seq![NodeView::OrdGroup { mode: m, body, semisimple: false }] }
}

/// The rows of an array read so far (the last one being read), the number
/// of row gaps, and the horizontal lines before each row.
pub struct RowsView {
    pub body: Seq<Seq<NodeView>>,
    pub gaps: nat,
    pub hlines: Seq<Seq<bool>>,
}

/// The flags that decide how an array's body is read: a single row (up to
/// `\end`), whether an empty single row is kept, the largest number of
/// columns, and whether the columns have a separation type.
pub struct ArrayShape {
    pub single_row: bool,
    pub empty_single_row: bool,
    pub max_num_cols: Option<usize>,
    pub has_separation: bool,
}

/// The shape that the arguments give.
pub open spec fn shape_of(args: ParseArrayArgs) -> ArrayShape {
    ArrayShape {
        single_row: args.single_row,
        empty_single_row: args.empty_single_row,
        max_num_cols: args.max_num_cols,
        has_separation: args.col_separation_type is Some,
    }
}

/// The cells of an array from the state `p` on: each cell is an expression
/// up to `\\` (or `\end` in a single row); `&` starts the next cell, `\\`
/// the next row (with the horizontal lines after it), and `\end` ends the
/// array, dropping a last row that holds one empty cell where there are
/// other rows (or an empty single row is not kept).
pub open spec fn spec_cells(p: ParserModel, args: ArrayShape, style: StyleStr, acc: RowsView, env: crate::parse_expr::ParseEnv) -> Parsed<RowsView>
    decreases measure(p),
{
    let brk: Seq<char> = if args.single_row { "\\end"@ } else { "\\\\"@ };
    match spec_expression(env, p, Some(brk)) {
        Parsed::Done(cell_body, q) => {
            let row = acc.body.last().push(cell_view(p.mode, style, cell_body));
            let body1 = acc.body.update(acc.body.len() - 1, row);
            let (t, q1) = spec_fetch(q);
            if t.text == "&"@ {
                if (args.max_num_cols matches Some(n) && n == row.len()) && (args.single_row || args.has_separation) {
                    Parsed::Failed("Too many tab characters: &"@)
                } else if measure(spec_consume(q1)) < measure(p) {
                    spec_cells(spec_consume(q1), args, style, RowsView { body: body1, gaps: acc.gaps, hlines: acc.hlines }, env)
                } else {
                    Parsed::Stuck
                }
            } else if t.text == "\\end"@ {
                let body2 = if row.len() == 1 && cell_body.len() == 0 && (body1.len() > 1 || !args.empty_single_row) {
                    body1.drop_last()
                } else {
                    body1
                };
                let hl2 = if acc.hlines.len() < body2.len() + 1 { acc.hlines.push(Seq::empty()) } else { acc.hlines };
                Parsed::Done(RowsView { body: body2, gaps: acc.gaps, hlines: hl2 }, q1)
            } else if t.text == "\\\\"@ {
                let q2 = spec_consume(q1);
                if spec_future(q2.stack).text == "["@ {
                    Parsed::Stuck
                } else {
                    let (h, q3) = spec_get_hlines(q2);
                    if measure(q3) < measure(p) {
                        spec_cells(q3, args, style, RowsView {
                            body: body1.push(Seq::empty()),
                            gaps: acc.gaps + 1,
                            hlines: acc.hlines.push(h),
                        }, env)
                    } else {
                        Parsed::Stuck
                    }
                }
            } else {
                Parsed::Failed("Expected & or \\\\ or \\cr or \\end"@)
            }
        },
        Parsed::Failed(e) => Parsed::Failed(e),
        Parsed::Stuck => Parsed::Stuck,
    }
}

/// The body of an array from the state `p` on: the horizontal lines before
/// the first row, then the cells.
pub open spec fn spec_parse_array(p: ParserModel, args: ArrayShape, style: StyleStr, env: crate::parse_expr::ParseEnv) -> Parsed<RowsView> {
    let (h0, p1) = spec_get_hlines(p);
    spec_cells(p1, args, style, RowsView { body: seq![Seq::empty()], gaps: 0, hlines: seq![h0] }, env)
}

/// The rows of an array as plain values.
pub open spec fn rows_view(v: Seq<Vec<ParseNode>>) -> Seq<Seq<NodeView>> {
    v.map_values(|r: Vec<ParseNode>| nview_seq(r@))
}

/// The horizontal lines of an array as plain values.
pub open spec fn hlines_view(v: Seq<Vec<bool>>) -> Seq<Seq<bool>> {
    v.map_values(|r: Vec<bool>| r@)
}

/// The row stretch an array is read with: the one given, else 1.
pub open spec fn stretch_of(args: ParseArrayArgs) -> Seq<char> {
    match args.array_stretch {
        Some(s) => s@,
        None => seq!['1'],
    }
}

/// Whether an array is the one read as `rows`: the rows and lines read,
/// no gap after any row, no tags, and the columns, flags and stretch of the
/// arguments.
pub open spec fn array_is(a: ArrayNode, m: Mode, args: ParseArrayArgs, rows: RowsView) -> bool {
    &&& a.mode == m
    &&& rows_view(a.body@) == rows.body
    &&& a.cols == args.cols
    &&& a.col_separation_type == args.col_separation_type
    &&& a.add_jot == args.add_jot
    &&& a.hskip_before_and_after == args.hskip_before_and_after
    &&& a.leqno == args.leqno
    &&& a.array_stretch@ == stretch_of(args)
    &&& a.row_gaps@.len() == rows.gaps
    &&& forall|i: int| 0 <= i < a.row_gaps@.len() ==> #[trigger] a.row_gaps@[i] is None
    &&& hlines_view(a.h_lines_before_row@) == rows.hlines
    &&& a.tags is None
}

impl Parser {
    fn hline_run(&mut self, acc: &mut Vec<bool>)
        ensures
            final(acc)@ == old(acc)@ + spec_hline_run(old(self)@).0,
            final(self)@ == spec_hline_run(old(self)@).1,
            same_env(*old(self), *final(self)),
            old(self).wf() ==> final(self).wf(),
        decreases measure(old(self)@),
    {
        let ghost p = self@;
        let t = self.fetch();
        let dashed = str_eq(t.text.as_str(), "\\hdashline");
        if str_eq(t.text.as_str(), "\\hline") || dashed {
            proof {
                reveal_strlit("\\hline");
                reveal_strlit("\\hdashline");
                lemma_real_token(t@, t.text@);
                lemma_fetch_measure(p);
                lemma_consume_spaces_measure(spec_consume(spec_fetch(p).1));
            }
            self.consume();
            self.consume_spaces();
            let ghost a0 = acc@;
            acc.push(dashed);
            let ghost a1 = acc@;
            self.hline_run(acc);
            proof {
                let rest = spec_hline_run(spec_consume_spaces(spec_consume(spec_fetch(p).1))).0;
                assert(acc@ =~= a0 + (seq![dashed] + rest));
            }
        } else {
            assert(acc@ =~= old(acc)@ + Seq::<bool>::empty());
        }
    }

    /// Reads the horizontal lines before a row of an array (see
    /// `spec_get_hlines`); each entry says whether that line is dashed.
    pub fn get_hlines(&mut self) -> (r: Vec<bool>)
        ensures
            (r@, final(self)@) == spec_get_hlines(old(self)@),
            same_env(*old(self), *final(self)),
            old(self).wf() ==> final(self).wf(),
    {
        self.consume_spaces();
        let t = self.fetch();
        if str_eq(t.text.as_str(), "\\relax") {
            self.consume();
            self.consume_spaces();
        }
        let mut info: Vec<bool> = Vec::new();
        self.hline_run(&mut info);
        assert(info@ =~= Seq::<bool>::empty() + info@);
        info
    }
}

/// Whether reading cells ended as the spec says, with the rows, gaps and
/// lines collected.
pub open spec fn cells_result(
    r: Result<(), ParseError>, s: Parsed<RowsView>, fin: ParserModel,
    body: Seq<Vec<ParseNode>>, gaps: Seq<Option<Measurement>>, hl: Seq<Vec<bool>>,
) -> bool {
    match s {
        Parsed::Done(v, q) => {
            &&& r is Ok
            &&& fin == q
            &&& rows_view(body) == v.body
            &&& gaps.len() == v.gaps
            &&& (forall|i: int| 0 <= i < gaps.len() ==> #[trigger] gaps[i] is None)
            &&& hlines_view(hl) == v.hlines
        },
        Parsed::Failed(m) => r matches Err(e) && e.message@ == m,
        Parsed::Stuck => false,
    }
}

proof fn lemma_cell_view(n: ParseNode, m: Mode, style: StyleStr, cell_body: Seq<ParseNode>, g: ParseNode)
    requires
        g == (ParseNode::OrdGroup { mode: m, body: g->OrdGroup_body, semisimple: false }),
        g->OrdGroup_body@ == cell_body,
        n matches ParseNode::Styling { mode, style: st, body } && mode == m && st == style && body@ == seq![g],
    ensures
        nview(n) == cell_view(m, style, nview_seq(cell_body)),
{
    match n {
        ParseNode::Styling { body, .. } => {
            lemma_nview_seq_len(body@);
            assert(nview_seq(body@) =~= seq![nview(g)]);
        },
        _ => {},
    }
}

impl Parser {
    fn parse_cells(
        &mut self, args: &ParseArrayArgs, style: StyleStr,
        body: &mut Vec<Vec<ParseNode>>, gaps: &mut Vec<Option<Measurement>>, hl: &mut Vec<Vec<bool>>,
    ) -> (r: Result<(), ParseError>)
        requires
            old(self).wf(),
            old(body)@.len() > 0,
            forall|i: int| 0 <= i < old(gaps)@.len() ==> #[trigger] old(gaps)@[i] is None,
            !(spec_cells(old(self)@, shape_of(*args), style, RowsView {
                body: rows_view(old(body)@), gaps: old(gaps)@.len(), hlines: hlines_view(old(hl)@) }, old(self).env()) is Stuck),
        ensures
            kept(*old(self), *final(self), r is Ok),
            cells_result(r, spec_cells(old(self)@, shape_of(*args), style, RowsView {
                body: rows_view(old(body)@), gaps: old(gaps)@.len(), hlines: hlines_view(old(hl)@) }, old(self).env()),
                final(self)@, final(body)@, final(gaps)@, final(hl)@),
        decreases measure(old(self)@),
    {
        let ghost p = self@;
        let ghost env = self.env();
        let ghost acc = RowsView { body: rows_view(body@), gaps: gaps@.len(), hlines: hlines_view(hl@) };
        let brk: &str = if args.single_row { "\\end" } else { "\\\\" };
        proof {
            reveal_strlit("\\end");
            reveal_strlit("\\\\");
        }
        let cell_body = match self.parse_expression(Some(brk)) {
            Ok(v) => v,
            Err(e) => return Err(e),
        };
        let ghost cb = cell_body@;
        let empty_cell = cell_body.len() == 0;
        let group = ParseNode::OrdGroup { mode: self.mode, body: cell_body, semisimple: false };
        let ghost g = group;
        let mut cell_list: Vec<ParseNode> = Vec::new();
        cell_list.push(group);
        assert(cell_list@ == seq![g]);
        let cell = ParseNode::Styling { mode: self.mode, style, body: cell_list };
        proof { lemma_cell_view(cell, p.mode, style, cb, g); }
        let ghost b0 = body@;
        let mut row = body.pop().unwrap();
        let ghost r0 = row@;
        row.push(cell);
        proof { lemma_nview_seq_push(r0, cell); }
        let row_len = row.len();
        body.push(row);
        proof {
            assert(rows_view(body@) =~= acc.body.update(acc.body.len() - 1, acc.body.last().push(nview(cell)))) by {
                assert(b0.last()@ == r0);
            }
            lemma_nview_seq_len(cb);
            lemma_nview_seq_len(r0);
            lemma_nview_seq_len(r0.push(cell));
        }
        let ghost q = self@;
        let t = self.fetch();
        if str_eq(t.text.as_str(), "&") {
            let full = match args.max_num_cols {
                Some(n) => n == row_len,
                None => false,
            };
            if full && (args.single_row || args.col_separation_type.is_some()) {
                return Err(ParseError { message: string_of("Too many tab characters: &") });
            }
            self.consume();
            self.parse_cells(args, style, body, gaps, hl)
        } else if str_eq(t.text.as_str(), "\\end") {
            if row_len == 1 && empty_cell && (body.len() > 1 || !args.empty_single_row) {
                let ghost b1 = body@;
                body.pop();
                proof { assert(rows_view(body@) =~= rows_view(b1).drop_last()); }
            }
            if hl.len() <= body.len() {
                let ghost h1 = hl@;
                hl.push(Vec::new());
                proof { assert(hlines_view(hl@) =~= hlines_view(h1).push(Seq::empty())); }
            }
            Ok(())
        } else if str_eq(t.text.as_str(), "\\\\") {
            self.consume();
            let ghost g0 = gaps@;
            gaps.push(None);
            let ghost q2 = self@;
            proof { lemma_get_hlines_measure(q2); }
            let h = self.get_hlines();
            let ghost h1 = hl@;
            hl.push(h);
            let ghost b1 = body@;
            body.push(Vec::new());
            proof {
                assert(hlines_view(hl@) =~= hlines_view(h1).push(h@));
                assert(rows_view(body@) =~= rows_view(b1).push(Seq::empty())) by {
                    assert(nview_seq(Seq::<ParseNode>::empty()) =~= Seq::<NodeView>::empty());
                }
                assert forall|i: int| 0 <= i < gaps@.len() implies #[trigger] gaps@[i] is None by {
                    if i < g0.len() {
                        assert(gaps@[i] == g0[i]);
                    }
                }
            }
            self.parse_cells(args, style, body, gaps, hl)
        } else {
            Err(ParseError { message: string_of("Expected & or \\\\ or \\cr or \\end") })
        }
    }
}

/// Reads the body of an array: rows split at `\\`, cells at `&`, each
/// cell an expression in the given style, with the horizontal lines before
/// each row, up to `\end` (see `spec_parse_array`). The array gets the
/// columns, flags and row stretch of `args` (a stretch of 1 where none is
/// given). Arrays that number their rows, a defined `\arraystretch`, and a
/// size after `\\` are not read here; nor is what the expression parser does
/// not read (see `Parsed::Stuck`).
pub fn parse_array(parser: &mut Parser, args: ParseArrayArgs, style: StyleStr) -> (r: Result<ArrayNode, ParseError>)
    requires
        old(parser).wf(),
        !args.auto_tag,
        args.array_stretch is Some || spec_get(old(parser).gullet.macros@, "\\arraystretch"@) is None,
        !(spec_parse_array(old(parser)@, shape_of(args), style, old(parser).env()) is Stuck),
    ensures
        kept(*old(parser), *final(parser), r is Ok),
        match spec_parse_array(old(parser)@, shape_of(args), style, old(parser).env()) {
            Parsed::Done(rows, q) => r matches Ok(a) && array_is(a, old(parser)@.mode, args, rows) && final(parser)@ == q,
            Parsed::Failed(m) => r matches Err(e) && e.message@ == m,
            Parsed::Stuck => false,
        },
{
    let ghost p = parser@;
    let stretch = match &args.array_stretch {
        Some(s) => string_of(s.as_str()),
        None => string_of("1"),
    };
    proof {
        reveal_strlit("1");
        assert("1"@ =~= seq!['1']);
    }
    let ghost p0 = parser@;
    proof { lemma_get_hlines_measure(p0); }
    let h0 = parser.get_hlines();
    let mut body: Vec<Vec<ParseNode>> = Vec::new();
    body.push(Vec::new());
    let mut gaps: Vec<Option<Measurement>> = Vec::new();
    let mut hl: Vec<Vec<bool>> = Vec::new();
    hl.push(h0);
    proof {
        assert(rows_view(body@) =~= seq![Seq::<NodeView>::empty()]) by {
            assert(nview_seq(Seq::<ParseNode>::empty()) =~= Seq::<NodeView>::empty());
        }
        assert(hlines_view(hl@) =~= seq![h0@]);
    }
    match parser.parse_cells(&args, style, &mut body, &mut gaps, &mut hl) {
        Ok(()) => {},
        Err(e) => return Err(e),
    }
    let ParseArrayArgs { cols, col_separation_type, add_jot, hskip_before_and_after, leqno, .. } = args;
    Ok(ArrayNode {
        mode: parser.mode,
        body,
        cols,
        col_separation_type,
        add_jot,
        hskip_before_and_after,
        leqno,
        array_stretch: stretch,
        row_gaps: gaps,
        h_lines_before_row: hl,
        tags: None,
    })
}

/// Whether every cell of the rows is a style change whose body begins with
/// a group, as `cell_view` builds it.
pub open spec fn cells_styled(rows: Seq<Seq<NodeView>>) -> bool {
    forall|r: int, j: int| 0 <= r < rows.len() && 0 <= j < rows[r].len() ==>
        (#[trigger] rows[r][j] matches NodeView::Styling { body, .. } && body.len() >= 1 && body[0] is OrdGroup)
}

pub proof fn lemma_cells_styled(p: ParserModel, a: ArrayShape, style: StyleStr, acc: RowsView, env: crate::parse_expr::ParseEnv)
    requires
        cells_styled(acc.body),
        acc.body.len() > 0,
    ensures
        spec_cells(p, a, style, acc, env) matches Parsed::Done(v, _) ==> cells_styled(v.body),
    decreases measure(p),
{
    let brk: Seq<char> = if a.single_row { "\\end"@ } else { "\\\\"@ };
    match spec_expression(env, p, Some(brk)) {
        Parsed::Done(cell_body, q) => {
            let row = acc.body.last().push(cell_view(p.mode, style, cell_body));
            let body1 = acc.body.update(acc.body.len() - 1, row);
            assert(cells_styled(body1)) by {
                assert forall|r: int, j: int| 0 <= r < body1.len() && 0 <= j < body1[r].len() implies
                    (#[trigger] body1[r][j] matches NodeView::Styling { body, .. } && body.len() >= 1 && body[0] is OrdGroup) by {
                    if r == acc.body.len() - 1 && j == row.len() - 1 {
                    } else if r == acc.body.len() - 1 {
                        assert(body1[r][j] == acc.body[r][j]);
                    } else {
                        assert(body1[r] == acc.body[r]);
                    }
                }
            }
            let (t, q1) = spec_fetch(q);
            if t.text == "&"@ {
                if measure(spec_consume(q1)) < measure(p) {
                    lemma_cells_styled(spec_consume(q1), a, style, RowsView { body: body1, gaps: acc.gaps, hlines: acc.hlines }, env);
                }
            } else if t.text == "\\end"@ {
                assert(cells_styled(body1.drop_last())) by {
                    assert forall|r: int, j: int| 0 <= r < body1.drop_last().len() && 0 <= j < body1.drop_last()[r].len() implies
                        (#[trigger] body1.drop_last()[r][j] matches NodeView::Styling { body, .. } && body.len() >= 1 && body[0] is OrdGroup) by {
                        assert(body1.drop_last()[r] == body1[r]);
                    }
                }
            } else if t.text == "\\\\"@ {
                let q2 = spec_consume(q1);
                let (h, q3) = spec_get_hlines(q2);
                let body2 = body1.push(Seq::empty());
                assert(cells_styled(body2)) by {
                    assert forall|r: int, j: int| 0 <= r < body2.len() && 0 <= j < body2[r].len() implies
                        (#[trigger] body2[r][j] matches NodeView::Styling { body, .. } && body.len() >= 1 && body[0] is OrdGroup) by {
                        assert(body2[r] == body1[r]);
                    }
                }
                if spec_future(q2.stack).text != "["@ && measure(q3) < measure(p) {
                    lemma_cells_styled(q3, a, style, RowsView { body: body2, gaps: acc.gaps + 1, hlines: acc.hlines.push(h) }, env);
                }
            }
        },
        _ => {},
    }
}

pub proof fn lemma_parse_array_styled(p: ParserModel, a: ArrayShape, style: StyleStr, env: crate::parse_expr::ParseEnv)
    ensures
        spec_parse_array(p, a, style, env) matches Parsed::Done(v, _) ==> cells_styled(v.body),
{
    let (h0, p1) = spec_get_hlines(p);
    let acc = RowsView { body: seq![Seq::<NodeView>::empty()], gaps: 0, hlines: seq![h0] };
    lemma_cells_styled(p1, a, style, acc, env);
}

} // verus!
