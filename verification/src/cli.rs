use vstd::prelude::*;
use crate::text::{
    parse_unsigned, parses_unsigned, digits_value, unsigned_digits, concat_str, string_of, decimal,
    push_decimal, split_char, split_on, strings_seq, trim, trim_str, seq_starts_with, starts_with,
};

verus! {

/// A line number given on the command line: a positive integer.
pub fn parse_line_number(value: &str) -> (r: Result<usize, String>)
    ensures
        match r {
            Ok(n) => parses_unsigned(value@, usize::MAX as nat) && n == digits_value(unsigned_digits(value@)) && n >= 1,
            Err(msg) => if !parses_unsigned(value@, usize::MAX as nat) {
                msg@ == "'"@ + value@ + "' is not a valid positive integer"@
            } else {
                digits_value(unsigned_digits(value@)) == 0 && msg@ == "line numbers must start at 1"@
            },
        },
{
    let parsed = parse_unsigned(value, usize::MAX as u64);
    proof {
        assert((usize::MAX as u64) as nat == usize::MAX as nat);
    }
    match parsed {
        None => {
            let m = concat_str("'", value);
            Err(concat_str(m.as_str(), "' is not a valid positive integer"))
        },
        Some(v) => {
            if v == 0 {
                return Err(string_of("line numbers must start at 1"));
            }
            Ok(v as usize)
        },
    }
}

/// A formula to render, with the number of the line it is on.
#[derive(Debug)]
pub struct RenderTask {
    pub line_num: usize,
    pub formula: String,
}

/// Whether a line holds a formula: it is not empty and not a comment (a
/// line beginning with `#`), once trimmed.
pub open spec fn is_formula_line(line: Seq<char>) -> bool {
    trim(line).len() > 0 && !seq_starts_with(trim(line), "#"@)
}

/// The tasks are the formula lines among lines `start` to `upto` (numbered
/// from one), in order, each with its trimmed text.
pub open spec fn tasks_cover(tasks: Seq<RenderTask>, lines: Seq<Seq<char>>, start: int, upto: int) -> bool {
    &&& forall|k: int| 0 <= k < tasks.len() ==> {
        let t = #[trigger] tasks[k];
        &&& start <= t.line_num <= upto
        &&& is_formula_line(lines[t.line_num - 1])
        &&& t.formula@ == trim(lines[t.line_num - 1])
    }
    &&& forall|k: int, m: int| 0 <= k < m < tasks.len() ==> (#[trigger] tasks[k]).line_num < (#[trigger] tasks[m]).line_num
    &&& forall|q: int| start - 1 <= q < upto && #[trigger] is_formula_line(lines[q]) ==>
        exists|k: int| 0 <= k < tasks.len() && (#[trigger] tasks[k]).line_num == q + 1
}

/// The last line to render: the one asked for, at most the last line.
pub open spec fn last_line(end_line: Option<usize>, total: nat) -> nat {
    match end_line {
        Some(e) => if e < total { e as nat } else { total },
        None => total,
    }
}

/// The formulas on lines `start_line` to the end line (numbered from one,
/// both included) of a file's text: the trimmed lines that are neither empty
/// nor comments. A range that is empty or starts past the end of the file
/// is an error.
pub fn select_tasks(content: &str, start_line: usize, end_line: Option<usize>) -> (r: Result<Vec<RenderTask>, String>)
    requires
        start_line >= 1,
    ensures
        ({
            let lines = split_on(content@, '\n');
            let total = lines.len();
            let end = last_line(end_line, total);
            match r {
                Err(msg) => (start_line > end || start_line > total)
                    && msg@ == "Invalid line range: "@ + decimal(start_line as nat) + "-"@ + decimal(end)
                        + " (file has "@ + decimal(total) + " lines)"@,
                Ok(tasks) => start_line <= end <= total && tasks_cover(tasks@, lines, start_line as int, end as int),
            }
        }),
{
    let lines = split_char(content, '\n');
    let ghost ls = split_on(content@, '\n');
    let total = lines.len();
    let end = match end_line {
        Some(e) => if e < total { e } else { total },
        None => total,
    };
    if start_line > end || start_line > total {
        let mut msg = crate::text::prefixed_decimal("Invalid line range: ", start_line);
        msg.append("-");
        push_decimal(&mut msg, end);
        msg.append(" (file has ");
        push_decimal(&mut msg, total);
        msg.append(" lines)");
        return Err(msg);
    }
    let mut tasks: Vec<RenderTask> = Vec::new();
    let mut i = start_line - 1;
    while i < end
        invariant
            strings_seq(lines@) == ls,
            lines@.len() == total,
            1 <= start_line,
            start_line - 1 <= i <= end,
            end <= total,
            tasks_cover(tasks@, ls, start_line as int, i as int),
        decreases end - i,
    {
        let formula = trim_str(lines[i].as_str());
        assert(lines@[i as int]@ == ls[i as int]);
        let is_comment = starts_with(formula.as_str(), "#");
        let is_empty = crate::text::str_eq(formula.as_str(), "");
        proof {
            reveal_strlit("");
            if formula@.len() == 0 { assert(formula@ =~= ""@); }
        }
        if !is_empty && !is_comment {
            let ghost old_tasks = tasks@;
            tasks.push(RenderTask { line_num: i + 1, formula });
            proof {
                assert forall|q: int| start_line - 1 <= q < i + 1 && #[trigger] is_formula_line(ls[q]) implies
                    exists|k: int| 0 <= k < tasks@.len() && (#[trigger] tasks@[k]).line_num == q + 1 by {
                    if q == i {
                        assert(tasks@[old_tasks.len() as int].line_num == q + 1);
                    } else {
                        let k = choose|k: int| 0 <= k < old_tasks.len() && (#[trigger] old_tasks[k]).line_num == q + 1;
                        assert(tasks@[k] == old_tasks[k]);
                    }
                }
            }
        }
        i = i + 1;
    }
    assert(i == end);
    assert(ls.len() == total);
    assert(end == last_line(end_line, ls.len()));
    assert(ls == split_on(content@, '\n'));
    Ok(tasks)
}

/// The lines to process, numbered from one: from `start` (at least 1;
/// 1 where none is given) to `end` (at most the last line; the last line
/// where none is given). A range that is empty or starts past the end is
/// refused with a message.
pub fn line_range(total: usize, start: Option<usize>, end: Option<usize>) -> (r: Result<(usize, usize), String>)
    ensures
        ({
            let s = match start { Some(v) => if v < 1 { 1 } else { v as int }, None => 1 };
            let e = match end { Some(v) => if v < total { v as int } else { total as int }, None => total as int };
            match r {
                Ok((a, b)) => a == s && b == e && s <= e && s <= total,
                Err(msg) => (s > e || s > total) && msg@ == "Invalid line range: "@ + decimal(s as nat) + "-"@
                    + decimal(e as nat) + " (file has "@ + decimal(total as nat) + " lines)"@,
            }
        }),
{
    let s = match start { Some(v) => if v < 1 { 1 } else { v }, None => 1 };
    let e = match end { Some(v) => if v < total { v } else { total }, None => total };
    if s > e || s > total {
        let mut msg = string_of("Invalid line range: ");
        push_decimal(&mut msg, s);
        msg.append("-");
        push_decimal(&mut msg, e);
        msg.append(" (file has ");
        push_decimal(&mut msg, total);
        msg.append(" lines)");
        return Err(msg);
    }
    Ok((s, e))
}

/// The formula on a line: the trimmed line, unless it is empty or a comment.
pub fn formula_of(line: &str) -> (r: Option<String>)
    ensures
        match r {
            Some(f) => is_formula_line(line@) && f@ == trim(line@),
            None => !is_formula_line(line@),
        },
{
    let t = trim_str(line);
    let comment = starts_with(t.as_str(), "#");
    if t.as_str().unicode_len() == 0 || comment {
        None
    } else {
        Some(t)
    }
}

} // verus!
