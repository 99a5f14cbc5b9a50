use vstd::prelude::*;
use crate::text::{split_on, split_char, strings_seq, trim, trim_str, str_chars, str_eq};

verus! {

/// One formula run through both parsers: the formula, and what each parser
/// gave for it.
#[derive(Debug, Clone)]
pub struct CaseResult {
    pub expression: String,
    pub js_output: String,
    pub rust_output: String,
}

/// A trimmed line holds a formula: it is not empty and not a comment.
pub open spec fn is_formula(t: Seq<char>) -> bool {
    t.len() > 0 && t[0] != '#'
}

/// The formulas of a fixture file's lines: each line trimmed, blank lines
/// and `#` comments left out, each formula once, where it first occurs.
pub open spec fn formula_lines(lines: Seq<Seq<char>>) -> Seq<Seq<char>>
    decreases lines.len(),
{
    if lines.len() == 0 {
        Seq::empty()
    } else {
        let prev = formula_lines(lines.drop_last());
        let t = trim(lines.last());
        if is_formula(t) && !prev.contains(t) { prev.push(t) } else { prev }
    }
}

/// The formulas read from a fixture file are distinct, and none is blank or
/// a comment.
pub proof fn law_fixture_formulas_are_distinct(lines: Seq<Seq<char>>)
    ensures
        formula_lines(lines).no_duplicates(),
        forall|i: int| 0 <= i < formula_lines(lines).len() ==> is_formula(#[trigger] formula_lines(lines)[i]),
    decreases lines.len(),
{
    if lines.len() > 0 {
        law_fixture_formulas_are_distinct(lines.drop_last());
        let prev = formula_lines(lines.drop_last());
        let t = trim(lines.last());
        if is_formula(t) && !prev.contains(t) {
            let cur = prev.push(t);
            assert forall|a: int, b: int| 0 <= a < b < cur.len() implies cur[a] != cur[b] by {
                if b == prev.len() {
                    assert(prev[a] != t);
                }
            }
            assert forall|i: int| 0 <= i < cur.len() implies is_formula(#[trigger] cur[i]) by {
                if i < prev.len() {
                    assert(cur[i] == prev[i]);
                }
            }
        }
    }
}

/// The formulas of a fixture file, one per line, in their order.
pub fn fixture_formulas(content: &str) -> (r: Vec<String>)
    ensures
        strings_seq(r@) == formula_lines(split_on(content@, '\n')),
{
    let lines = split_char(content, '\n');
    let ghost ls = split_on(content@, '\n');
    let mut out: Vec<String> = Vec::new();
    let mut i: usize = 0;
    while i < lines.len()
        invariant
            strings_seq(lines@) == ls,
            i <= lines@.len(),
            strings_seq(out@) == formula_lines(ls.take(i as int)),
        decreases lines.len() - i,
    {
        let t = trim_str(lines[i].as_str());
        let cs = str_chars(t.as_str());
        let ghost prev = strings_seq(out@);
        proof {
            assert(ls.take(i + 1).drop_last() =~= ls.take(i as int));
            assert(ls.take(i + 1).last() == lines@[i as int]@);
        }
        let formula = cs.len() > 0 && cs[0] != '#';
        if formula {
            let mut j: usize = 0;
            let mut seen = false;
            while j < out.len()
                invariant
                    j <= out@.len(),
                    prev == strings_seq(out@),
                    seen == exists|k: int| 0 <= k < j && prev[k] == t@,
                decreases out.len() - j,
            {
                if str_eq(out[j].as_str(), t.as_str()) {
                    seen = true;
                }
                proof {
                    if !seen {
                        assert forall|k: int| 0 <= k < j + 1 implies prev[k] != t@ by {
                            if k == j {
                                assert(prev[k] == out@[k]@);
                            }
                        }
                    } else {
                        if prev[j as int] == t@ {
                            assert(exists|k: int| 0 <= k < j + 1 && prev[k] == t@);
                        } else {
                            let k0 = choose|k: int| 0 <= k < j && prev[k] == t@;
                            assert(exists|k: int| 0 <= k < j + 1 && prev[k] == t@);
                        }
                    }
                }
                j = j + 1;
            }
            if !seen {
                out.push(t);
                proof {
                    assert(strings_seq(out@) =~= prev.push(trim(ls.take(i + 1).last())));
                    assert(!prev.contains(t@));
                }
            } else {
                proof {
                    let k0 = choose|k: int| 0 <= k < j && prev[k] == t@;
                    assert(prev.contains(t@));
                }
            }
        }
        i = i + 1;
    }
    assert(ls.take(i as int) =~= ls);
    out
}

} // verus!
