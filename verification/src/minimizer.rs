use vstd::prelude::*;
use crate::minimize::{tokenize_latex, reassemble, spec_reassemble, spec_tokenize, string_views};
use crate::text::{decimal, trim, trim_str, string_of, push_decimal};

verus! {

/// What shrinking an input gave: the input, the shrunk input, and how many
/// tokens each has.
#[derive(Debug, Clone)]
pub struct MinimizeResult {
    pub original: String,
    pub minimized: String,
    pub original_token_count: usize,
    pub minimized_token_count: usize,
}

impl MinimizeResult {
    /// The report of a shrink: the token counts, then the input and the
    /// shrunk input on lines of their own.
    pub fn fmt(&self) -> (r: String)
        ensures
            r@ == "minimized "@ + decimal(self.original_token_count as nat) + " tokens \u{2192} "@
                + decimal(self.minimized_token_count as nat) + " tokens\n  original:  "@ + self.original@
                + "\n  minimized: "@ + self.minimized@,
    {
        let mut r = string_of("minimized ");
        push_decimal(&mut r, self.original_token_count);
        r.append(" tokens \u{2192} ");
        push_decimal(&mut r, self.minimized_token_count);
        r.append(" tokens\n  original:  ");
        r.append(self.original.as_str());
        r.append("\n  minimized: ");
        r.append(self.minimized.as_str());
        r
    }
}

/// How many positions are in the pass `phase`: each token in the first pass
/// (0), each pair of neighbours in the second (1).
pub open spec fn phase_len(n: int, phase: int) -> int {
    if phase == 0 { n } else if n > 0 { n - 1 } else { 0 }
}

/// The skip marks with the token at `i` removed (pass 0), or the pair at `i`
/// and `i + 1` (pass 1).
pub open spec fn with_removed(skip: Seq<bool>, phase: int, i: int) -> Seq<bool> {
    if phase == 0 { skip.update(i, true) } else { skip.update(i, true).update(i + 1, true) }
}

/// Removing at position `i` of pass `phase` is worth asking about: nothing
/// there is removed yet, and what is left is not blank.
pub open spec fn removable(tokens: Seq<Seq<char>>, skip: Seq<bool>, phase: int, i: int) -> bool {
    &&& 0 <= i < phase_len(tokens.len() as int, phase)
    &&& !skip[i]
    &&& (phase == 1 ==> !skip[i + 1])
    &&& trim(spec_reassemble(tokens, with_removed(skip, phase, i))).len() > 0
}

/// Position `(p1, i1)` comes before `(p2, i2)`: an earlier pass, or an
/// earlier position in the same pass.
pub open spec fn precedes(p1: int, i1: int, p2: int, i2: int) -> bool {
    p1 < p2 || (p1 == p2 && i1 < i2)
}

/// How many tokens the marks keep.
pub open spec fn kept_count(skip: Seq<bool>) -> nat
    decreases skip.len(),
{
    if skip.len() == 0 { 0 } else { kept_count(skip.drop_last()) + if skip.last() { 0nat } else { 1nat } }
}

/// The shrinking of an input that shows a difference, one question at a
/// time: it removes a token (first pass) or a pair of neighbouring tokens
/// (second pass), asks whether what is left still shows the difference, and
/// keeps the removal only where it does.
#[derive(Debug)]
pub struct Minimizer {
    pub original: String,
    pub tokens: Vec<String>,
    pub skip: Vec<bool>,
    pub phase: u8,
    pub index: usize,
    pub pending: bool,
}

/// The next thing the shrinking needs: an answer about a candidate, or
/// nothing more.
#[derive(Debug)]
pub enum MinimizeStep {
    Check(String),
    Done(MinimizeResult),
}

impl Minimizer {
    pub open spec fn token_views(&self) -> Seq<Seq<char>> {
        string_views(self.tokens@)
    }

    /// The state is consistent; while a question is open, the removal it
    /// asks about is in the marks.
    pub open spec fn wf(&self) -> bool {
        &&& self.skip@.len() == self.tokens@.len()
        &&& self.phase <= 2
        &&& (self.phase < 2 ==> self.index <= phase_len(self.tokens@.len() as int, self.phase as int))
        &&& (self.pending ==> {
            &&& self.phase < 2
            &&& self.index < phase_len(self.tokens@.len() as int, self.phase as int)
            &&& self.skip@[self.index as int]
            &&& (self.phase == 1 ==> self.skip@[self.index + 1])
        })
    }

    /// Starts shrinking `expression`: its tokens, none removed.
    pub fn new(expression: &str) -> (m: Minimizer)
        ensures
            m.wf(),
            m.original@ == expression@,
            m.token_views() == spec_tokenize(expression@),
            forall|i: int| 0 <= i < m.skip@.len() ==> !m.skip@[i],
            m.phase == 0,
            m.index == 0,
            !m.pending,
    {
        let tokens = tokenize_latex(expression);
        let mut skip: Vec<bool> = Vec::new();
        let mut i: usize = 0;
        while i < tokens.len()
            invariant
                i <= tokens@.len(),
                skip@.len() == i,
                forall|k: int| 0 <= k < i ==> !skip@[k],
            decreases tokens.len() - i,
        {
            skip.push(false);
            i = i + 1;
        }
        Minimizer { original: string_of(expression), tokens, skip, phase: 0, index: 0, pending: false }
    }

    /// Moves to the next removal worth asking about and returns what is left
    /// after it; or, when none is left, the result.
    pub fn next_step(&mut self) -> (step: MinimizeStep)
        requires
            old(self).wf(),
            !old(self).pending,
        ensures
            final(self).wf(),
            final(self).tokens@ == old(self).tokens@,
            final(self).original@ == old(self).original@,
            match step {
                MinimizeStep::Check(c) => {
                    &&& final(self).pending
                    &&& removable(old(self).token_views(), old(self).skip@, final(self).phase as int, final(self).index as int)
                    &&& final(self).skip@ == with_removed(old(self).skip@, final(self).phase as int, final(self).index as int)
                    &&& c@ == spec_reassemble(old(self).token_views(), final(self).skip@)
                    &&& !precedes(final(self).phase as int, final(self).index as int, old(self).phase as int, old(self).index as int)
                    &&& forall|ph: int, j: int| 0 <= j && ph < 2
                        && !precedes(ph, j, old(self).phase as int, old(self).index as int)
                        && precedes(ph, j, final(self).phase as int, final(self).index as int)
                        ==> !#[trigger] removable(old(self).token_views(), old(self).skip@, ph, j)
                },
                MinimizeStep::Done(r) => {
                    &&& !final(self).pending
                    &&& final(self).phase == 2
                    &&& final(self).skip@ == old(self).skip@
                    &&& forall|ph: int, j: int| 0 <= j && ph < 2 && !precedes(ph, j, old(self).phase as int, old(self).index as int)
                        ==> !#[trigger] removable(old(self).token_views(), old(self).skip@, ph, j)
                    &&& r.original@ == old(self).original@
                    &&& r.minimized@ == spec_reassemble(old(self).token_views(), old(self).skip@)
                    &&& r.original_token_count == old(self).tokens@.len()
                    &&& r.minimized_token_count == kept_count(old(self).skip@)
                },
            },
    {
        let ghost t = self.token_views();
        let ghost s0 = self.skip@;
        let ghost p0 = self.phase as int;
        let ghost i0 = self.index as int;
        let n = self.tokens.len();
        while self.phase < 2
            invariant
                self.wf(),
                !self.pending,
                t == self.token_views(),
                self.skip@ == s0,
                n == self.tokens@.len(),
                self.tokens@ == old(self).tokens@,
                self.original@ == old(self).original@,
                t == old(self).token_views(),
                s0 == old(self).skip@,
                p0 == old(self).phase as int,
                i0 == old(self).index as int,
                !precedes(self.phase as int, self.index as int, p0, i0),
                forall|ph: int, j: int| 0 <= j && ph < 2 && !precedes(ph, j, p0, i0)
                    && precedes(ph, j, self.phase as int, self.index as int)
                    ==> !#[trigger] removable(t, s0, ph, j),
            decreases 2 - self.phase, phase_len(n as int, self.phase as int) - self.index,
        {
            let len = if self.phase == 0 { n } else if n > 0 { n - 1 } else { 0 };
            if self.index < len {
                let i = self.index;
                let free = if self.phase == 0 { !self.skip[i] } else { !self.skip[i] && !self.skip[i + 1] };
                if free {
                    self.skip.set(i, true);
                    if self.phase == 1 {
                        self.skip.set(i + 1, true);
                    }
                    let candidate = reassemble(self.tokens.as_slice(), self.skip.as_slice());
                    let trimmed = trim_str(candidate.as_str());
                    assert(self.skip@ =~= with_removed(s0, self.phase as int, i as int));
                    if trimmed.as_str().unicode_len() > 0 {
                        self.pending = true;
                        return MinimizeStep::Check(candidate);
                    }
                    self.skip.set(i, false);
                    if self.phase == 1 {
                        self.skip.set(i + 1, false);
                    }
                    assert(self.skip@ =~= s0);
                }
                self.index = i + 1;
                proof {
                    assert forall|ph: int, j: int| 0 <= j && ph < 2 && !precedes(ph, j, p0, i0)
                        && precedes(ph, j, self.phase as int, self.index as int)
                        implies !#[trigger] removable(t, s0, ph, j) by {
                        if ph == self.phase && j == i {
                        } else {
                            assert(precedes(ph, j, self.phase as int, i as int));
                        }
                    }
                }
            } else {
                self.phase = self.phase + 1;
                self.index = 0;
                proof {
                    assert forall|ph: int, j: int| 0 <= j && ph < 2 && !precedes(ph, j, p0, i0)
                        && precedes(ph, j, self.phase as int, self.index as int)
                        implies !#[trigger] removable(t, s0, ph, j) by {
                        if ph == self.phase - 1 && j >= len {
                        } else {
                            assert(precedes(ph, j, (self.phase - 1) as int, len as int));
                        }
                    }
                }
            }
        }
        let minimized = reassemble(self.tokens.as_slice(), self.skip.as_slice());
        let mut kept: usize = 0;
        let mut i: usize = 0;
        while i < self.skip.len()
            invariant
                i <= self.skip@.len(),
                kept == kept_count(self.skip@.take(i as int)),
                kept <= i,
            decreases self.skip.len() - i,
        {
            assert(self.skip@.take(i + 1).drop_last() =~= self.skip@.take(i as int));
            if !self.skip[i] {
                kept = kept + 1;
            }
            i = i + 1;
        }
        assert(self.skip@.take(i as int) =~= self.skip@);
        proof {
            assert forall|ph: int, j: int| 0 <= j && ph < 2 && !precedes(ph, j, p0, i0)
                implies !#[trigger] removable(t, s0, ph, j) by {
                assert(precedes(ph, j, self.phase as int, self.index as int));
            }
        }
        MinimizeStep::Done(MinimizeResult {
            original: self.original.clone(),
            minimized,
            original_token_count: n,
            minimized_token_count: kept,
        })
    }

    /// Takes the answer to the open question: whether what was left still
    /// shows the difference. The removal stays only if it does.
    pub fn report(&mut self, still_fails: bool)
        requires
            old(self).wf(),
            old(self).pending,
        ensures
            final(self).wf(),
            !final(self).pending,
            final(self).tokens@ == old(self).tokens@,
            final(self).original@ == old(self).original@,
            final(self).phase == old(self).phase,
            final(self).index == old(self).index + 1,
            still_fails ==> final(self).skip@ == old(self).skip@,
            !still_fails && old(self).phase == 0 ==> final(self).skip@ == old(self).skip@.update(old(self).index as int, false),
            !still_fails && old(self).phase == 1 ==> final(self).skip@
                == old(self).skip@.update(old(self).index as int, false).update(old(self).index + 1, false),
    {
        let i = self.index;
        let n = self.skip.len();
        assert(i < n);
        if !still_fails {
            self.skip.set(i, false);
            if self.phase == 1 {
                self.skip.set(i + 1, false);
            }
        }
        self.index = i + 1;
        self.pending = false;
    }
}

} // verus!
