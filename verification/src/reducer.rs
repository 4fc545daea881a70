//! The streaming line reducer.
//!
//! Raw lines are pushed one at a time, in input order. The reducer trims and
//! interprets each line, collects the value texts, and says after every line
//! whether more input is wanted, so that the caller reads nothing past a
//! halting or failing line.

use crate::interpret::interp_raw;
use crate::interpret::project_failure;
use crate::interpret::project_values;
use crate::interpret::InputHandler;
use crate::interpret::LineOutcome;
use crate::interpret::Policy;
use crate::numeric::numeric_literal;
use crate::text::trim_spec;
use vstd::prelude::*;

verus! {

/// The value texts contributed by the raw lines `lines[k..]`, each
/// interpreted at its position, ending at the first halting or failing line
/// (later lines contribute nothing).
pub open spec fn run_values(p: Policy, lines: Seq<Seq<char>>, k: int) -> Seq<Seq<char>>
    decreases lines.len() - k,
{
    if k < 0 || k >= lines.len() {
        Seq::empty()
    } else {
        match interp_raw(p, k as nat, lines[k]) {
            LineOutcome::Give(v) => seq![v] + run_values(p, lines, k + 1),
            _ => Seq::empty(),
        }
    }
}

/// The failure message, if the run over `lines[k..]` ends at a failing line
/// rather than at a halting line or at the end of the input.
pub open spec fn run_failure(p: Policy, lines: Seq<Seq<char>>, k: int) -> Option<Seq<char>>
    decreases lines.len() - k,
{
    if k < 0 || k >= lines.len() {
        None
    } else {
        match interp_raw(p, k as nat, lines[k]) {
            LineOutcome::Give(_) => run_failure(p, lines, k + 1),
            LineOutcome::Halt => None,
            LineOutcome::Fail(m) => Some(m),
        }
    }
}

/// Every line contributes a value: none halts or fails.
pub open spec fn runs_past(p: Policy, lines: Seq<Seq<char>>) -> bool {
    forall|k: int| 0 <= k < lines.len() ==> #[trigger] interp_raw(p, k as nat, lines[k]) is Give
}

/// While every line gives a value, no failure is on record.
proof fn lemma_runs_past_no_failure(p: Policy, lines: Seq<Seq<char>>, k: int)
    requires
        0 <= k <= lines.len(),
        runs_past(p, lines),
    ensures
        run_failure(p, lines, k) is None,
    decreases lines.len() - k,
{
    if k < lines.len() {
        lemma_runs_past_no_failure(p, lines, k + 1);
    }
}

/// Appending one line to a run in which every line gave a value extends the
/// collected values by that line's value, or leaves them as they are and
/// records the new line's failure, if any.
proof fn lemma_run_extend(p: Policy, lines: Seq<Seq<char>>, l: Seq<char>, k: int)
    requires
        0 <= k <= lines.len(),
        runs_past(p, lines),
    ensures
        run_values(p, lines.push(l), k) == match interp_raw(p, lines.len() as nat, l) {
            LineOutcome::Give(v) => run_values(p, lines, k).push(v),
            _ => run_values(p, lines, k),
        },
        run_failure(p, lines.push(l), k) == match interp_raw(p, lines.len() as nat, l) {
            LineOutcome::Fail(m) => Some(m),
            _ => Option::<Seq<char>>::None,
        },
    decreases lines.len() - k,
{
    let ext = lines.push(l);
    if k == lines.len() {
        assert(ext[k] == l);
        assert(run_values(p, ext, k + 1) =~= Seq::<Seq<char>>::empty());
        assert(run_failure(p, ext, k + 1) is None);
        assert(run_values(p, lines, k) =~= Seq::<Seq<char>>::empty());
        match interp_raw(p, k as nat, l) {
            LineOutcome::Give(v) => {
                assert(run_values(p, ext, k) =~= run_values(p, lines, k).push(v));
            },
            _ => {
                assert(run_values(p, ext, k) =~= run_values(p, lines, k));
            },
        }
    } else {
        assert(ext[k] == lines[k]);
        assert(interp_raw(p, k as nat, lines[k]) is Give);
        lemma_run_extend(p, lines, l, k + 1);
        match interp_raw(p, k as nat, lines[k]) {
            LineOutcome::Give(v) => {
                assert(run_values(p, ext, k) == seq![v] + run_values(p, ext, k + 1));
                assert(run_values(p, lines, k) == seq![v] + run_values(p, lines, k + 1));
                assert(run_failure(p, ext, k) == run_failure(p, ext, k + 1));
                match interp_raw(p, lines.len() as nat, l) {
                    LineOutcome::Give(w) => {
                        assert(run_values(p, ext, k) =~= run_values(p, lines, k).push(w));
                    },
                    _ => {
                        assert(run_values(p, ext, k) =~= run_values(p, lines, k));
                    },
                }
            },
            _ => {},
        }
    }
}

/// A halting or failing line truncates the run: the collected values are
/// exactly those of the lines strictly before it, and the failure on record
/// is that line's message, if it failed.
pub proof fn lemma_terminator_truncates(p: Policy, lines: Seq<Seq<char>>, k: int)
    requires
        0 <= k < lines.len(),
        forall|j: int| 0 <= j < k ==> #[trigger] interp_raw(p, j as nat, lines[j]) is Give,
        !(interp_raw(p, k as nat, lines[k]) is Give),
    ensures
        run_values(p, lines, 0) == run_values(p, lines.subrange(0, k), 0),
        run_failure(p, lines, 0) == match interp_raw(p, k as nat, lines[k]) {
            LineOutcome::Fail(m) => Some(m),
            _ => Option::<Seq<char>>::None,
        },
{
    lemma_terminator_truncates_from(p, lines, k, 0);
}

proof fn lemma_terminator_truncates_from(p: Policy, lines: Seq<Seq<char>>, k: int, s: int)
    requires
        0 <= s <= k < lines.len(),
        forall|j: int| 0 <= j < k ==> #[trigger] interp_raw(p, j as nat, lines[j]) is Give,
        !(interp_raw(p, k as nat, lines[k]) is Give),
    ensures
        run_values(p, lines, s) == run_values(p, lines.subrange(0, k), s),
        run_failure(p, lines, s) == match interp_raw(p, k as nat, lines[k]) {
            LineOutcome::Fail(m) => Some(m),
            _ => Option::<Seq<char>>::None,
        },
    decreases k - s,
{
    let front = lines.subrange(0, k);
    if s == k {
        assert(run_values(p, lines, s) =~= run_values(p, front, s));
    } else {
        assert(front[s] == lines[s]);
        assert(interp_raw(p, s as nat, lines[s]) is Give);
        lemma_terminator_truncates_from(p, lines, k, s + 1);
        match interp_raw(p, s as nat, lines[s]) {
            LineOutcome::Give(v) => {
                assert(run_values(p, lines, s) =~= run_values(p, front, s));
            },
            _ => {},
        }
    }
}

/// The streaming reducer. Feed raw lines with `push_line` while it asks for
/// more; `values` then holds the value texts to fold, in input order, and
/// `failure` the message of a failing line, if one ended the run.
pub struct Reducer {
    /// The line interpreter.
    pub handler: InputHandler,
    /// The index of the next line.
    pub index: usize,
    /// The value texts collected so far, in input order.
    pub values: Vec<String>,
    /// The failure message, once a line has failed.
    pub failure: Option<String>,
    /// Whether more input is wanted.
    pub running: bool,
    /// The raw lines pushed so far, while the reducer was running.
    pub history: Ghost<Seq<Seq<char>>>,
}

impl Reducer {
    /// The reducer is faithful to its history: the collected values and the
    /// failure are those the model gives for the lines pushed so far, and it
    /// runs exactly as long as no line has halted or failed.
    pub open spec fn wf(self) -> bool {
        &&& self.values@.map_values(|v: String| v@) == run_values(self.handler@, self.history@, 0)
        &&& match self.failure {
            Some(e) => run_failure(self.handler@, self.history@, 0) == Some(e@),
            None => run_failure(self.handler@, self.history@, 0) is None,
        }
        &&& self.running == runs_past(self.handler@, self.history@)
        &&& self.running ==> self.index == self.history@.len()
    }

    /// A fresh reducer around `handler`, with nothing read yet.
    pub fn new(handler: InputHandler) -> (r: Reducer)
        ensures
            r.wf(),
            r.handler == handler,
            r.history@ == Seq::<Seq<char>>::empty(),
            r.running,
    {
        let r = Reducer {
            handler,
            index: 0,
            values: Vec::new(),
            failure: None,
            running: true,
            history: Ghost(Seq::empty()),
        };
        proof {
            assert(r.values@.map_values(|v: String| v@) =~= run_values(
                r.handler@,
                r.history@,
                0,
            ));
        }
        r
    }

    /// Feed the next raw line and say whether more input is wanted. Once a
    /// line has halted or failed, nothing changes any more and no more input
    /// is asked for.
    pub fn push_line(&mut self, raw: &str) -> (more: bool)
        requires
            old(self).wf(),
            old(self).history@.len() < usize::MAX,
        ensures
            final(self).wf(),
            final(self).handler == old(self).handler,
            old(self).running ==> final(self).history@ == old(self).history@.push(raw@),
            !old(self).running ==> *final(self) == *old(self),
            more == final(self).running,
    {
        if !self.running {
            return false;
        }
        let ghost p = self.handler@;
        let ghost h = self.history@;
        let t = crate::text::trim(raw);
        let i = self.index;
        proof {
            lemma_run_extend(p, h, raw@, 0);
            lemma_runs_past_no_failure(p, h, 0);
        }
        let res = self.handler.handle(i, t.as_str());
        self.history = Ghost(self.history@.push(raw@));
        match res {
            Ok(Some(v)) => {
                let ghost before = self.values@.map_values(|x: String| x@);
                self.values.push(v);
                self.index = i + 1;
                proof {
                    assert(self.values@.map_values(|x: String| x@) =~= before.push(
                        self.values@.last()@,
                    ));
                    assert forall|k: int|
                        0 <= k < self.history@.len() implies #[trigger] interp_raw(
                        p,
                        k as nat,
                        self.history@[k],
                    ) is Give by {
                        if k < h.len() {
                            assert(self.history@[k] == h[k]);
                        } else {
                            assert(self.history@[k] == raw@);
                        }
                    }
                }
                true
            },
            Ok(None) => {
                self.running = false;
                proof {
                    let w: int = h.len() as int;
                    assert(self.history@[w] == raw@);
                    assert(interp_raw(p, w as nat, self.history@[w]) is Halt);
                    assert(!runs_past(p, self.history@));
                }
                false
            },
            Err(e) => {
                self.failure = Some(e);
                self.running = false;
                proof {
                    let w: int = h.len() as int;
                    assert(self.history@[w] == raw@);
                    assert(interp_raw(p, w as nat, self.history@[w]) is Fail);
                    assert(!runs_past(p, self.history@));
                }
                false
            },
        }
    }
}

/// Feeding raw lines to the streaming reducer and projecting the cleaned,
/// enumerated pairs eagerly agree: whenever `pairs` holds the raw `lines`
/// trimmed and numbered in order, both ways collect the same values and
/// report the same failure.
pub proof fn lemma_eager_matches_streaming(
    p: Policy,
    pairs: Seq<(usize, String)>,
    lines: Seq<Seq<char>>,
    k: int,
)
    requires
        pairs.len() == lines.len(),
        forall|t: int|
            0 <= t < pairs.len() ==> (#[trigger] pairs[t]).0 as int == t && pairs[t].1@
                == trim_spec(lines[t]),
        0 <= k,
    ensures
        project_values(p, pairs, k) == run_values(p, lines, k),
        project_failure(p, pairs, k) == run_failure(p, lines, k),
    decreases lines.len() - k,
{
    if k < lines.len() {
        assert(pairs[k].0 as int == k && pairs[k].1@ == trim_spec(lines[k]));
        lemma_eager_matches_streaming(p, pairs, lines, k + 1);
    }
}

/// Whatever the input lines hold, every collected value text is either the
/// policy's identity element or a numeric literal, so each can be read back
/// as a number.
pub proof fn lemma_values_are_literals(p: Policy, lines: Seq<Seq<char>>, k: int, j: int)
    requires
        0 <= j < run_values(p, lines, k).len(),
    ensures
        run_values(p, lines, k)[j] == p.identity || numeric_literal(run_values(p, lines, k)[j]),
    decreases lines.len() - k,
{
    let vs = run_values(p, lines, k);
    if 0 <= k < lines.len() {
        match interp_raw(p, k as nat, lines[k]) {
            LineOutcome::Give(v) => {
                assert(v == p.identity || numeric_literal(v));
                if j == 0 {
                    assert(vs[0] == v);
                } else {
                    lemma_values_are_literals(p, lines, k + 1, j - 1);
                    assert(vs[j] == run_values(p, lines, k + 1)[j - 1]);
                }
            },
            _ => {},
        }
    }
}

/// Interpretation is a function of the policy and the input alone: two
/// faithful reducers over the same lines hold the same values, the same
/// failure and ask for more input alike, so a second run over identical input
/// and flags repeats the first.
pub proof fn lemma_reducer_deterministic(a: Reducer, b: Reducer)
    requires
        a.wf(),
        b.wf(),
        a.handler@ == b.handler@,
        a.history@ == b.history@,
    ensures
        a.values@.map_values(|v: String| v@) == b.values@.map_values(|v: String| v@),
        a.running == b.running,
        match (a.failure, b.failure) {
            (Some(x), Some(y)) => x@ == y@,
            (None, None) => true,
            _ => false,
        },
{
}

} // verus!
