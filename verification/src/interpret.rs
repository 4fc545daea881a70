//! Per-line interpretation.
//!
//! Each input line, once trimmed, is interpreted against the configured
//! policy: a count of leading lines whose content is disregarded, blank-line
//! termination, and strict or silent handling of text that is not a numeric
//! literal.

use crate::numeric::is_numeric_literal;
use crate::numeric::numeric_literal;
use crate::text::dec_str;
use crate::text::trim_spec;
use crate::text::usize_to_string;
use vstd::prelude::*;

verus! {

/// The interpretation policy, as the contracts see it.
pub struct Policy {
    /// The identity element of the selected operation, as literal text.
    pub identity: Seq<char>,
    /// How many leading lines are disregarded.
    pub ignore: nat,
    /// Whether a non-numeric line is recovered with the identity value
    /// instead of ending the stream.
    pub silent: bool,
}

/// What interpreting one line yields.
pub enum LineOutcome {
    /// The line contributes this value text to the fold.
    Give(Seq<char>),
    /// The line ends the stream; it contributes nothing.
    Halt,
    /// The line ends the stream with this failure message.
    Fail(Seq<char>),
}

/// The failure message for unparsable `text` at 1-based line number `line`.
pub open spec fn failure_message(text: Seq<char>, line: nat) -> Seq<char> {
    "Failed to parse "@ + text + " at line "@ + dec_str(line)
}

/// Interpretation of the trimmed text `t` standing at zero-based index `i`:
/// lines below the ignore count yield the identity whatever they hold; an
/// empty line halts the stream; a numeric literal is taken as a value; other
/// text yields the identity under the silent policy and a failure otherwise.
pub open spec fn interp_trimmed(p: Policy, i: nat, t: Seq<char>) -> LineOutcome {
    if i < p.ignore {
        LineOutcome::Give(p.identity)
    } else if t.len() == 0 {
        LineOutcome::Halt
    } else if numeric_literal(t) {
        LineOutcome::Give(t)
    } else if p.silent {
        LineOutcome::Give(p.identity)
    } else {
        LineOutcome::Fail(failure_message(t, (i + 1) as nat))
    }
}

/// Interpretation of a raw line: leading and trailing whitespace is stripped
/// before the text is looked at.
pub open spec fn interp_raw(p: Policy, i: nat, raw: Seq<char>) -> LineOutcome {
    interp_trimmed(p, i, trim_spec(raw))
}

/// The value texts contributed by the indexed, trimmed lines `pairs[k..]`,
/// in order, ending at the first line that halts or fails (later pairs are
/// never looked at).
pub open spec fn project_values(p: Policy, pairs: Seq<(usize, String)>, k: int) -> Seq<Seq<char>>
    decreases pairs.len() - k,
{
    if k < 0 || k >= pairs.len() {
        Seq::empty()
    } else {
        match interp_trimmed(p, pairs[k].0 as nat, pairs[k].1@) {
            LineOutcome::Give(v) => seq![v] + project_values(p, pairs, k + 1),
            _ => Seq::empty(),
        }
    }
}

/// The failure message, if the projection over `pairs[k..]` ends at a
/// failing line rather than at a halting line or at the end of the input.
pub open spec fn project_failure(p: Policy, pairs: Seq<(usize, String)>, k: int) -> Option<
    Seq<char>,
>
    decreases pairs.len() - k,
{
    if k < 0 || k >= pairs.len() {
        None
    } else {
        match interp_trimmed(p, pairs[k].0 as nat, pairs[k].1@) {
            LineOutcome::Give(_) => project_failure(p, pairs, k + 1),
            LineOutcome::Halt => None,
            LineOutcome::Fail(m) => Some(m),
        }
    }
}

/// Build the message `Failed to parse {text} at line {line}`.
fn failure_text(text: &str, line: usize) -> (r: String)
    ensures
        r@ == failure_message(text@, line as nat),
{
    let mut r = String::from_str("Failed to parse ");
    r.append(text);
    r.append(" at line ");
    let num = usize_to_string(line);
    r.append(num.as_str());
    r
}

/// Cleans and interprets input lines under the configured policy.
pub struct InputHandler {
    /// The identity element of the selected operation, as literal text.
    pub identity: String,
    /// How many leading lines are disregarded.
    pub ignore: usize,
    /// Whether a non-numeric line is recovered with the identity value.
    pub silent: bool,
}

impl View for InputHandler {
    type V = Policy;

    open spec fn view(&self) -> Policy {
        Policy { identity: self.identity@, ignore: self.ignore as nat, silent: self.silent }
    }
}

impl InputHandler {
    /// Configure a handler from the ignore count, the silent flag and the
    /// identity element of the selected operation.
    pub fn new(ignore: usize, silent: bool, identity: String) -> (r: InputHandler)
        ensures
            r@ == (Policy { identity: identity@, ignore: ignore as nat, silent }),
    {
        InputHandler { identity, ignore, silent }
    }

    /// Pair each raw line with its zero-based index and trim it; order and
    /// count are kept, nothing else of the text changes.
    pub fn clean_and_enumerate(&self, lines: &Vec<String>) -> (r: Vec<(usize, String)>)
        ensures
            r@.len() == lines@.len(),
            forall|k: int|
                0 <= k < r@.len() ==> (#[trigger] r@[k]).0 as int == k && r@[k].1@ == trim_spec(
                    lines@[k]@,
                ),
    {
        let mut r: Vec<(usize, String)> = Vec::new();
        let n = lines.len();
        let mut i: usize = 0;
        while i < n
            invariant
                i <= n,
                n == lines@.len(),
                r@.len() == i,
                forall|k: int|
                    0 <= k < i ==> (#[trigger] r@[k]).0 as int == k && r@[k].1@ == trim_spec(
                        lines@[k]@,
                    ),
            decreases n - i,
        {
            let t = crate::text::trim(lines[i].as_str());
            r.push((i, t));
            i += 1;
        }
        r
    }

    /// Interpret the trimmed text `val` standing at zero-based index `i`:
    /// the value text to fold (`Ok(Some(..))`), the end of the stream
    /// (`Ok(None)`), or the failure message (`Err(..)`), exactly as
    /// `interp_trimmed` says.
    pub fn handle(&self, i: usize, val: &str) -> (r: Result<Option<String>, String>)
        requires
            i < usize::MAX,
        ensures
            match interp_trimmed(self@, i as nat, val@) {
                LineOutcome::Give(v) => r matches Ok(Some(s)) && s@ == v,
                LineOutcome::Halt => r matches Ok(x) && x is None,
                LineOutcome::Fail(m) => r matches Err(e) && e@ == m,
            },
    {
        if i < self.ignore {
            return Ok(Some(self.identity.clone()));
        }
        if val.unicode_len() == 0 {
            return Ok(None);
        }
        if is_numeric_literal(val) {
            return Ok(Some(String::from_str(val)));
        }
        if self.silent {
            Ok(Some(self.identity.clone()))
        } else {
            Err(failure_text(val, i + 1))
        }
    }

    /// Project the indexed, trimmed lines onto the value texts to fold,
    /// stopping at the first line that halts or fails; the second component
    /// is the failure message of a failing terminator, to be reported by the
    /// caller.
    pub fn parse_input(&self, cleaned: &Vec<(usize, String)>) -> (r: (Vec<String>, Option<
        String,
    >))
        requires
            forall|k: int| 0 <= k < cleaned@.len() ==> (#[trigger] cleaned@[k]).0 < usize::MAX,
        ensures
            r.0@.map_values(|v: String| v@) == project_values(self@, cleaned@, 0),
            match r.1 {
                Some(e) => project_failure(self@, cleaned@, 0) == Some(e@),
                None => project_failure(self@, cleaned@, 0) is None,
            },
    {
        let mut values: Vec<String> = Vec::new();
        let n = cleaned.len();
        let mut j: usize = 0;
        while j < n
            invariant
                j <= n,
                n == cleaned@.len(),
                forall|k: int|
                    0 <= k < cleaned@.len() ==> (#[trigger] cleaned@[k]).0 < usize::MAX,
                project_values(self@, cleaned@, 0) =~= values@.map_values(|v: String| v@)
                    + project_values(self@, cleaned@, j as int),
                project_failure(self@, cleaned@, 0) == project_failure(self@, cleaned@, j as int),
            decreases n - j,
        {
            let ghost before = values@.map_values(|v: String| v@);
            match self.handle(cleaned[j].0, cleaned[j].1.as_str()) {
                Ok(Some(v)) => {
                    values.push(v);
                    proof {
                        assert(values@.map_values(|v: String| v@) =~= before.push(
                            values@.last()@,
                        ));
                        assert(project_values(self@, cleaned@, j as int) == seq![
                            values@.last()@,
                        ] + project_values(self@, cleaned@, j + 1 as int));
                        assert(before + project_values(self@, cleaned@, j as int)
                            =~= values@.map_values(|v: String| v@) + project_values(
                            self@,
                            cleaned@,
                            j + 1 as int,
                        ));
                    }
                },
                Ok(None) => {
                    proof {
                        assert(project_values(self@, cleaned@, j as int) =~= Seq::<
                            Seq<char>,
                        >::empty());
                        assert(values@.map_values(|v: String| v@) + project_values(
                            self@,
                            cleaned@,
                            j as int,
                        ) =~= values@.map_values(|v: String| v@));
                    }
                    return (values, None);
                },
                Err(e) => {
                    proof {
                        assert(project_values(self@, cleaned@, j as int) =~= Seq::<
                            Seq<char>,
                        >::empty());
                        assert(values@.map_values(|v: String| v@) + project_values(
                            self@,
                            cleaned@,
                            j as int,
                        ) =~= values@.map_values(|v: String| v@));
                    }
                    return (values, Some(e));
                },
            }
            j += 1;
        }
        proof {
            assert(project_values(self@, cleaned@, n as int) =~= Seq::<Seq<char>>::empty());
            assert(values@.map_values(|v: String| v@) + project_values(self@, cleaned@, n as int)
                =~= values@.map_values(|v: String| v@));
        }
        (values, None)
    }
}

} // verus!
