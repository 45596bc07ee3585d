//! The line processor: deduplication, parsing, filtering and counting.

use vstd::prelude::*;
use crate::record::{
    ParserError, field_names, formatted_line, is_trivial, log_of_tokens, missing_field_name,
    parse_log,
};
use crate::tokens::{tokens_of, views_of};

verus! {

/// What one line does to the processor, decided from the previous
/// accepted line and the line itself.
pub enum StepOutcome {
    /// The line repeats its predecessor: skipped, nothing changes.
    Skip,
    /// The line parses but its entry is trivial: counted, no output.
    Counted,
    /// The line parses to a non-trivial entry: counted, one report line.
    Emit(Seq<char>),
    /// The line has fewer than five tokens: the run aborts; holds the
    /// name of the first missing field.
    Fail(Seq<char>),
}

/// The processor's decision for one line, given the last line that was
/// compared and found different.
pub open spec fn step_of(prev: Seq<char>, line: Seq<char>) -> StepOutcome {
    if line == prev {
        StepOutcome::Skip
    } else {
        let toks = tokens_of(line);
        if toks.len() < 5 {
            StepOutcome::Fail(missing_field_name(toks))
        } else {
            let log = log_of_tokens(toks);
            if is_trivial(log) {
                StepOutcome::Counted
            } else {
                StepOutcome::Emit(formatted_line(log))
            }
        }
    }
}

/// The outcome of a whole run over a sequence of lines.
pub enum RunResult {
    /// Every line was handled: the report lines in order, and the final
    /// count.
    Done { outputs: Seq<Seq<char>>, count: int },
    /// A line with fewer than five tokens aborted the run; holds the
    /// name of the first missing field.
    Aborted { missing: Seq<char> },
}

/// The outcome of running the processor over `lines`, starting from
/// previous line `prev` and count `count`.
pub open spec fn run_of(lines: Seq<Seq<char>>, prev: Seq<char>, count: int) -> RunResult
    decreases lines.len(),
{
    if lines.len() == 0 {
        RunResult::Done { outputs: Seq::empty(), count }
    } else {
        match step_of(prev, lines[0]) {
            StepOutcome::Skip => run_of(lines.drop_first(), prev, count),
            StepOutcome::Counted => run_of(lines.drop_first(), lines[0], count + 1),
            StepOutcome::Emit(out) => match run_of(lines.drop_first(), lines[0], count + 1) {
                RunResult::Done { outputs, count: c } => RunResult::Done {
                    outputs: seq![out] + outputs,
                    count: c,
                },
                RunResult::Aborted { missing } => RunResult::Aborted { missing },
            },
            StepOutcome::Fail(missing) => RunResult::Aborted { missing },
        }
    }
}

/// `r` with `acc` prepended to its outputs, if it has any.
spec fn run_continue(acc: Seq<Seq<char>>, r: RunResult) -> RunResult {
    match r {
        RunResult::Done { outputs, count } => RunResult::Done { outputs: acc + outputs, count },
        RunResult::Aborted { missing } => RunResult::Aborted { missing },
    }
}

/// A line identical to its immediate predecessor is skipped: it is not
/// parsed, produces no output, and leaves the count and the tracked
/// previous line unchanged.
pub proof fn lemma_duplicate_skipped(prev: Seq<char>, line: Seq<char>)
    requires
        line == prev,
    ensures
        step_of(prev, line) == StepOutcome::Skip,
{
}

/// A well-formed, non-duplicate line whose start and end timestamps
/// coincide is counted but produces no output line.
pub proof fn lemma_trivial_counted(prev: Seq<char>, line: Seq<char>)
    requires
        line != prev,
        tokens_of(line).len() >= 5,
        is_trivial(log_of_tokens(tokens_of(line))),
    ensures
        step_of(prev, line) == StepOutcome::Counted,
{
}

/// A well-formed, non-trivial, non-duplicate line produces exactly one
/// report line, in the fixed format, carrying its five field values
/// verbatim.
pub proof fn lemma_emit_format(prev: Seq<char>, line: Seq<char>)
    requires
        line != prev,
        tokens_of(line).len() >= 5,
        !is_trivial(log_of_tokens(tokens_of(line))),
    ensures
        step_of(prev, line) == StepOutcome::Emit(formatted_line(log_of_tokens(tokens_of(line)))),
{
}

/// A non-duplicate line with fewer than five tokens aborts processing,
/// naming the first missing field: the field whose position equals the
/// number of tokens the line does have.
pub proof fn lemma_short_line_fails(prev: Seq<char>, line: Seq<char>)
    requires
        line != prev,
        tokens_of(line).len() < 5,
    ensures
        step_of(prev, line) == StepOutcome::Fail(field_names()[tokens_of(line).len() as int]),
{
}

/// The number of lines a run accepts for counting: those that differ
/// from the tracked previous line and carry at least five tokens.
pub open spec fn accepted_count(lines: Seq<Seq<char>>, prev: Seq<char>) -> int
    decreases lines.len(),
{
    if lines.len() == 0 {
        0
    } else if lines[0] == prev {
        accepted_count(lines.drop_first(), prev)
    } else if tokens_of(lines[0]).len() >= 5 {
        1 + accepted_count(lines.drop_first(), lines[0])
    } else {
        0
    }
}

/// In a run that handles every line, the final count is the starting
/// count plus the number of non-duplicate, successfully parsed lines —
/// regardless of how many of their entries were then dropped as
/// trivial.
pub proof fn lemma_final_count(lines: Seq<Seq<char>>, prev: Seq<char>, count: int)
    requires
        run_of(lines, prev, count) is Done,
    ensures
        run_of(lines, prev, count)->Done_count == count + accepted_count(lines, prev),
    decreases lines.len(),
{
    if lines.len() == 0 {
    } else {
        match step_of(prev, lines[0]) {
            StepOutcome::Skip => {
                lemma_final_count(lines.drop_first(), prev, count);
            },
            StepOutcome::Counted => {
                lemma_final_count(lines.drop_first(), lines[0], count + 1);
            },
            StepOutcome::Emit(_) => {
                lemma_final_count(lines.drop_first(), lines[0], count + 1);
            },
            StepOutcome::Fail(_) => {},
        }
    }
}

/// Processing is deterministic: two runs over the same lines from the
/// same fresh state have the same outcome, so processing the same
/// input twice yields identical reports and counts.
pub proof fn lemma_runs_agree(lines: Seq<Seq<char>>, r1: RunResult, r2: RunResult)
    requires
        r1 == run_of(lines, Seq::<char>::empty(), 1),
        r2 == run_of(lines, Seq::<char>::empty(), 1),
    ensures
        r1 == r2,
{
}

/// The processor's per-run state: the last line that was compared and
/// found different, and the running count of parsed lines.
pub struct LineProcessor {
    pub prev_line: String,
    pub counter: u32,
}

impl LineProcessor {
    /// A fresh processor: no previous line, count starting at one, so
    /// the reported total is one more than the number of parsed lines.
    pub fn new() -> (r: Self)
        ensures
            r.prev_line@ == Seq::<char>::empty(),
            r.counter == 1,
    {
        LineProcessor { prev_line: String::new(), counter: 1 }
    }

    /// Handles one input line: skips it if it repeats its predecessor,
    /// otherwise parses it, counts it, and returns its report line
    /// unless the entry is trivial. A line with fewer than five tokens
    /// aborts with a `MissingEntry` failure.
    pub fn process_line(&mut self, line: &String) -> (r: Result<Option<String>, ParserError>)
        requires
            old(self).counter < u32::MAX,
        ensures
            match step_of(old(self).prev_line@, line@) {
                StepOutcome::Skip => r matches Ok(None)
                    && final(self).prev_line@ == old(self).prev_line@
                    && final(self).counter == old(self).counter,
                StepOutcome::Counted => r matches Ok(None) && final(self).prev_line@ == line@
                    && final(self).counter == old(self).counter + 1,
                StepOutcome::Emit(out) => r matches Ok(Some(o)) && o@ == out
                    && final(self).prev_line@ == line@
                    && final(self).counter == old(self).counter + 1,
                StepOutcome::Fail(missing) => r matches Err(e)
                    && e matches ParserError::MissingEntry(f) && f@ == missing
                    && final(self).prev_line@ == line@
                    && final(self).counter == old(self).counter,
            },
    {
        if line.eq(&self.prev_line) {
            return Ok(None);
        }
        self.prev_line = line.clone();
        let log = match parse_log(line.as_str()) {
            Ok(log) => log,
            Err(e) => { return Err(e) },
        };
        self.counter = self.counter + 1;
        if log.date_init.eq(&log.date_fin) && log.time_init.eq(&log.time_fin) {
            return Ok(None);
        }
        Ok(Some(log.format_line()))
    }
}

/// Runs the processor over `lines` in order: returns the report lines
/// and the final count, or the first line's `MissingEntry` failure.
pub fn process_lines(lines: &Vec<String>) -> (r: Result<(Vec<String>, u32), ParserError>)
    requires
        lines@.len() < u32::MAX,
    ensures
        match run_of(views_of(lines@), Seq::<char>::empty(), 1) {
            RunResult::Done { outputs, count } => r matches Ok(p) && views_of(p.0@) == outputs
                && p.1 == count,
            RunResult::Aborted { missing } => r matches Err(e)
                && e matches ParserError::MissingEntry(f) && f@ == missing,
        },
{
    let ghost all = views_of(lines@);
    let mut proc = LineProcessor::new();
    let mut outs: Vec<String> = Vec::new();
    let mut k: usize = 0;
    let n = lines.len();
    proof {
        assert(all.subrange(0, n as int) =~= all);
        assert(views_of(outs@) =~= Seq::<Seq<char>>::empty());
        match run_of(all, Seq::<char>::empty(), 1) {
            RunResult::Done { outputs, count } => {
                assert(Seq::<Seq<char>>::empty() + outputs =~= outputs);
            },
            RunResult::Aborted { missing } => {},
        }
    }
    while k < n
        invariant
            n == lines@.len(),
            n < u32::MAX,
            k <= n,
            all == views_of(lines@),
            proc.counter >= 1,
            proc.counter <= 1 + k,
            run_of(all, Seq::<char>::empty(), 1) == run_continue(
                views_of(outs@),
                run_of(all.subrange(k as int, n as int), proc.prev_line@, proc.counter as int),
            ),
        decreases n - k,
    {
        let ghost rest = all.subrange(k as int, n as int);
        proof {
            assert(rest[0] == all[k as int]);
            assert(rest.drop_first() =~= all.subrange(k as int + 1, n as int));
        }
        let line = &lines[k];
        let ghost old_proc = proc;
        let ghost old_outs = outs@;
        let step = proc.process_line(line);
        match step {
            Ok(Some(out)) => {
                outs.push(out);
                proof {
                    assert(views_of(outs@) =~= views_of(old_outs).push(out@));
                    let after = run_of(
                        all.subrange(k as int + 1, n as int),
                        proc.prev_line@,
                        proc.counter as int,
                    );
                    assert(run_of(rest, old_proc.prev_line@, old_proc.counter as int)
                        == run_continue(seq![out@], after));
                    assert(run_continue(views_of(old_outs), run_continue(seq![out@], after))
                        =~~= run_continue(views_of(outs@), after)) by {
                        match after {
                            RunResult::Done { outputs, count } => {
                                assert(views_of(old_outs) + (seq![out@] + outputs)
                                    =~= views_of(outs@) + outputs);
                            },
                            RunResult::Aborted { missing } => {},
                        }
                    }
                }
            },
            Ok(None) => {},
            Err(e) => {
                return Err(e);
            },
        }
        k = k + 1;
    }
    proof {
        assert(all.subrange(n as int, n as int) =~= Seq::<Seq<char>>::empty());
        assert(views_of(outs@) + Seq::<Seq<char>>::empty() =~= views_of(outs@));
    }
    Ok((outs, proc.counter))
}

} // verus!
