//! What a run of bots is summed up in.
use vstd::prelude::*;

use crate::bot::integrity::VoteIntegrityResult;
use crate::protocol::N_OPTIONS;
use crate::text::push_decimal;

verus! {

// ---------------------------------------------------------- round-trip times

/// Sums round-trip times up. The sums wrap around at the end of `u64`.
#[derive(Debug)]
pub struct RttCounter {
    pub sum_ms: u64,
    pub count: u64,
}

impl RttCounter {
    /// The counter with one more round trip in it.
    pub open spec fn with(self, rtt_ms: u64) -> RttCounter {
        RttCounter {
            sum_ms: self.sum_ms.wrapping_add(rtt_ms),
            count: self.count.wrapping_add(1),
        }
    }

    /// The counter with all of `rtts` in it.
    pub open spec fn with_all(self, rtts: Seq<u64>) -> RttCounter
        decreases rtts.len(),
    {
        if rtts.len() == 0 {
            self
        } else {
            self.with_all(rtts.drop_last()).with(rtts.last())
        }
    }

    /// The average of what was recorded.
    pub open spec fn mean(self) -> Option<u64> {
        if self.count == 0 {
            None
        } else {
            Some(self.sum_ms / self.count)
        }
    }

    pub fn new() -> (c: Self)
        ensures
            c == (RttCounter { sum_ms: 0, count: 0 }),
    {
        RttCounter { sum_ms: 0, count: 0 }
    }

    /// Records one round trip, in milliseconds.
    pub fn record(&mut self, rtt_ms: u64)
        ensures
            *final(self) == old(self).with(rtt_ms),
    {
        self.sum_ms = self.sum_ms.wrapping_add(rtt_ms);
        self.count = self.count.wrapping_add(1);
    }

    /// The average round trip, rounded down. `None` where none was recorded.
    pub fn average(&self) -> (r: Option<u64>)
        ensures
            r == self.mean(),
    {
        if self.count == 0 {
            None
        } else {
            Some(self.sum_ms / self.count)
        }
    }
}

/// What was recorded is averaged: the average is the sum of all round trips,
/// divided by how many there were.
pub proof fn law_average_is_sum_over_count(rtts: Seq<u64>)
    requires
        crate::vote::total_of(rtts) <= u64::MAX,
        rtts.len() <= u64::MAX,
    ensures
        ({
            let c = (RttCounter { sum_ms: 0, count: 0 }).with_all(rtts);
            &&& c.sum_ms == crate::vote::total_of(rtts)
            &&& c.count == rtts.len()
            &&& rtts.len() == 0 ==> c.mean() is None
            &&& rtts.len() > 0 ==> c.mean() is Some && c.mean()->0 == crate::vote::total_of(rtts)
                / rtts.len()
        }),
    decreases rtts.len(),
{
    if rtts.len() > 0 {
        law_average_is_sum_over_count(rtts.drop_last());
    }
}

// ------------------------------------------------------------------ outcomes

/// How a bot ended.
#[derive(Debug, Clone, Copy, PartialEq, Eq, Structural)]
pub enum BotOutcome {
    /// It did what it was there for.
    Finished,
    /// It gave up with an error.
    Failed,
    /// Its task did not come to an end of its own.
    Crashed,
}

/// How many bots finished.
pub open spec fn finished(outcomes: Seq<BotOutcome>) -> nat
    decreases outcomes.len(),
{
    if outcomes.len() == 0 {
        0
    } else {
        finished(outcomes.drop_last()) + if outcomes.last() == BotOutcome::Finished {
            1nat
        } else {
            0nat
        }
    }
}

/// Counts the bots that finished, and those that did not.
pub fn count_outcomes(outcomes: &Vec<BotOutcome>) -> (r: (usize, usize))
    ensures
        r.0 == finished(outcomes@),
        r.0 + r.1 == outcomes@.len(),
{
    let mut success: usize = 0;
    let mut failure: usize = 0;
    let mut i: usize = 0;
    while i < outcomes.len()
        invariant
            i <= outcomes@.len(),
            success == finished(outcomes@.take(i as int)),
            success + failure == i,
        decreases outcomes@.len() - i,
    {
        assert(outcomes@.take(i + 1).drop_last() == outcomes@.take(i as int));
        match outcomes[i] {
            BotOutcome::Finished => {
                success = success + 1;
            },
            BotOutcome::Failed => {
                failure = failure + 1;
            },
            BotOutcome::Crashed => {
                failure = failure + 1;
            },
        }
        i = i + 1;
    }
    assert(outcomes@.take(outcomes@.len() as int) == outcomes@);
    (success, failure)
}

// ---------------------------------------------------------------- the report

/// The summary of a run.
#[derive(Debug)]
pub struct ScenarioReport {
    pub mode: String,
    pub total_bots: usize,
    pub success_count: usize,
    pub failure_count: usize,
    /// How long the run took, in seconds, as a decimal with two places.
    pub elapsed_secs: String,
    pub avg_rtt_ms: Option<u64>,
    /// The verdict on the vote, where fickle bots took part.
    pub vote_integrity: Option<VoteIntegrityResult>,
}

/// A list of counts as it is written.
pub open spec fn counts_text(counts: [u64; N_OPTIONS]) -> Seq<char> {
    "["@ + crate::text::decimal(counts@[0] as nat) + ", "@ + crate::text::decimal(
        counts@[1] as nat,
    ) + ", "@ + crate::text::decimal(counts@[2] as nat) + ", "@ + crate::text::decimal(
        counts@[3] as nat,
    ) + "]"@
}

/// An average round trip as it is written.
pub open spec fn rtt_text(avg_rtt_ms: Option<u64>) -> Seq<char> {
    match avg_rtt_ms {
        Some(ms) => crate::text::decimal(ms as nat) + "ms"@,
        None => "N/A"@,
    }
}

/// A verdict as it is written.
pub open spec fn integrity_text(verdict: Option<VoteIntegrityResult>) -> Seq<char> {
    match verdict {
        Some(v) => (if v.passed {
            "PASS"@
        } else {
            "FAIL"@
        }) + " (expected="@ + counts_text(v.expected) + ", actual="@ + counts_text(v.actual)
            + ", fickle_bots="@ + crate::text::decimal(v.fickle_count as nat) + ")"@,
        None => "N/A"@,
    }
}

/// The lines of a report.
pub open spec fn report_lines(report: ScenarioReport) -> Seq<Seq<char>> {
    seq![
        "=== Scenario Report ==="@,
        "mode: "@ + report.mode@,
        "total_bots: "@ + crate::text::decimal(report.total_bots as nat),
        "success: "@ + crate::text::decimal(report.success_count as nat),
        "failure: "@ + crate::text::decimal(report.failure_count as nat),
        "elapsed: "@ + report.elapsed_secs@ + "s"@,
        "avg_rtt: "@ + rtt_text(report.avg_rtt_ms),
        "vote_integrity: "@ + integrity_text(report.vote_integrity),
    ]
}

/// Appends a list of counts.
fn push_counts(s: &mut String, counts: &[u64; N_OPTIONS])
    ensures
        final(s)@ == old(s)@ + counts_text(*counts),
{
    s.append("[");
    push_decimal(s, counts[0]);
    s.append(", ");
    push_decimal(s, counts[1]);
    s.append(", ");
    push_decimal(s, counts[2]);
    s.append(", ");
    push_decimal(s, counts[3]);
    s.append("]");
    assert(s@ =~= old(s)@ + counts_text(*counts));
}

/// Appends an average round trip.
fn push_rtt(s: &mut String, avg_rtt_ms: Option<u64>)
    ensures
        final(s)@ == old(s)@ + rtt_text(avg_rtt_ms),
{
    match avg_rtt_ms {
        Some(ms) => {
            push_decimal(s, ms);
            s.append("ms");
        },
        None => {
            s.append("N/A");
        },
    }
    assert(s@ =~= old(s)@ + rtt_text(avg_rtt_ms));
}

/// Appends a verdict.
fn push_integrity(s: &mut String, verdict: &Option<VoteIntegrityResult>)
    ensures
        final(s)@ == old(s)@ + integrity_text(*verdict),
{
    match verdict {
        Some(v) => {
            if v.passed {
                s.append("PASS");
            } else {
                s.append("FAIL");
            }
            s.append(" (expected=");
            push_counts(s, &v.expected);
            s.append(", actual=");
            push_counts(s, &v.actual);
            s.append(", fickle_bots=");
            push_decimal(s, v.fickle_count as u64);
            s.append(")");
        },
        None => {
            s.append("N/A");
        },
    }
    assert(s@ =~= old(s)@ + integrity_text(*verdict));
}

impl ScenarioReport {
    /// The report as it is printed.
    pub fn to_string(&self) -> (s: String)
        ensures
            s@ == crate::text::join(report_lines(*self), "\n"@),
    {
        let mut s = String::new();
        s.append("=== Scenario Report ===");
        s.append("\n");
        s.append("mode: ");
        s.append(self.mode.as_str());
        s.append("\n");
        s.append("total_bots: ");
        push_decimal(&mut s, self.total_bots as u64);
        s.append("\n");
        s.append("success: ");
        push_decimal(&mut s, self.success_count as u64);
        s.append("\n");
        s.append("failure: ");
        push_decimal(&mut s, self.failure_count as u64);
        s.append("\n");
        s.append("elapsed: ");
        s.append(self.elapsed_secs.as_str());
        s.append("s");
        s.append("\n");
        s.append("avg_rtt: ");
        push_rtt(&mut s, self.avg_rtt_ms);
        s.append("\n");
        s.append("vote_integrity: ");
        push_integrity(&mut s, &self.vote_integrity);
        proof {
            let l = report_lines(*self);
            lemma_join_eight(l, "\n"@);
            let nl = "\n"@;
            assert(s@ =~= l[0] + nl + l[1] + nl + l[2] + nl + l[3] + nl + l[4] + nl + l[5] + nl
                + l[6] + nl + l[7]);
        }
        s
    }
}

proof fn lemma_join_eight(l: Seq<Seq<char>>, nl: Seq<char>)
    requires
        l.len() == 8,
    ensures
        crate::text::join(l, nl) == l[0] + nl + l[1] + nl + l[2] + nl + l[3] + nl + l[4] + nl + l[5]
            + nl + l[6] + nl + l[7],
{
    reveal_with_fuel(crate::text::join, 9);
    let a = l.drop_last();
    let b = a.drop_last();
    let c = b.drop_last();
    let d = c.drop_last();
    let e = d.drop_last();
    let f = e.drop_last();
    let g = f.drop_last();
    assert(g.len() == 1);
    assert(crate::text::join(g, nl) == l[0]);
    assert(crate::text::join(f, nl) == l[0] + nl + l[1]);
    assert(crate::text::join(e, nl) == l[0] + nl + l[1] + nl + l[2]);
    assert(crate::text::join(d, nl) == l[0] + nl + l[1] + nl + l[2] + nl + l[3]);
    assert(crate::text::join(c, nl) == l[0] + nl + l[1] + nl + l[2] + nl + l[3] + nl + l[4]);
}

// --------------------------------------------------------------------- laws

proof fn lemma_no_newline_append(a: Seq<char>, b: Seq<char>)
    requires
        !a.contains('\n'),
        !b.contains('\n'),
    ensures
        !(a + b).contains('\n'),
{
    assert forall|i: int| 0 <= i < (a + b).len() implies (a + b)[i] != '\n' by {
        if i < a.len() {
            assert(a[i] == (a + b)[i]);
        } else {
            assert(b[i - a.len()] == (a + b)[i]);
        }
    }
}

proof fn lemma_no_newline_decimal(n: nat)
    ensures
        !crate::text::decimal(n).contains('\n'),
{
    crate::text::lemma_decimal_digits(n);
    let d = crate::text::decimal(n);
    assert forall|i: int| 0 <= i < d.len() implies d[i] != '\n' by {
        assert(crate::text::is_digit(d[i]));
    }
}

proof fn lemma_no_newline_counts(counts: [u64; N_OPTIONS])
    ensures
        !counts_text(counts).contains('\n'),
{
    reveal_strlit("[");
    reveal_strlit(", ");
    reveal_strlit("]");
    lemma_no_newline_decimal(counts@[0] as nat);
    lemma_no_newline_decimal(counts@[1] as nat);
    lemma_no_newline_decimal(counts@[2] as nat);
    lemma_no_newline_decimal(counts@[3] as nat);
    let d0 = crate::text::decimal(counts@[0] as nat);
    let d1 = crate::text::decimal(counts@[1] as nat);
    let d2 = crate::text::decimal(counts@[2] as nat);
    let d3 = crate::text::decimal(counts@[3] as nat);
    lemma_no_newline_append("["@, d0);
    lemma_no_newline_append("["@ + d0, ", "@);
    lemma_no_newline_append("["@ + d0 + ", "@, d1);
    lemma_no_newline_append("["@ + d0 + ", "@ + d1, ", "@);
    lemma_no_newline_append("["@ + d0 + ", "@ + d1 + ", "@, d2);
    lemma_no_newline_append("["@ + d0 + ", "@ + d1 + ", "@ + d2, ", "@);
    lemma_no_newline_append("["@ + d0 + ", "@ + d1 + ", "@ + d2 + ", "@, d3);
    lemma_no_newline_append("["@ + d0 + ", "@ + d1 + ", "@ + d2 + ", "@ + d3, "]"@);
}

proof fn lemma_no_newline_integrity(verdict: Option<VoteIntegrityResult>)
    ensures
        !integrity_text(verdict).contains('\n'),
{
    reveal_strlit("N/A");
    if let Some(v) = verdict {
        reveal_strlit("PASS");
        reveal_strlit("FAIL");
        reveal_strlit(" (expected=");
        reveal_strlit(", actual=");
        reveal_strlit(", fickle_bots=");
        reveal_strlit(")");
        let status = if v.passed {
            "PASS"@
        } else {
            "FAIL"@
        };
        let e = counts_text(v.expected);
        let a = counts_text(v.actual);
        let n = crate::text::decimal(v.fickle_count as nat);
        lemma_no_newline_counts(v.expected);
        lemma_no_newline_counts(v.actual);
        lemma_no_newline_decimal(v.fickle_count as nat);
        lemma_no_newline_append(status, " (expected="@);
        let t1 = status + " (expected="@;
        lemma_no_newline_append(t1, e);
        lemma_no_newline_append(t1 + e, ", actual="@);
        let t2 = t1 + e + ", actual="@;
        lemma_no_newline_append(t2, a);
        lemma_no_newline_append(t2 + a, ", fickle_bots="@);
        let t3 = t2 + a + ", fickle_bots="@;
        lemma_no_newline_append(t3, n);
        lemma_no_newline_append(t3 + n, ")"@);
    }
}

/// A report can be read back: where the mode and the time hold no line end of
/// their own, its lines are those of `report_lines`, each field on a line of its
/// own behind its key, and the numbers are read back as they were.
pub proof fn law_report_can_be_read_back(report: ScenarioReport)
    requires
        !report.mode@.contains('\n'),
        !report.elapsed_secs@.contains('\n'),
    ensures
        ({
            let text = crate::text::join(report_lines(report), "\n"@);
            let lines = crate::text::split(text, '\n');
            &&& lines == report_lines(report)
            &&& lines[1].skip("mode: "@.len() as int) == report.mode@
            &&& crate::text::read_number(
                lines[2].skip("total_bots: "@.len() as int),
                usize::MAX as nat,
            ) == Some(report.total_bots as nat)
            &&& crate::text::read_number(
                lines[3].skip("success: "@.len() as int),
                usize::MAX as nat,
            ) == Some(report.success_count as nat)
            &&& crate::text::read_number(
                lines[4].skip("failure: "@.len() as int),
                usize::MAX as nat,
            ) == Some(report.failure_count as nat)
            &&& lines[5].skip("elapsed: "@.len() as int) == report.elapsed_secs@ + "s"@
            &&& lines[6].skip("avg_rtt: "@.len() as int) == rtt_text(report.avg_rtt_ms)
            &&& lines[7].skip("vote_integrity: "@.len() as int) == integrity_text(
                report.vote_integrity,
            )
        }),
{
    reveal_strlit("=== Scenario Report ===");
    reveal_strlit("mode: ");
    reveal_strlit("total_bots: ");
    reveal_strlit("success: ");
    reveal_strlit("failure: ");
    reveal_strlit("elapsed: ");
    reveal_strlit("avg_rtt: ");
    reveal_strlit("vote_integrity: ");
    reveal_strlit("s");
    reveal_strlit("ms");
    reveal_strlit("N/A");
    reveal_strlit("\n");
    let l = report_lines(report);
    let total = crate::text::decimal(report.total_bots as nat);
    let success = crate::text::decimal(report.success_count as nat);
    let failure = crate::text::decimal(report.failure_count as nat);
    assert("\n"@ =~= seq!['\n']);
    lemma_no_newline_append("mode: "@, report.mode@);
    lemma_no_newline_decimal(report.total_bots as nat);
    lemma_no_newline_append("total_bots: "@, total);
    lemma_no_newline_decimal(report.success_count as nat);
    lemma_no_newline_append("success: "@, success);
    lemma_no_newline_decimal(report.failure_count as nat);
    lemma_no_newline_append("failure: "@, failure);
    lemma_no_newline_append("elapsed: "@, report.elapsed_secs@);
    lemma_no_newline_append("elapsed: "@ + report.elapsed_secs@, "s"@);
    if let Some(ms) = report.avg_rtt_ms {
        lemma_no_newline_decimal(ms as nat);
        lemma_no_newline_append(crate::text::decimal(ms as nat), "ms"@);
    }
    lemma_no_newline_append("avg_rtt: "@, rtt_text(report.avg_rtt_ms));
    lemma_no_newline_integrity(report.vote_integrity);
    lemma_no_newline_append("vote_integrity: "@, integrity_text(report.vote_integrity));
    assert forall|i: int| 0 <= i < l.len() implies !(#[trigger] l[i]).contains('\n') by {
        assert(i == 0 || i == 1 || i == 2 || i == 3 || i == 4 || i == 5 || i == 6 || i == 7);
    }
    crate::text::lemma_split_join(l, '\n');
    crate::text::lemma_read_decimal(report.total_bots as nat, usize::MAX as nat);
    crate::text::lemma_read_decimal(report.success_count as nat, usize::MAX as nat);
    crate::text::lemma_read_decimal(report.failure_count as nat, usize::MAX as nat);
    assert(l[1].skip("mode: "@.len() as int) =~= report.mode@);
    assert(l[2].skip("total_bots: "@.len() as int) =~= total);
    assert(l[3].skip("success: "@.len() as int) =~= success);
    assert(l[4].skip("failure: "@.len() as int) =~= failure);
    assert(l[5].skip("elapsed: "@.len() as int) =~= report.elapsed_secs@ + "s"@);
    assert(l[6].skip("avg_rtt: "@.len() as int) =~= rtt_text(report.avg_rtt_ms));
    assert(l[7].skip("vote_integrity: "@.len() as int) =~= integrity_text(report.vote_integrity));
}

/// A verdict is told by its first letter: `P` where the vote passed, `F` where
/// it failed, and `N` where there was none to judge.
pub proof fn law_verdicts_can_be_told_apart(verdict: Option<VoteIntegrityResult>)
    ensures
        integrity_text(verdict).len() > 0,
        verdict is None == (integrity_text(verdict)[0] == 'N'),
        verdict matches Some(v) ==> v.passed == (integrity_text(verdict)[0] == 'P') && !v.passed
            == (integrity_text(verdict)[0] == 'F'),
{
    reveal_strlit("PASS");
    reveal_strlit("FAIL");
    reveal_strlit("N/A");
}

/// The pieces of a verdict between its commas.
pub open spec fn verdict_pieces(v: VoteIntegrityResult) -> Seq<Seq<char>> {
    crate::text::split(integrity_text(Some(v)), ',')
}

/// A piece is `head` and a number, and perhaps something behind it.
pub open spec fn holds_number(
    piece: Seq<char>,
    head: Seq<char>,
    n: nat,
    tail: Seq<char>,
) -> bool {
    &&& piece == head + crate::text::decimal(n) + tail
    &&& crate::text::read_number(
        piece.subrange(head.len() as int, piece.len() - tail.len()),
        u64::MAX as nat,
    ) == Some(n)
}

proof fn lemma_holds_number(head: Seq<char>, n: nat, tail: Seq<char>)
    requires
        n <= u64::MAX,
        !head.contains(','),
        !tail.contains(','),
    ensures
        holds_number(head + crate::text::decimal(n) + tail, head, n, tail),
        !(head + crate::text::decimal(n) + tail).contains(','),
{
    let d = crate::text::decimal(n);
    let piece = head + d + tail;
    crate::text::lemma_decimal_digits(n);
    crate::text::lemma_read_decimal(n, u64::MAX as nat);
    assert(piece.subrange(head.len() as int, piece.len() - tail.len()) =~= d);
    assert forall|i: int| 0 <= i < piece.len() implies piece[i] != ',' by {
        if i < head.len() {
            assert(piece[i] == head[i]);
        } else if i < head.len() + d.len() {
            assert(crate::text::is_digit(d[i - head.len()]));
        } else {
            assert(piece[i] == tail[i - head.len() - d.len()]);
        }
    }
}

/// A verdict can be read back field by field. Behind "expected=" stand, in order
/// and as they are, the four votes of the bots for options 0 to 3; behind
/// "actual=" the four counts of the server; behind "fickle_bots=" the number of
/// bots.
pub proof fn law_verdicts_can_be_read_back(v: VoteIntegrityResult)
    ensures
        ({
            let pieces = verdict_pieces(v);
            let status = if v.passed {
                "PASS"@
            } else {
                "FAIL"@
            };
            let e = v.expected@;
            let a = v.actual@;
            &&& pieces.len() == 9
            &&& holds_number(pieces[0], status + " (expected=["@, e[0] as nat, ""@)
            &&& holds_number(pieces[1], " "@, e[1] as nat, ""@)
            &&& holds_number(pieces[2], " "@, e[2] as nat, ""@)
            &&& holds_number(pieces[3], " "@, e[3] as nat, "]"@)
            &&& holds_number(pieces[4], " actual=["@, a[0] as nat, ""@)
            &&& holds_number(pieces[5], " "@, a[1] as nat, ""@)
            &&& holds_number(pieces[6], " "@, a[2] as nat, ""@)
            &&& holds_number(pieces[7], " "@, a[3] as nat, "]"@)
            &&& holds_number(pieces[8], " fickle_bots="@, v.fickle_count as nat, ")"@)
        }),
{
    let status = if v.passed {
        "PASS"@
    } else {
        "FAIL"@
    };
    let e = v.expected@;
    let a = v.actual@;
    reveal_strlit("PASS");
    reveal_strlit("FAIL");
    reveal_strlit(" (expected=");
    reveal_strlit(" (expected=[");
    reveal_strlit(", actual=");
    reveal_strlit(" actual=[");
    reveal_strlit(", fickle_bots=");
    reveal_strlit(" fickle_bots=");
    reveal_strlit(")");
    reveal_strlit("[");
    reveal_strlit("]");
    reveal_strlit(", ");
    reveal_strlit(" ");
    reveal_strlit("");
    let head = status + " (expected=["@;
    assert forall|i: int| 0 <= i < head.len() implies head[i] != ',' by {
        if i < status.len() {
            assert(head[i] == status[i]);
        }
    }
    lemma_holds_number(head, e[0] as nat, ""@);
    lemma_holds_number(" "@, e[1] as nat, ""@);
    lemma_holds_number(" "@, e[2] as nat, ""@);
    lemma_holds_number(" "@, e[3] as nat, "]"@);
    lemma_holds_number(" actual=["@, a[0] as nat, ""@);
    lemma_holds_number(" "@, a[1] as nat, ""@);
    lemma_holds_number(" "@, a[2] as nat, ""@);
    lemma_holds_number(" "@, a[3] as nat, "]"@);
    lemma_holds_number(" fickle_bots="@, v.fickle_count as nat, ")"@);
    let p = seq![
        head + crate::text::decimal(e[0] as nat) + ""@,
        " "@ + crate::text::decimal(e[1] as nat) + ""@,
        " "@ + crate::text::decimal(e[2] as nat) + ""@,
        " "@ + crate::text::decimal(e[3] as nat) + "]"@,
        " actual=["@ + crate::text::decimal(a[0] as nat) + ""@,
        " "@ + crate::text::decimal(a[1] as nat) + ""@,
        " "@ + crate::text::decimal(a[2] as nat) + ""@,
        " "@ + crate::text::decimal(a[3] as nat) + "]"@,
        " fickle_bots="@ + crate::text::decimal(v.fickle_count as nat) + ")"@,
    ];
    assert forall|i: int| 0 <= i < p.len() implies !(#[trigger] p[i]).contains(',') by {
        assert(i == 0 || i == 1 || i == 2 || i == 3 || i == 4 || i == 5 || i == 6 || i == 7 || i
            == 8);
    }
    crate::text::lemma_split_join(p, ',');
    let c = seq![','];
    let front = p.drop_last();
    lemma_join_eight(front, c);
    assert(crate::text::join(p, c) == crate::text::join(front, c) + c + p[8]);
    lemma_verdict_text(v, p);
}

/// The pieces of a verdict, with a comma between them, are its text.
proof fn lemma_verdict_text(v: VoteIntegrityResult, p: Seq<Seq<char>>)
    requires
        p.len() == 9,
        ({
            let status = if v.passed {
                "PASS"@
            } else {
                "FAIL"@
            };
            let e = v.expected@;
            let a = v.actual@;
            &&& p[0] == status + " (expected=["@ + crate::text::decimal(e[0] as nat) + ""@
            &&& p[1] == " "@ + crate::text::decimal(e[1] as nat) + ""@
            &&& p[2] == " "@ + crate::text::decimal(e[2] as nat) + ""@
            &&& p[3] == " "@ + crate::text::decimal(e[3] as nat) + "]"@
            &&& p[4] == " actual=["@ + crate::text::decimal(a[0] as nat) + ""@
            &&& p[5] == " "@ + crate::text::decimal(a[1] as nat) + ""@
            &&& p[6] == " "@ + crate::text::decimal(a[2] as nat) + ""@
            &&& p[7] == " "@ + crate::text::decimal(a[3] as nat) + "]"@
            &&& p[8] == " fickle_bots="@ + crate::text::decimal(v.fickle_count as nat) + ")"@
        }),
    ensures
        ({
            let c = seq![','];
            integrity_text(Some(v)) == p[0] + c + p[1] + c + p[2] + c + p[3] + c + p[4] + c + p[5]
                + c + p[6] + c + p[7] + c + p[8]
        }),
{
    let c = seq![','];
    let status = if v.passed {
        "PASS"@
    } else {
        "FAIL"@
    };
    let e = counts_text(v.expected);
    let a = counts_text(v.actual);
    let n = crate::text::decimal(v.fickle_count as nat);
    let bots = ", fickle_bots="@;
    lemma_glue();
    let text = integrity_text(Some(v));
    assert(text == status + " (expected="@ + e + ", actual="@ + a + bots + n + ")"@);
    lemma_list_pieces(status + " (expected="@, v.expected);
    let left = status + " (expected="@ + e;
    assert(status + " (expected="@ + "["@ =~= status + (" (expected="@ + "["@));
    let d = crate::text::decimal(v.expected@[0] as nat);
    assert(p[0] =~= status + " (expected="@ + "["@ + d);
    assert(p[1] =~= " "@ + crate::text::decimal(v.expected@[1] as nat));
    assert(p[2] =~= " "@ + crate::text::decimal(v.expected@[2] as nat));
    assert(left == p[0] + c + p[1] + c + p[2] + c + p[3]);
    lemma_list_pieces(left + ", actual="@, v.actual);
    let d = crate::text::decimal(v.actual@[0] as nat);
    assert(left + ", actual="@ + "["@ + d =~= left + (", actual="@ + "["@) + d);
    assert(left + (c + " actual=["@) + d =~= left + c + (" actual=["@ + d));
    assert(p[4] =~= " actual=["@ + d);
    assert(p[5] =~= " "@ + crate::text::decimal(v.actual@[1] as nat));
    assert(p[6] =~= " "@ + crate::text::decimal(v.actual@[2] as nat));
    let both = left + ", actual="@ + a;
    assert(both == left + c + p[4] + c + p[5] + c + p[6] + c + p[7]);
    assert(both + bots + n + ")"@ =~= both + (c + " fickle_bots="@) + n + ")"@);
    assert(both + (c + " fickle_bots="@) + n + ")"@ =~= both + c + (" fickle_bots="@ + n + ")"@));
}

/// How the fixed parts of a verdict fit together.
proof fn lemma_glue()
    ensures
        " (expected="@ + "["@ == " (expected=["@,
        ", actual="@ + "["@ == seq![','] + " actual=["@,
        ", fickle_bots="@ == seq![','] + " fickle_bots="@,
        ", "@ == seq![','] + " "@,
        ""@ == Seq::<char>::empty(),
{
    reveal_strlit(" (expected=");
    reveal_strlit(" (expected=[");
    reveal_strlit(", actual=");
    reveal_strlit(" actual=[");
    reveal_strlit(", fickle_bots=");
    reveal_strlit(" fickle_bots=");
    reveal_strlit("[");
    reveal_strlit(", ");
    reveal_strlit(" ");
    reveal_strlit("");
    assert(" (expected="@ + "["@ =~= " (expected=["@);
    assert(", actual="@ + "["@ =~= seq![','] + " actual=["@);
    assert(", fickle_bots="@ =~= seq![','] + " fickle_bots="@);
    assert(", "@ =~= seq![','] + " "@);
    assert(""@ =~= Seq::<char>::empty());
}

/// A list of counts, with something in front of it, between its commas.
proof fn lemma_list_pieces(lead: Seq<char>, counts: [u64; N_OPTIONS])
    ensures
        ({
            let c = seq![','];
            let d = |i: int| crate::text::decimal(counts@[i] as nat);
            lead + counts_text(counts) == (lead + "["@ + d(0)) + c + (" "@ + d(1)) + c + (" "@ + d(
                2,
            )) + c + (" "@ + d(3) + "]"@)
        }),
{
    lemma_glue();
    let c = seq![','];
    let sp = " "@;
    let d0 = crate::text::decimal(counts@[0] as nat);
    let d1 = crate::text::decimal(counts@[1] as nat);
    let d2 = crate::text::decimal(counts@[2] as nat);
    let d3 = crate::text::decimal(counts@[3] as nat);
    let t0 = "["@ + d0;
    let t1 = t0 + ", "@ + d1;
    let t2 = t1 + ", "@ + d2;
    let t3 = t2 + ", "@ + d3;
    assert(counts_text(counts) == t3 + "]"@);
    let u0 = lead + "["@ + d0;
    assert(lead + t0 =~= u0);
    let u1 = u0 + c + (sp + d1);
    assert(lead + t1 =~= (lead + t0) + (c + sp) + d1);
    assert(u0 + (c + sp) + d1 =~= u1);
    let u2 = u1 + c + (sp + d2);
    assert(lead + t2 =~= (lead + t1) + (c + sp) + d2);
    assert(u1 + (c + sp) + d2 =~= u2);
    let u3 = u2 + c + (sp + d3 + "]"@);
    assert(lead + (t3 + "]"@) =~= (lead + t2) + (c + sp) + d3 + "]"@);
    assert(u2 + (c + sp) + d3 + "]"@ =~= u3);
}

/// An average can be read back: its number is what stands in front of "ms", and
/// without one there is no number.
pub proof fn law_averages_can_be_read_back(avg_rtt_ms: Option<u64>)
    ensures
        avg_rtt_ms matches Some(ms) ==> {
            let text = rtt_text(avg_rtt_ms);
            &&& text.len() > 2
            &&& text.skip(text.len() - 2) == "ms"@
            &&& crate::text::read_number(text.take(text.len() - 2), u64::MAX as nat) == Some(
                ms as nat,
            )
        },
        avg_rtt_ms is None ==> rtt_text(avg_rtt_ms) == "N/A"@,
{
    reveal_strlit("ms");
    if let Some(ms) = avg_rtt_ms {
        let d = crate::text::decimal(ms as nat);
        let text = rtt_text(avg_rtt_ms);
        crate::text::lemma_decimal_digits(ms as nat);
        crate::text::lemma_read_decimal(ms as nat, u64::MAX as nat);
        assert(text.take(text.len() - 2) =~= d);
        assert(text.skip(text.len() - 2) =~= "ms"@);
    }
}

/// The bots that succeeded are those that finished, and no others.
pub proof fn law_successes_are_a_head_count(outcomes: Seq<BotOutcome>)
    ensures
        ({
            let ends = Set::new(
                |i: int| 0 <= i < outcomes.len() && outcomes[i] == BotOutcome::Finished,
            );
            ends.finite() && ends.len() == finished(outcomes)
        }),
    decreases outcomes.len(),
{
    let ends = Set::new(|i: int| 0 <= i < outcomes.len() && outcomes[i] == BotOutcome::Finished);
    if outcomes.len() == 0 {
        assert(ends =~= Set::empty());
    } else {
        let front = outcomes.drop_last();
        let n = outcomes.len() - 1;
        let before = Set::new(
            |i: int| 0 <= i < front.len() && front[i] == BotOutcome::Finished,
        );
        law_successes_are_a_head_count(front);
        assert forall|i: int| 0 <= i < n implies front[i] == outcomes[i] by {}
        if outcomes[n] == BotOutcome::Finished {
            assert(ends =~= before.insert(n));
        } else {
            assert(ends =~= before);
        }
    }
}

/// A report has eight lines: its title and, each behind its key, the mode, the
/// numbers of bots, the time, the average and the verdict.
pub proof fn law_reports_have_eight_lines(report: ScenarioReport)
    ensures
        ({
            let lines = report_lines(report);
            &&& lines.len() == 8
            &&& lines[0] == "=== Scenario Report ==="@
            &&& lines[1] == "mode: "@ + report.mode@
            &&& lines[2] == "total_bots: "@ + crate::text::decimal(report.total_bots as nat)
            &&& lines[3] == "success: "@ + crate::text::decimal(report.success_count as nat)
            &&& lines[4] == "failure: "@ + crate::text::decimal(report.failure_count as nat)
            &&& lines[5] == "elapsed: "@ + report.elapsed_secs@ + "s"@
            &&& report.avg_rtt_ms is None ==> lines[6] == "avg_rtt: "@ + "N/A"@
            &&& report.avg_rtt_ms matches Some(ms) ==> lines[6] == "avg_rtt: "@ + (
            crate::text::decimal(ms as nat) + "ms"@)
            &&& report.vote_integrity is None ==> lines[7] == "vote_integrity: "@ + "N/A"@
        }),
{
}

} // verus!
