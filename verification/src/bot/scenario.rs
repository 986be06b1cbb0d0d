//! What a run of bots is made of, and what comes out of it.
use vstd::prelude::*;

use crate::bot::allocate::allocate;
use crate::bot::integrity::{vote_integrity, FickleResult};
use crate::bot::ratio::{BotType, RatioSpec};
use crate::bot::report::{count_outcomes, BotOutcome, RttCounter, ScenarioReport};
use crate::text::str_equal;

verus! {

/// How long a bot that never reads stays connected, in seconds.
pub const GHOST_HOLD_SECS: u64 = 5;

/// The bots of a run, by their ids: bot `i` is of kind `bots[i]`, and does
/// nothing where that is `None`.
#[derive(Debug)]
pub struct ScenarioPlan {
    pub bots: Vec<Option<BotType>>,
    /// How many bots each entry of the mix was given, in a run of mode `mixed`.
    pub allocation: Vec<(BotType, usize)>,
    /// How many bots meet before the vote is judged.
    pub barrier: usize,
}

/// How many messages should have come back to the bots, and how many did.
#[derive(Debug, Clone, Copy, PartialEq, Eq, Structural)]
pub struct Delivery {
    pub expected: u64,
    pub received: u64,
}

// ------------------------------------------------------------ specification

/// The mix of a run for which none was asked.
pub open spec fn default_mix() -> Seq<(BotType, u32)> {
    seq![
        (BotType::Normal, 40),
        (BotType::Spammer, 20),
        (BotType::Fickle, 20),
        (BotType::GhostBot, 10),
        (BotType::Quitter, 10),
    ]
}

/// The mix that was asked for, or what is wrong with it.
pub open spec fn mix_of(ratio: Option<&str>) -> Result<Seq<(BotType, u32)>, Seq<char>> {
    match ratio {
        None => Ok(default_mix()),
        Some(s) => match crate::bot::ratio::parse_ratio(s@) {
            Ok(entries) => Ok(entries),
            Err(text) => Err("유효하지 않은 ratio: "@ + text),
        },
    }
}

/// The bots of a mix, kind by kind: as many of each as it was given, among
/// `total`, for the first `n` entries.
pub open spec fn mixed_bots(
    total: nat,
    entries: Seq<(BotType, u32)>,
    n: nat,
) -> Seq<Option<BotType>>
    decreases n,
{
    if n == 0 {
        Seq::empty()
    } else {
        mixed_bots(total, entries, (n - 1) as nat) + Seq::new(
            crate::bot::allocate::allocated(total, entries, n - 1),
            |i: int| Some(entries[n - 1].0),
        )
    }
}

/// How many of `bots` are of a kind.
pub open spec fn of_kind(bots: Seq<Option<BotType>>, kind: BotType) -> nat
    decreases bots.len(),
{
    if bots.len() == 0 {
        0
    } else {
        of_kind(bots.drop_last(), kind) + if bots.last() == Some(kind) {
            1nat
        } else {
            0nat
        }
    }
}

/// Each entry of a mix, with as many bots as it is given among `total`.
pub open spec fn is_allocation(
    allocation: Seq<(BotType, usize)>,
    total: nat,
    entries: Seq<(BotType, u32)>,
) -> bool {
    &&& allocation.len() == entries.len()
    &&& forall|i: int|
        0 <= i < entries.len() ==> (#[trigger] allocation[i]).0 == entries[i].0 && allocation[i].1
            == crate::bot::allocate::allocated(total, entries, i)
}

/// How many bots of a kind the first `n` entries of a mix were given.
pub open spec fn given(total: nat, entries: Seq<(BotType, u32)>, kind: BotType, n: nat) -> nat
    decreases n,
{
    if n == 0 {
        0
    } else {
        given(total, entries, kind, (n - 1) as nat) + if entries[n - 1].0 == kind {
            crate::bot::allocate::allocated(total, entries, n - 1)
        } else {
            0
        }
    }
}

/// The bots of a run, or what is wrong with the mix that was asked for.
pub open spec fn planned_bots(mode: Seq<char>, count: usize, ratio: Option<&str>) -> Result<
    Seq<Option<BotType>>,
    Seq<char>,
> {
    if mode == "mixed"@ {
        match mix_of(ratio) {
            Ok(entries) => Ok(mixed_bots(count as nat, entries, entries.len())),
            Err(text) => Err(text),
        }
    } else {
        Ok(Seq::new(count as nat, |i: int| crate::bot::ratio::bot_named(mode)))
    }
}

// ---------------------------------------------------------------- functions

/// The mix that was asked for. With none, it is `RatioSpec::DEFAULT`.
pub fn scenario_mix(ratio: Option<&str>) -> (r: Result<RatioSpec, String>)
    ensures
        match mix_of(ratio) {
            Ok(entries) => r matches Ok(spec) && spec.entries@ == entries,
            Err(text) => r matches Err(t) && t@ == text,
        },
{
    match ratio {
        None => {
            proof {
                lemma_default_mix();
            }
            RatioSpec::parse(RatioSpec::DEFAULT)
        },
        Some(s) => match RatioSpec::parse(s) {
            Ok(spec) => Ok(spec),
            Err(e) => {
                let mut text = "유효하지 않은 ratio: ".to_owned();
                text.append(e.as_str());
                Err(text)
            },
        },
    }
}

/// How many of `bots` are of a kind.
fn count_kind(bots: &Vec<Option<BotType>>, kind: BotType) -> (n: usize)
    ensures
        n == of_kind(bots@, kind),
        n <= bots@.len(),
{
    let mut n: usize = 0;
    let mut i: usize = 0;
    while i < bots.len()
        invariant
            i <= bots@.len(),
            n == of_kind(bots@.take(i as int), kind),
            n <= i,
        decreases bots@.len() - i,
    {
        assert(bots@.take(i + 1).drop_last() == bots@.take(i as int));
        if let Some(k) = bots[i] {
            if k == kind {
                n = n + 1;
            }
        }
        i = i + 1;
    }
    assert(bots@.take(bots@.len() as int) == bots@);
    n
}

/// The bots of a mix.
fn mixed_plan(count: usize, mix: &RatioSpec) -> (r: (Vec<(BotType, usize)>, Vec<Option<BotType>>))
    requires
        crate::bot::allocate::in_range(count as nat, mix.entries@),
    ensures
        is_allocation(r.0@, count as nat, mix.entries@),
        r.1@ == mixed_bots(count as nat, mix.entries@, mix.entries@.len()),
        mix.entries@.len() > 0 ==> r.1@.len() == count,
{
    let allocation = allocate(count, mix);
    let mut bots: Vec<Option<BotType>> = Vec::new();
    let mut k: usize = 0;
    while k < allocation.len()
        invariant
            k <= allocation@.len(),
            is_allocation(allocation@, count as nat, mix.entries@),
            bots@ == mixed_bots(count as nat, mix.entries@, k as nat),
            bots@.len() == crate::bot::allocate::bot_sum(allocation@.take(k as int)),
        decreases allocation@.len() - k,
    {
        let (kind, n) = allocation[k];
        let ghost before = bots@;
        let mut i: usize = 0;
        while i < n
            invariant
                i <= n,
                bots@ == before + Seq::new(i as nat, |j: int| Some(kind)),
            decreases n - i,
        {
            bots.push(Some(kind));
            i = i + 1;
            assert(bots@ =~= before + Seq::new(i as nat, |j: int| Some(kind)));
        }
        proof {
            let next = mixed_bots(count as nat, mix.entries@, (k + 1) as nat);
            assert(allocation@[k as int].1 == n);
            assert(bots@ =~= next);
            assert(allocation@.take(k + 1).drop_last() == allocation@.take(k as int));
        }
        k = k + 1;
    }
    assert(allocation@.take(allocation@.len() as int) == allocation@);
    (allocation, bots)
}

/// Which bots a run is made of. A run in mode `mixed` has bots of the kinds of
/// its mix, any other only bots of the kind that its mode names.
pub fn plan_scenario(mode: &str, count: usize, ratio: Option<&str>) -> (r: Result<
    ScenarioPlan,
    String,
>)
    requires
        mode@ == "mixed"@ ==> (mix_of(ratio) matches Ok(entries)
            ==> crate::bot::allocate::in_range(count as nat, entries)),
    ensures
        match planned_bots(mode@, count, ratio) {
            Ok(bots) => {
                &&& r matches Ok(plan)
                &&& plan.bots@ == bots
                &&& bots.len() == count
                &&& mode@ == "mixed"@ ==> is_allocation(
                    plan.allocation@,
                    count as nat,
                    mix_of(ratio)->Ok_0,
                )
                &&& mode@ != "mixed"@ ==> plan.allocation@.len() == 0
                &&& plan.barrier == if of_kind(bots, BotType::Fickle) == 0 {
                    1
                } else {
                    of_kind(bots, BotType::Fickle)
                }
            },
            Err(text) => r matches Err(t) && t@ == text,
        },
{
    let (allocation, bots) = if str_equal(mode, "mixed") {
        match scenario_mix(ratio) {
            Ok(mix) => {
                proof {
                    lemma_mix_is_not_empty(ratio);
                }
                mixed_plan(count, &mix)
            },
            Err(text) => {
                return Err(text);
            },
        }
    } else {
        let kind = match BotType::from_str(mode) {
            Ok(kind) => Some(kind),
            Err(_) => None,
        };
        let mut bots: Vec<Option<BotType>> = Vec::new();
        let mut i: usize = 0;
        while i < count
            invariant
                i <= count,
                kind == crate::bot::ratio::bot_named(mode@),
                bots@ == Seq::new(i as nat, |j: int| crate::bot::ratio::bot_named(mode@)),
            decreases count - i,
        {
            bots.push(kind);
            i = i + 1;
            assert(bots@ =~= Seq::new(i as nat, |j: int| crate::bot::ratio::bot_named(mode@)));
        }
        (Vec::new(), bots)
    };
    let fickle = count_kind(&bots, BotType::Fickle);
    let barrier: usize = if fickle == 0 {
        1
    } else {
        fickle
    };
    Ok(ScenarioPlan { bots, allocation, barrier })
}

/// In a run of mode `normal`, every message must have come back. The other
/// modes say nothing of it.
pub fn delivery_check(mode: &str, count: usize, msg_per_bot: usize, received: u64) -> (r: Option<
    Delivery,
>)
    requires
        mode@ == "normal"@ ==> count * msg_per_bot <= usize::MAX,
    ensures
        r == if mode@ == "normal"@ {
            Some(Delivery { expected: (count * msg_per_bot) as u64, received })
        } else {
            None
        },
{
    if str_equal(mode, "normal") {
        Some(Delivery { expected: (count * msg_per_bot) as u64, received })
    } else {
        None
    }
}

impl Delivery {
    /// Whether nothing was lost.
    pub fn is_complete(&self) -> (r: bool)
        ensures
            r == (self.expected == self.received),
    {
        self.expected == self.received
    }
}

/// Sums a run up. The vote is judged where fickle bots can have taken part.
pub fn scenario_report(
    mode: &str,
    count: usize,
    outcomes: &Vec<BotOutcome>,
    elapsed_secs: String,
    rtt: &RttCounter,
    results: &Vec<FickleResult>,
) -> (report: ScenarioReport)
    ensures
        report.mode@ == mode@,
        report.total_bots == count,
        report.success_count == crate::bot::report::finished(outcomes@),
        report.success_count + report.failure_count == outcomes@.len(),
        report.elapsed_secs@ == elapsed_secs@,
        report.avg_rtt_ms == rtt.mean(),
        report.vote_integrity is Some == ((mode@ == "mixed"@ || mode@ == "fickle"@)
            && results@.len() > 0),
        report.vote_integrity matches Some(v) ==> {
            &&& crate::bot::integrity::is_agreed(results@, v.actual)
            &&& v.expected == crate::bot::integrity::tallied(
                crate::bot::integrity::last_votes(results@),
            )
            &&& v.passed == (v.expected == v.actual)
            &&& v.fickle_count == results@.len()
        },
{
    let (success_count, failure_count) = count_outcomes(outcomes);
    let judged = if str_equal(mode, "mixed") || str_equal(mode, "fickle") {
        vote_integrity(results)
    } else {
        None
    };
    ScenarioReport {
        mode: mode.to_owned(),
        total_bots: count,
        success_count,
        failure_count,
        elapsed_secs,
        avg_rtt_ms: rtt.average(),
        vote_integrity: judged,
    }
}

// --------------------------------------------------------------------- laws

proof fn lemma_mix_is_not_empty(ratio: Option<&str>)
    ensures
        mix_of(ratio) matches Ok(entries) ==> entries.len() > 0,
{
    if let Some(s) = ratio {
        let mix = crate::text::trim(s@);
        crate::text::lemma_split_parts(mix, ',');
        crate::bot::ratio::law_parsed_ratios_are_positive(crate::text::split(mix, ','));
    }
}

proof fn lemma_of_kind_append(a: Seq<Option<BotType>>, b: Seq<Option<BotType>>, kind: BotType)
    ensures
        of_kind(a + b, kind) == of_kind(a, kind) + of_kind(b, kind),
    decreases b.len(),
{
    if b.len() == 0 {
        assert(a + b == a);
    } else {
        lemma_of_kind_append(a, b.drop_last(), kind);
        assert((a + b).drop_last() == a + b.drop_last());
    }
}

proof fn lemma_of_kind_uniform(n: nat, own: BotType, kind: BotType)
    ensures
        of_kind(Seq::new(n, |i: int| Some(own)), kind) == if own == kind {
            n
        } else {
            0
        },
    decreases n,
{
    if n > 0 {
        lemma_of_kind_uniform((n - 1) as nat, own, kind);
        let all = Seq::new(n, |i: int| Some(own));
        assert(all.drop_last() =~= Seq::new((n - 1) as nat, |i: int| Some(own)));
    }
}

/// A mixed run has as many bots of each kind as the entries of its mix were
/// given for that kind.
pub proof fn law_mixed_runs_have_what_was_given(
    total: nat,
    entries: Seq<(BotType, u32)>,
    kind: BotType,
    n: nat,
)
    requires
        n <= entries.len(),
    ensures
        of_kind(mixed_bots(total, entries, n), kind) == given(total, entries, kind, n),
    decreases n,
{
    if n > 0 {
        law_mixed_runs_have_what_was_given(total, entries, kind, (n - 1) as nat);
        let own = entries[n - 1].0;
        let many = crate::bot::allocate::allocated(total, entries, n - 1);
        let group = Seq::new(many, |i: int| Some(own));
        lemma_of_kind_append(mixed_bots(total, entries, (n - 1) as nat), group, kind);
        lemma_of_kind_uniform(many, own, kind);
        assert(mixed_bots(total, entries, n) =~= mixed_bots(total, entries, (n - 1) as nat)
            + group);
    }
}

proof fn lemma_decimals()
    ensures
        crate::text::decimal(10) == seq!['1', '0'],
        crate::text::decimal(20) == seq!['2', '0'],
        crate::text::decimal(40) == seq!['4', '0'],
{
    reveal_with_fuel(crate::text::decimal, 3);
}

/// `RatioSpec::DEFAULT` is read as forty normal bots, twenty spammers, twenty
/// fickle ones, ten ghosts and ten quitters out of a hundred.
pub proof fn lemma_default_mix()
    ensures
        crate::bot::ratio::parse_ratio(RatioSpec::DEFAULT@) == Ok::<
            Seq<(BotType, u32)>,
            Seq<char>,
        >(default_mix()),
        crate::bot::allocate::ratio_sum(default_mix()) == 100,
{
    let mix = default_mix();
    reveal_strlit("normal:40,spammer:20,fickle:20,ghost:10,quitter:10");
    reveal_strlit("normal");
    reveal_strlit("spammer");
    reveal_strlit("fickle");
    reveal_strlit("ghost");
    reveal_strlit("quitter");
    reveal_strlit(":");
    reveal_strlit(",");
    lemma_decimals();
    let texts = Seq::new(mix.len(), |i: int| crate::bot::ratio::entry_text(mix[i]));
    let sep = ","@;
    assert(crate::text::join(texts, sep) == texts[0] + sep + texts[1] + sep + texts[2] + sep
        + texts[3] + sep + texts[4]) by {
        reveal_with_fuel(crate::text::join, 6);
        assert(texts.drop_last().drop_last().drop_last().drop_last().len() == 1);
    }
    assert(RatioSpec::DEFAULT@ =~= crate::bot::ratio::ratio_text(mix));
    crate::bot::ratio::law_ratio_round_trips(mix);
    reveal_with_fuel(crate::bot::allocate::ratio_sum, 6);
}

/// In any mode but `mixed` all bots are of the kind that the mode names, and do
/// nothing where it names none; there are as many as were asked for, whatever the
/// mix.
pub proof fn law_single_modes_have_one_kind(
    mode: Seq<char>,
    count: usize,
    ratio: Option<&str>,
    i: int,
)
    requires
        mode != "mixed"@,
        0 <= i < count,
    ensures
        planned_bots(mode, count, ratio) matches Ok(bots) && {
            &&& bots.len() == count
            &&& mode == "normal"@ ==> bots[i] == Some(BotType::Normal)
            &&& mode == "fickle"@ ==> bots[i] == Some(BotType::Fickle)
            &&& mode == "spammer"@ ==> bots[i] == Some(BotType::Spammer)
            &&& mode == "ghost"@ ==> bots[i] == Some(BotType::GhostBot)
            &&& mode == "quitter"@ ==> bots[i] == Some(BotType::Quitter)
            &&& mode != "normal"@ && mode != "fickle"@ && mode != "spammer"@ && mode != "ghost"@
                && mode != "quitter"@ ==> bots[i] is None
        },
{
    crate::bot::ratio::law_bot_names_round_trip(BotType::Normal);
    crate::bot::ratio::law_bot_names_round_trip(BotType::Fickle);
    crate::bot::ratio::law_bot_names_round_trip(BotType::Spammer);
    crate::bot::ratio::law_bot_names_round_trip(BotType::GhostBot);
    crate::bot::ratio::law_bot_names_round_trip(BotType::Quitter);
}

/// In mode `mixed` the bots of each entry stand behind those of the entries before
/// it, as many as the entry was given and all of its kind.
pub proof fn law_mixed_bots_stand_in_order(total: nat, entries: Seq<(BotType, u32)>, n: nat)
    requires
        n < entries.len(),
    ensures
        ({
            let before = mixed_bots(total, entries, n);
            let after = mixed_bots(total, entries, n + 1);
            let many = crate::bot::allocate::allocated(total, entries, n as int);
            &&& mixed_bots(total, entries, 0).len() == 0
            &&& after.len() == before.len() + many
            &&& after.take(before.len() as int) == before
            &&& forall|i: int|
                before.len() <= i < after.len() ==> #[trigger] after[i] == Some(
                    entries[n as int].0,
                )
        }),
{
    let before = mixed_bots(total, entries, n);
    assert(mixed_bots(total, entries, n + 1).take(before.len() as int) =~= before);
}

/// In mode `mixed` a wrong mix is reported with what is wrong with it, and a right
/// one is what the bots are made of. With none, the default is.
pub proof fn law_mixes_are_what_was_asked_for(count: usize, s: &str)
    ensures
        crate::bot::ratio::parse_ratio(s@) matches Err(text) ==> planned_bots(
            "mixed"@,
            count,
            Some(s),
        ) == Err::<Seq<Option<BotType>>, Seq<char>>("유효하지 않은 ratio: "@ + text),
        crate::bot::ratio::parse_ratio(s@) matches Ok(entries) ==> planned_bots(
            "mixed"@,
            count,
            Some(s),
        ) == Ok::<Seq<Option<BotType>>, Seq<char>>(
            mixed_bots(count as nat, entries, entries.len()),
        ),
        crate::bot::ratio::parse_ratio(RatioSpec::DEFAULT@) matches Ok(entries) ==> planned_bots(
            "mixed"@,
            count,
            None,
        ) == Ok::<Seq<Option<BotType>>, Seq<char>>(
            mixed_bots(count as nat, entries, entries.len()),
        ),
{
    lemma_default_mix();
}

/// Bots of a kind are counted by what they are.
pub proof fn law_kinds_are_head_counts(bots: Seq<Option<BotType>>, kind: BotType)
    ensures
        ({
            let these = Set::new(|i: int| 0 <= i < bots.len() && bots[i] == Some(kind));
            these.finite() && these.len() == of_kind(bots, kind)
        }),
    decreases bots.len(),
{
    let these = Set::new(|i: int| 0 <= i < bots.len() && bots[i] == Some(kind));
    if bots.len() == 0 {
        assert(these =~= Set::empty());
    } else {
        let front = bots.drop_last();
        let n = bots.len() - 1;
        let before = Set::new(|i: int| 0 <= i < front.len() && front[i] == Some(kind));
        law_kinds_are_head_counts(front, kind);
        assert forall|i: int| 0 <= i < n implies front[i] == bots[i] by {}
        if bots[n] == Some(kind) {
            assert(these =~= before.insert(n));
        } else {
            assert(these =~= before);
        }
    }
}

} // verus!
