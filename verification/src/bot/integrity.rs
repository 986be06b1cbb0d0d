//! Whether the server's vote is what the bots voted.
use vstd::prelude::*;

use crate::protocol::N_OPTIONS;

verus! {

/// What a fickle bot has to say when it is done.
#[derive(Debug, Clone)]
pub struct FickleResult {
    /// The option that it voted for last.
    pub last_vote: Option<usize>,
    /// The counts that it was shown last.
    pub last_snapshot: Option<[u64; N_OPTIONS]>,
}

/// What the bots voted against what the server counted.
#[derive(Debug, Clone, PartialEq, Eq)]
pub struct VoteIntegrityResult {
    /// The two agree, option by option.
    pub passed: bool,
    /// The votes of the bots.
    pub expected: [u64; N_OPTIONS],
    /// The counts of the server.
    pub actual: [u64; N_OPTIONS],
    /// How many fickle bots took part.
    pub fickle_count: usize,
}

// ------------------------------------------------------------ specification

/// How many of `votes` are for each option.
pub open spec fn tallied(votes: Seq<Option<usize>>) -> [u64; N_OPTIONS] {
    [
        crate::vote::tally(votes, 0) as u64,
        crate::vote::tally(votes, 1) as u64,
        crate::vote::tally(votes, 2) as u64,
        crate::vote::tally(votes, 3) as u64,
    ]
}

/// What the bots voted for last.
pub open spec fn last_votes(results: Seq<FickleResult>) -> Seq<Option<usize>> {
    Seq::new(results.len(), |i: int| results[i].last_vote)
}

/// How many bots were shown `counts` last.
pub open spec fn seen(results: Seq<FickleResult>, counts: [u64; N_OPTIONS]) -> nat
    decreases results.len(),
{
    if results.len() == 0 {
        0
    } else {
        seen(results.drop_last(), counts) + if results.last().last_snapshot == Some(counts) {
            1nat
        } else {
            0nat
        }
    }
}

/// How many bots were shown anything.
pub open spec fn observers(results: Seq<FickleResult>) -> nat
    decreases results.len(),
{
    if results.len() == 0 {
        0
    } else {
        observers(results.drop_last()) + if results.last().last_snapshot is Some {
            1nat
        } else {
            0nat
        }
    }
}

/// Bot `k` speaks for all: no other counts were seen by more bots than those it
/// was shown, and none that as many saw were shown to a later bot.
pub open spec fn speaks_for_all(results: Seq<FickleResult>, k: int) -> bool {
    &&& 0 <= k < results.len()
    &&& results[k].last_snapshot is Some
    &&& forall|j: int|
        0 <= j < results.len() && (#[trigger] results[j]).last_snapshot is Some ==> {
            let most = seen(results, results[k].last_snapshot->0);
            let other = seen(results, results[j].last_snapshot->0);
            other < most || (other == most && j <= k)
        }
}

/// `counts` are what most bots were shown; zeros where no bot was shown any.
pub open spec fn is_agreed(results: Seq<FickleResult>, counts: [u64; N_OPTIONS]) -> bool {
    if exists|j: int| 0 <= j < results.len() && (#[trigger] results[j]).last_snapshot is Some {
        exists|k: int| #[trigger]
            speaks_for_all(results, k) && results[k].last_snapshot == Some(counts)
    } else {
        counts == [0u64, 0u64, 0u64, 0u64]
    }
}

// ---------------------------------------------------------------- functions

/// Counts the votes for each option. Who did not vote, or voted for an option
/// that does not exist, is not counted.
pub fn tally_votes(last_votes: &[Option<usize>]) -> (counts: [u64; N_OPTIONS])
    ensures
        counts == tallied(last_votes@),
{
    let mut counts: [u64; N_OPTIONS] = [0, 0, 0, 0];
    let mut i: usize = 0;
    while i < last_votes.len()
        invariant
            i <= last_votes@.len(),
            forall|o: int|
                0 <= o < N_OPTIONS ==> #[trigger] counts@[o] == crate::vote::tally(
                    last_votes@.take(i as int),
                    o,
                ),
        decreases last_votes@.len() - i,
    {
        proof {
            assert(last_votes@.take(i + 1).drop_last() == last_votes@.take(i as int));
            assert forall|o: int| 0 <= o < N_OPTIONS implies #[trigger] counts@[o] <= i by {
                crate::vote::lemma_tally_bound(last_votes@.take(i as int), o);
            }
        }
        if let Some(option) = last_votes[i] {
            if option < N_OPTIONS {
                assert(counts@[option as int] <= i);
                counts[option] = counts[option] + 1;
            }
        }
        i = i + 1;
    }
    assert(last_votes@.take(last_votes@.len() as int) == last_votes@);
    assert(counts =~= tallied(last_votes@));
    counts
}

/// Whether two lists of counts are the same.
fn same_counts(a: &[u64; N_OPTIONS], b: &[u64; N_OPTIONS]) -> (r: bool)
    ensures
        r == (*a == *b),
{
    let mut i: usize = 0;
    while i < N_OPTIONS
        invariant
            i <= N_OPTIONS,
            forall|k: int| 0 <= k < i ==> #[trigger] a@[k] == b@[k],
        decreases N_OPTIONS - i,
    {
        if a[i] != b[i] {
            assert(a@[i as int] != b@[i as int]);
            return false;
        }
        i = i + 1;
    }
    assert(*a =~= *b);
    true
}

/// Holds the votes of the bots against the counts of the server.
pub fn check_vote_integrity(
    expected: [u64; N_OPTIONS],
    actual: [u64; N_OPTIONS],
    fickle_count: usize,
) -> (r: VoteIntegrityResult)
    ensures
        r == (VoteIntegrityResult {
            passed: expected == actual,
            expected,
            actual,
            fickle_count,
        }),
{
    VoteIntegrityResult { passed: same_counts(&expected, &actual), expected, actual, fickle_count }
}

/// How many bots were shown `counts` last.
fn count_seen(results: &Vec<FickleResult>, counts: &[u64; N_OPTIONS]) -> (n: usize)
    ensures
        n == seen(results@, *counts),
{
    let mut n: usize = 0;
    let mut i: usize = 0;
    while i < results.len()
        invariant
            i <= results@.len(),
            n <= i,
            n == seen(results@.take(i as int), *counts),
        decreases results@.len() - i,
    {
        assert(results@.take(i + 1).drop_last() == results@.take(i as int));
        if let Some(shown) = &results[i].last_snapshot {
            if same_counts(shown, counts) {
                n = n + 1;
            }
        }
        i = i + 1;
    }
    assert(results@.take(results@.len() as int) == results@);
    n
}

/// The counts that most bots were shown last. Among counts that as many bots
/// were shown, those of the last bot are taken.
pub fn pick_actual_snapshot(results: &Vec<FickleResult>) -> (counts: [u64; N_OPTIONS])
    ensures
        is_agreed(results@, counts),
{
    let mut best: [u64; N_OPTIONS] = [0, 0, 0, 0];
    let mut most: usize = 0;
    let ghost mut at: int = -1;
    let mut i: usize = 0;
    while i < results.len()
        invariant
            i <= results@.len(),
            -1 <= at < i,
            at < 0 ==> most == 0 && best == [0u64, 0u64, 0u64, 0u64] && forall|j: int|
                0 <= j < i ==> (#[trigger] results@[j]).last_snapshot is None,
            at >= 0 ==> {
                &&& results@[at].last_snapshot == Some(best)
                &&& most == seen(results@, best)
                &&& forall|j: int|
                    0 <= j < i && (#[trigger] results@[j]).last_snapshot is Some ==> {
                        let other = seen(results@, results@[j].last_snapshot->0);
                        other < most || (other == most && j <= at)
                    }
            },
        decreases results@.len() - i,
    {
        if let Some(shown) = &results[i].last_snapshot {
            let n: usize = count_seen(results, shown);
            if n >= most {
                best = *shown;
                most = n;
                proof {
                    at = i as int;
                }
            }
        }
        i = i + 1;
    }
    proof {
        if at >= 0 {
            assert(speaks_for_all(results@, at));
            assert(results@[at].last_snapshot is Some);
        }
    }
    best
}

/// The verdict on a run: the last votes of the fickle bots against the counts
/// that most of them were shown. A run without fickle bots has none.
pub fn vote_integrity(results: &Vec<FickleResult>) -> (r: Option<VoteIntegrityResult>)
    ensures
        r is None == (results@.len() == 0),
        r matches Some(v) ==> {
            &&& is_agreed(results@, v.actual)
            &&& v.expected == tallied(last_votes(results@))
            &&& v.passed == (v.expected == v.actual)
            &&& v.fickle_count == results@.len()
        },
{
    if results.len() == 0 {
        return None;
    }
    let mut votes: Vec<Option<usize>> = Vec::new();
    let mut i: usize = 0;
    while i < results.len()
        invariant
            i <= results@.len(),
            votes@ == last_votes(results@).take(i as int),
        decreases results@.len() - i,
    {
        votes.push(results[i].last_vote);
        i = i + 1;
    }
    assert(last_votes(results@).take(results@.len() as int) == last_votes(results@));
    let expected = tally_votes(votes.as_slice());
    let actual = pick_actual_snapshot(results);
    Some(check_vote_integrity(expected, actual, results.len()))
}

// --------------------------------------------------------------------- laws

/// How many of `votes` are for an option that exists.
pub open spec fn valid_votes(votes: Seq<Option<usize>>) -> nat
    decreases votes.len(),
{
    if votes.len() == 0 {
        0
    } else {
        valid_votes(votes.drop_last()) + if votes.last() matches Some(o) && o < N_OPTIONS {
            1nat
        } else {
            0nat
        }
    }
}

/// The counts of all options together are the votes for options that exist.
pub proof fn law_tally_counts_every_valid_vote(votes: Seq<Option<usize>>)
    ensures
        crate::vote::tally(votes, 0) + crate::vote::tally(votes, 1) + crate::vote::tally(votes, 2)
            + crate::vote::tally(votes, 3) == valid_votes(votes),
    decreases votes.len(),
{
    if votes.len() > 0 {
        law_tally_counts_every_valid_vote(votes.drop_last());
    }
}

proof fn lemma_two_camps(results: Seq<FickleResult>, a: [u64; N_OPTIONS], b: [u64; N_OPTIONS])
    requires
        a != b,
    ensures
        seen(results, a) + seen(results, b) <= observers(results),
    decreases results.len(),
{
    if results.len() > 0 {
        lemma_two_camps(results.drop_last(), a, b);
    }
}

proof fn lemma_seen_somewhere(results: Seq<FickleResult>, counts: [u64; N_OPTIONS])
    requires
        seen(results, counts) > 0,
    ensures
        exists|j: int|
            0 <= j < results.len() && (#[trigger] results[j]).last_snapshot == Some(counts),
    decreases results.len(),
{
    if results.last().last_snapshot == Some(counts) {
        assert(results[results.len() - 1].last_snapshot == Some(counts));
    } else {
        lemma_seen_somewhere(results.drop_last(), counts);
        let j = choose|j: int|
            0 <= j < results.drop_last().len() && (#[trigger] results.drop_last()[j]).last_snapshot
                == Some(counts);
        assert(results[j].last_snapshot == Some(counts));
    }
}

/// What more than half of the observers were shown is what is taken for the
/// server's count, whatever the others were shown.
pub proof fn law_majority_decides(
    results: Seq<FickleResult>,
    counts: [u64; N_OPTIONS],
    picked: [u64; N_OPTIONS],
)
    requires
        2 * seen(results, counts) > observers(results),
        is_agreed(results, picked),
    ensures
        picked == counts,
{
    lemma_seen_somewhere(results, counts);
    let j = choose|j: int|
        0 <= j < results.len() && (#[trigger] results[j]).last_snapshot == Some(counts);
    assert(results[j].last_snapshot is Some);
    let k = choose|k: int| #[trigger]
        speaks_for_all(results, k) && results[k].last_snapshot == Some(picked);
    if picked != counts {
        lemma_two_camps(results, counts, picked);
    }
}

/// Only one list of counts can be what most bots were shown.
pub proof fn law_agreement_is_unique(
    results: Seq<FickleResult>,
    a: [u64; N_OPTIONS],
    b: [u64; N_OPTIONS],
)
    requires
        is_agreed(results, a),
        is_agreed(results, b),
    ensures
        a == b,
{
    if exists|j: int| 0 <= j < results.len() && (#[trigger] results[j]).last_snapshot is Some {
        let k = choose|k: int| #[trigger]
            speaks_for_all(results, k) && results[k].last_snapshot == Some(a);
        let l = choose|l: int| #[trigger]
            speaks_for_all(results, l) && results[l].last_snapshot == Some(b);
        assert(results[k].last_snapshot is Some);
        assert(results[l].last_snapshot is Some);
    }
}

/// A server whose counters are the votes of the bots passes: what it shows is,
/// option by option, what the bots voted.
pub proof fn law_true_counters_pass(counts: Seq<i64>, votes: Seq<Option<usize>>)
    requires
        crate::vote::counts_are(counts, votes),
    ensures
        crate::vote::visible_counts(counts) == tallied(votes),
{
    assert(crate::vote::visible_counts(counts) =~= tallied(votes));
}

/// What the bots voted is counted bot by bot: the expected count of an option is
/// the number of bots whose last vote was for it.
pub proof fn law_expected_counts_are_head_counts(results: Seq<FickleResult>, option: usize)
    requires
        option < N_OPTIONS,
        results.len() <= u64::MAX,
    ensures
        ({
            let voters = Set::new(
                |i: int| 0 <= i < results.len() && results[i].last_vote == Some(option),
            );
            voters.finite() && voters.len() == tallied(last_votes(results))@[option as int]
        }),
{
    let votes = last_votes(results);
    let voters = Set::new(|i: int| 0 <= i < results.len() && results[i].last_vote == Some(option));
    crate::vote::law_tally_is_a_head_count(votes, option);
    crate::vote::lemma_tally_bound(votes, option as int);
    assert(voters =~= Set::new(|i: int| 0 <= i < votes.len() && votes[i] == Some(option)));
    assert(option == 0 || option == 1 || option == 2 || option == 3);
}

/// Bots are counted by the counts that they were shown last.
pub proof fn law_seen_is_a_head_count(results: Seq<FickleResult>, counts: [u64; N_OPTIONS])
    ensures
        ({
            let bots = Set::new(
                |i: int| 0 <= i < results.len() && results[i].last_snapshot == Some(counts),
            );
            bots.finite() && bots.len() == seen(results, counts)
        }),
    decreases results.len(),
{
    let bots = Set::new(
        |i: int| 0 <= i < results.len() && results[i].last_snapshot == Some(counts),
    );
    if results.len() == 0 {
        assert(bots =~= Set::empty());
    } else {
        let front = results.drop_last();
        let n = results.len() - 1;
        let before = Set::new(
            |i: int| 0 <= i < front.len() && front[i].last_snapshot == Some(counts),
        );
        law_seen_is_a_head_count(front, counts);
        assert forall|i: int| 0 <= i < n implies front[i] == results[i] by {}
        if results[n].last_snapshot == Some(counts) {
            assert(bots =~= before.insert(n));
        } else {
            assert(bots =~= before);
        }
    }
}

/// What is taken for the server's count was shown to some bot, and to at least as
/// many as any other. Among those that were shown to equally many it is the one
/// that a later bot was shown. Where no bot was shown any, it is four zeros.
pub proof fn law_most_seen_counts_are_picked(
    results: Seq<FickleResult>,
    picked: [u64; N_OPTIONS],
    j: int,
)
    requires
        is_agreed(results, picked),
        0 <= j < results.len(),
        results[j].last_snapshot is Some,
    ensures
        ({
            let other = results[j].last_snapshot->0;
            &&& seen(results, other) <= seen(results, picked)
            &&& seen(results, picked) > 0
            &&& seen(results, other) == seen(results, picked) ==> exists|k: int|
                j <= k < results.len() && (#[trigger] results[k]).last_snapshot == Some(picked)
        }),
{
    let k = choose|k: int| #[trigger]
        speaks_for_all(results, k) && results[k].last_snapshot == Some(picked);
    lemma_seen_by(results, k);
    assert(results[k].last_snapshot == Some(picked));
}

/// Without observers four zeros are taken for the server's count.
pub proof fn law_nothing_seen_is_nothing_counted(
    results: Seq<FickleResult>,
    picked: [u64; N_OPTIONS],
)
    requires
        is_agreed(results, picked),
        forall|j: int| 0 <= j < results.len() ==> (#[trigger] results[j]).last_snapshot is None,
    ensures
        picked@ == seq![0u64, 0u64, 0u64, 0u64],
{
    assert(picked@ =~= seq![0u64, 0u64, 0u64, 0u64]);
}

proof fn lemma_seen_by(results: Seq<FickleResult>, k: int)
    requires
        0 <= k < results.len(),
        results[k].last_snapshot is Some,
    ensures
        seen(results, results[k].last_snapshot->0) > 0,
    decreases results.len(),
{
    if k < results.len() - 1 {
        assert(results.drop_last()[k] == results[k]);
        lemma_seen_by(results.drop_last(), k);
    }
}

} // verus!
