//! The vote counters, and why they can be trusted while votes change hands.
use vstd::prelude::*;

use crate::protocol::{ServerMsg, Share, N_OPTIONS};

verus! {

// ------------------------------------------------------------ specification

/// The counters with one more vote for `option`. An option that does not exist
/// changes nothing; a counter wraps around at the end of `i64`.
pub open spec fn plus_one(counts: Seq<i64>, option: int) -> Seq<i64> {
    if 0 <= option < counts.len() {
        counts.update(option, counts[option].wrapping_add(1))
    } else {
        counts
    }
}

/// The counters with one vote less for `option`, in the same sense.
pub open spec fn minus_one(counts: Seq<i64>, option: int) -> Seq<i64> {
    if 0 <= option < counts.len() {
        counts.update(option, counts[option].wrapping_sub(1))
    } else {
        counts
    }
}

/// The counters after a vote for `next` that replaces the vote for `prev`.
pub open spec fn after_vote(counts: Seq<i64>, prev: Option<usize>, next: usize) -> Seq<i64> {
    let added = plus_one(counts, next as int);
    match prev {
        Some(p) => minus_one(added, p as int),
        None => added,
    }
}

/// What an observer sees of a counter: never less than zero.
pub open spec fn visible(count: i64) -> u64 {
    if count > 0 {
        count as u64
    } else {
        0
    }
}

/// What an observer sees of all counters.
pub open spec fn visible_counts(counts: Seq<i64>) -> [u64; N_OPTIONS] {
    [visible(counts[0]), visible(counts[1]), visible(counts[2]), visible(counts[3])]
}

/// The sum of a sequence of counts.
pub open spec fn total_of(counts: Seq<u64>) -> nat
    decreases counts.len(),
{
    if counts.len() == 0 {
        0
    } else {
        total_of(counts.drop_last()) + counts.last() as nat
    }
}

/// The part that `count` votes are of `total`; nothing where nobody voted.
pub open spec fn share_of(count: u64, total: nat) -> Share {
    if total > 0 {
        Share { part: count, whole: total as u128 }
    } else {
        Share { part: 0, whole: 1 }
    }
}

/// The part that each count is of all votes.
pub open spec fn shares_of(counts: [u64; N_OPTIONS]) -> [Share; N_OPTIONS] {
    let total = total_of(counts@);
    [
        share_of(counts@[0], total),
        share_of(counts@[1], total),
        share_of(counts@[2], total),
        share_of(counts@[3], total),
    ]
}

/// The message that tells an observer of the counters.
pub open spec fn snapshot_msg(counts: Seq<i64>) -> ServerMsg {
    ServerMsg::VoteSnapshot {
        counts: visible_counts(counts),
        percentages: shares_of(visible_counts(counts)),
    }
}

/// How many of `votes` are for `option`.
pub open spec fn tally(votes: Seq<Option<usize>>, option: int) -> nat
    decreases votes.len(),
{
    if votes.len() == 0 {
        0
    } else {
        tally(votes.drop_last(), option) + if votes.last() matches Some(o) && o == option {
            1nat
        } else {
            0nat
        }
    }
}

// ---------------------------------------------------------------- the board

/// One counter for each option.
#[derive(Debug, Clone)]
pub struct VoteBoard {
    counts: [i64; N_OPTIONS],
}

impl View for VoteBoard {
    type V = Seq<i64>;

    closed spec fn view(&self) -> Seq<i64> {
        self.counts@
    }
}

impl VoteBoard {
    /// A board without votes.
    pub fn new() -> (board: Self)
        ensures
            board@ == seq![0i64, 0i64, 0i64, 0i64],
    {
        let board = VoteBoard { counts: [0, 0, 0, 0] };
        assert(board@ =~= seq![0i64, 0i64, 0i64, 0i64]);
        board
    }

    /// Counts one more vote for `option`.
    fn add_one(&mut self, option: usize)
        ensures
            final(self)@ == plus_one(old(self)@, option as int),
    {
        if option < N_OPTIONS {
            self.counts[option] = self.counts[option].wrapping_add(1);
        }
    }

    /// A vote for `next`. The vote that it replaces is taken back after the
    /// new one is counted, so that the counters are too high for a moment
    /// rather than too low.
    pub fn vote(&mut self, prev: Option<usize>, next: usize)
        ensures
            final(self)@ == after_vote(old(self)@, prev, next),
    {
        self.add_one(next);
        if let Some(p) = prev {
            self.unvote(p);
        }
    }

    /// Takes a vote for `prev` back.
    pub fn unvote(&mut self, prev: usize)
        ensures
            final(self)@ == minus_one(old(self)@, prev as int),
    {
        if prev < N_OPTIONS {
            self.counts[prev] = self.counts[prev].wrapping_sub(1);
        }
    }

    /// The counts as an observer sees them.
    pub fn snapshot(&self) -> (r: [u64; N_OPTIONS])
        ensures
            self@.len() == N_OPTIONS,
            r == visible_counts(self@),
    {
        let mut r: [u64; N_OPTIONS] = [0, 0, 0, 0];
        let mut i: usize = 0;
        while i < N_OPTIONS
            invariant
                i <= N_OPTIONS,
                forall|k: int| 0 <= k < i ==> #[trigger] r@[k] == visible(self@[k]),
            decreases N_OPTIONS - i,
        {
            let c: i64 = self.counts[i];
            r[i] = if c > 0 { c as u64 } else { 0 };
            i = i + 1;
        }
        assert(r =~= visible_counts(self@));
        r
    }

    /// The counts, and what part of all votes each option has.
    pub fn snapshot_with_percentages(&self) -> (r: ([u64; N_OPTIONS], [Share; N_OPTIONS]))
        ensures
            r.0 == visible_counts(self@),
            r.1 == shares_of(r.0),
    {
        let counts = self.snapshot();
        let percentages = shares(&counts);
        (counts, percentages)
    }

    /// The message that tells an observer of the counts.
    pub fn snapshot_message(&self) -> (msg: ServerMsg)
        ensures
            msg == snapshot_msg(self@),
    {
        let (counts, percentages) = self.snapshot_with_percentages();
        ServerMsg::VoteSnapshot { counts, percentages }
    }
}

/// What part of all votes each count is.
pub fn shares(counts: &[u64; N_OPTIONS]) -> (r: [Share; N_OPTIONS])
    ensures
        r == shares_of(*counts),
{
    let mut total: u128 = 0;
    let mut i: usize = 0;
    while i < N_OPTIONS
        invariant
            i <= N_OPTIONS,
            total == total_of(counts@.take(i as int)),
            total <= i * u64::MAX,
        decreases N_OPTIONS - i,
    {
        assert(counts@.take(i + 1).drop_last() == counts@.take(i as int));
        total = total + counts[i] as u128;
        i = i + 1;
    }
    assert(counts@.take(N_OPTIONS as int) == counts@);
    let none = Share { part: 0, whole: 1 };
    let mut r: [Share; N_OPTIONS] = [none, none, none, none];
    if total > 0 {
        let mut i: usize = 0;
        while i < N_OPTIONS
            invariant
                i <= N_OPTIONS,
                forall|k: int|
                    0 <= k < i ==> #[trigger] r@[k] == (Share { part: counts@[k], whole: total }),
            decreases N_OPTIONS - i,
        {
            r[i] = Share { part: counts[i], whole: total };
            i = i + 1;
        }
    }
    assert(r =~= shares_of(*counts));
    r
}

// --------------------------------------------------------- laws of counting

/// Whether one vote is for `option`, as a number.
pub open spec fn mark(vote: Option<usize>, option: int) -> nat {
    if vote matches Some(o) && o == option {
        1
    } else {
        0
    }
}

/// There are no more votes for an option than there are voters.
pub proof fn lemma_tally_bound(votes: Seq<Option<usize>>, option: int)
    ensures
        tally(votes, option) <= votes.len(),
    decreases votes.len(),
{
    if votes.len() > 0 {
        lemma_tally_bound(votes.drop_last(), option);
    }
}

/// One voter's change moves the tally by that voter's marks only.
pub proof fn lemma_tally_update(votes: Seq<Option<usize>>, i: int, vote: Option<usize>, option: int)
    requires
        0 <= i < votes.len(),
    ensures
        tally(votes.update(i, vote), option) + mark(votes[i], option) == tally(votes, option)
            + mark(vote, option),
    decreases votes.len(),
{
    let changed = votes.update(i, vote);
    if i == votes.len() - 1 {
        assert(changed.drop_last() == votes.drop_last());
    } else {
        assert(changed.drop_last() == votes.drop_last().update(i, vote));
        lemma_tally_update(votes.drop_last(), i, vote, option);
    }
}

/// A newcomer's vote is added to the tally.
pub proof fn lemma_tally_push(votes: Seq<Option<usize>>, vote: Option<usize>, option: int)
    ensures
        tally(votes.push(vote), option) == tally(votes, option) + mark(vote, option),
{
    assert(votes.push(vote).drop_last() == votes);
}

/// Whoever leaves takes one vote out of the tally.
pub proof fn lemma_tally_remove(votes: Seq<Option<usize>>, i: int, option: int)
    requires
        0 <= i < votes.len(),
    ensures
        tally(votes.remove(i), option) + mark(votes[i], option) == tally(votes, option),
    decreases votes.len(),
{
    if i == votes.len() - 1 {
        assert(votes.remove(i) == votes.drop_last());
    } else {
        assert(votes.remove(i).drop_last() == votes.drop_last().remove(i));
        lemma_tally_remove(votes.drop_last(), i, option);
    }
}

/// The counters say, for each option, how many of `votes` are for it.
pub open spec fn counts_are(counts: Seq<i64>, votes: Seq<Option<usize>>) -> bool {
    &&& counts.len() == N_OPTIONS
    &&& forall|o: int| 0 <= o < N_OPTIONS ==> #[trigger] counts[o] == tally(votes, o)
}

/// Every board has one counter for each option, and no more.
pub proof fn law_boards_count_every_option(board: VoteBoard)
    ensures
        board@.len() == N_OPTIONS,
{
}

/// An empty board counts nobody's votes.
pub proof fn law_empty_board_counts_nothing()
    ensures
        counts_are(seq![0i64, 0i64, 0i64, 0i64], Seq::empty()),
{
}

/// Where the counters agree with everybody's votes, they still do after one
/// voter's vote replaced that voter's previous one.
pub proof fn law_vote_keeps_counts(
    counts: Seq<i64>,
    votes: Seq<Option<usize>>,
    i: int,
    next: usize,
)
    requires
        counts_are(counts, votes),
        0 <= i < votes.len() < i64::MAX,
    ensures
        counts_are(after_vote(counts, votes[i], next), votes.update(i, Some(next))),
{
    assert forall|o: int| 0 <= o < N_OPTIONS implies #[trigger] after_vote(
        counts,
        votes[i],
        next,
    )[o] == tally(votes.update(i, Some(next)), o) by {
        lemma_tally_update(votes, i, Some(next), o);
        lemma_tally_bound(votes, o);
        lemma_tally_bound(votes.update(i, Some(next)), o);
    }
}

/// Where the counters agree with everybody's votes, they still do after one
/// voter took a vote back.
pub proof fn law_unvote_keeps_counts(
    counts: Seq<i64>,
    votes: Seq<Option<usize>>,
    i: int,
    prev: usize,
)
    requires
        counts_are(counts, votes),
        0 <= i < votes.len() < i64::MAX,
        votes[i] == Some(prev),
    ensures
        counts_are(minus_one(counts, prev as int), votes.update(i, None)),
{
    assert forall|o: int| 0 <= o < N_OPTIONS implies #[trigger] minus_one(counts, prev as int)[o]
        == tally(votes.update(i, None), o) by {
        lemma_tally_update(votes, i, None, o);
        lemma_tally_bound(votes, o);
    }
}

/// Where the counters agree with everybody's votes, an observer sees exactly
/// the votes of each option.
pub proof fn law_observer_sees_the_tally(counts: Seq<i64>, votes: Seq<Option<usize>>, option: int)
    requires
        counts_are(counts, votes),
        0 <= option < N_OPTIONS,
    ensures
        visible(counts[option]) == tally(votes, option),
{
}

/// The parts of the four options together are the whole; where nobody voted
/// each of them is nothing.
pub proof fn law_shares_add_up(counts: [u64; N_OPTIONS])
    ensures
        ({
            let total = total_of(counts@);
            let shares = shares_of(counts)@;
            let parts = shares[0].part + shares[1].part + shares[2].part + shares[3].part;
            &&& forall|i: int| 0 <= i < N_OPTIONS ==> (#[trigger] shares[i]).whole > 0
            &&& total > 0 ==> parts == total && forall|i: int|
                0 <= i < N_OPTIONS ==> (#[trigger] shares[i]).whole == total
            &&& total == 0 ==> parts == 0
        }),
{
    reveal_with_fuel(total_of, 5);
    let s = counts@;
    assert(s.drop_last().drop_last().drop_last().drop_last().len() == 0);
    assert(total_of(s) == s[0] + s[1] + s[2] + s[3]);
}

// ------------------------------------------- votes of many clients at a time

/// The counters together with what each voter is in the middle of: the vote
/// that the voter holds, and the replaced vote that is still to be taken back.
pub struct Poll {
    pub counts: Seq<i64>,
    pub held: Seq<Option<usize>>,
    pub releasing: Seq<Option<usize>>,
}

/// One access of one voter to one counter. A vote is a `Claim` and then, where
/// it replaces another vote, a `Release`; other voters' steps may come between.
pub enum PollStep {
    Claim { voter: int, option: usize },
    Release { voter: int },
    Withdraw { voter: int },
}

impl Poll {
    /// `voters` who have not voted yet.
    pub open spec fn start(voters: nat) -> Poll {
        Poll {
            counts: seq![0i64, 0i64, 0i64, 0i64],
            held: Seq::new(voters, |i: int| None),
            releasing: Seq::new(voters, |i: int| None),
        }
    }

    /// A voter finishes one vote before starting another.
    pub open spec fn allows(self, step: PollStep) -> bool {
        match step {
            PollStep::Claim { voter, option } => 0 <= voter < self.held.len()
                && self.releasing[voter] is None,
            PollStep::Release { voter } => 0 <= voter < self.held.len()
                && self.releasing[voter] is Some,
            PollStep::Withdraw { voter } => 0 <= voter < self.held.len()
                && self.releasing[voter] is None && self.held[voter] is Some,
        }
    }

    pub open spec fn after(self, step: PollStep) -> Poll {
        match step {
            PollStep::Claim { voter, option } => Poll {
                counts: plus_one(self.counts, option as int),
                held: self.held.update(voter, Some(option)),
                releasing: self.releasing.update(voter, self.held[voter]),
            },
            PollStep::Release { voter } => Poll {
                counts: minus_one(self.counts, self.releasing[voter]->0 as int),
                held: self.held,
                releasing: self.releasing.update(voter, None),
            },
            PollStep::Withdraw { voter } => Poll {
                counts: minus_one(self.counts, self.held[voter]->0 as int),
                held: self.held.update(voter, None),
                releasing: self.releasing,
            },
        }
    }

    /// The poll after all of `steps`.
    pub open spec fn run(voters: nat, steps: Seq<PollStep>) -> Poll
        decreases steps.len(),
    {
        if steps.len() == 0 {
            Poll::start(voters)
        } else {
            Poll::run(voters, steps.drop_last()).after(steps.last())
        }
    }

    /// Each of `steps` is allowed where it is taken.
    pub open spec fn possible(voters: nat, steps: Seq<PollStep>) -> bool
        decreases steps.len(),
    {
        steps.len() == 0 || (Poll::possible(voters, steps.drop_last()) && Poll::run(
            voters,
            steps.drop_last(),
        ).allows(steps.last()))
    }
}

proof fn lemma_tally_of_nobody(voters: nat, option: int)
    ensures
        tally(Seq::new(voters, |i: int| None), option) == 0,
    decreases voters,
{
    let votes = Seq::<Option<usize>>::new(voters, |i: int| None);
    if voters > 0 {
        lemma_tally_of_nobody((voters - 1) as nat, option);
        assert(votes.drop_last() == Seq::<Option<usize>>::new((voters - 1) as nat, |i: int| None));
    }
}

/// However the steps of the voters interleave, at every moment each counter is
/// the number of votes held for its option and of replaced votes for it that
/// are still to be taken back. So no counter is ever negative, none is ever
/// lower than the votes that are held, and each is exact as soon as nobody is
/// in the middle of a vote.
pub proof fn law_counters_never_fall_short(voters: nat, steps: Seq<PollStep>, option: int)
    requires
        Poll::possible(voters, steps),
        2 * voters < i64::MAX,
        0 <= option < N_OPTIONS,
    ensures
        ({
            let poll = Poll::run(voters, steps);
            &&& poll.counts.len() == N_OPTIONS
            &&& poll.held.len() == voters
            &&& poll.releasing.len() == voters
            &&& poll.counts[option] == tally(poll.held, option) + tally(poll.releasing, option)
            &&& poll.counts[option] >= tally(poll.held, option) >= 0
            &&& visible(poll.counts[option]) == poll.counts[option]
            &&& (forall|v: int| 0 <= v < voters ==> (#[trigger] poll.releasing[v]) is None)
                ==> poll.counts[option] == tally(poll.held, option)
        }),
    decreases steps.len(),
{
    let poll = Poll::run(voters, steps);
    if steps.len() == 0 {
        lemma_tally_of_nobody(voters, option);
    } else {
        let before = Poll::run(voters, steps.drop_last());
        law_counters_never_fall_short(voters, steps.drop_last(), option);
        lemma_tally_bound(before.held, option);
        lemma_tally_bound(before.releasing, option);
        match steps.last() {
            PollStep::Claim { voter, option: chosen } => {
                lemma_tally_update(before.held, voter, Some(chosen), option);
                lemma_tally_update(before.releasing, voter, before.held[voter], option);
            },
            PollStep::Release { voter } => {
                lemma_tally_update(before.releasing, voter, None, option);
            },
            PollStep::Withdraw { voter } => {
                lemma_tally_update(before.held, voter, None, option);
            },
        }
        lemma_tally_bound(poll.held, option);
        lemma_tally_bound(poll.releasing, option);
    }
    if forall|v: int| 0 <= v < voters ==> (#[trigger] poll.releasing[v]) is None {
        assert(poll.releasing == Seq::<Option<usize>>::new(voters, |i: int| None));
        lemma_tally_of_nobody(voters, option);
    }
}

/// A vote that nobody interrupts is one `Claim`, and one `Release` where it
/// replaces a vote.
pub proof fn law_vote_is_claim_then_release(poll: Poll, voter: int, option: usize)
    requires
        poll.allows(PollStep::Claim { voter, option }),
        poll.releasing.len() == poll.held.len(),
    ensures
        ({
            let claimed = poll.after(PollStep::Claim { voter, option });
            let done = if poll.held[voter] is Some {
                claimed.after(PollStep::Release { voter })
            } else {
                claimed
            };
            &&& poll.held[voter] is Some ==> claimed.allows(PollStep::Release { voter })
            &&& done.counts == after_vote(poll.counts, poll.held[voter], option)
            &&& done.held == poll.held.update(voter, Some(option))
            &&& done.releasing == poll.releasing
        }),
{
    let claimed = poll.after(PollStep::Claim { voter, option });
    assert(poll.releasing.update(voter, None) == poll.releasing);
    if poll.held[voter] is None {
        assert(claimed.releasing == poll.releasing);
    } else {
        assert(claimed.after(PollStep::Release { voter }).releasing == poll.releasing);
    }
}

/// Each option has its own share: where anybody voted, the part of option `i` is
/// the votes for option `i`, out of all votes.
pub proof fn law_shares_belong_to_their_options(counts: [u64; N_OPTIONS], i: int)
    requires
        0 <= i < N_OPTIONS,
    ensures
        ({
            let all = counts@[0] + counts@[1] + counts@[2] + counts@[3];
            let share = shares_of(counts)@[i];
            &&& all > 0 ==> share.part == counts@[i] && share.whole == all
            &&& all == 0 ==> share.part == 0 && share.whole == 1
        }),
{
    reveal_with_fuel(total_of, 5);
    let s = counts@;
    assert(s.drop_last().drop_last().drop_last().drop_last().len() == 0);
    assert(total_of(s) == s[0] + s[1] + s[2] + s[3]);
}

/// A snapshot tells of each option what its own counter says, with nothing below
/// zero, and its own part of what all of them say together.
pub proof fn law_snapshots_tell_of_every_option(counts: Seq<i64>, i: int)
    requires
        counts.len() == N_OPTIONS,
        0 <= i < N_OPTIONS,
    ensures
        snapshot_msg(counts) matches ServerMsg::VoteSnapshot { counts: shown, percentages } && {
            let all = shown@[0] + shown@[1] + shown@[2] + shown@[3];
            &&& counts[i] >= 0 ==> shown@[i] == counts[i]
            &&& counts[i] < 0 ==> shown@[i] == 0
            &&& all > 0 ==> percentages@[i].part == shown@[i] && percentages@[i].whole == all
            &&& all == 0 ==> percentages@[i].part == 0 && percentages@[i].whole == 1
        },
{
    law_shares_belong_to_their_options(visible_counts(counts), i);
}

/// A vote puts one on the counter of the new option and takes one off that of the
/// old one, and leaves all others alone. Options that do not exist have no
/// counter.
pub proof fn law_votes_move_one_counter_each(
    counts: Seq<i64>,
    prev: Option<usize>,
    next: usize,
    o: usize,
)
    requires
        counts.len() == N_OPTIONS,
        o < N_OPTIONS,
        i64::MIN < counts[o as int] < i64::MAX,
    ensures
        ({
            let after = after_vote(counts, prev, next);
            let was = counts[o as int];
            &&& after.len() == N_OPTIONS
            &&& o == next && prev != Some(o) ==> after[o as int] == was + 1
            &&& o != next && prev == Some(o) ==> after[o as int] == was - 1
            &&& (o == next) == (prev == Some(o)) ==> after[o as int] == was
        }),
{
}

/// Taking a vote back takes one off the counter of its option, and leaves all
/// others alone.
pub proof fn law_unvotes_move_one_counter(counts: Seq<i64>, prev: usize, o: int)
    requires
        counts.len() == N_OPTIONS,
        0 <= o < N_OPTIONS,
        i64::MIN < counts[o],
    ensures
        minus_one(counts, prev as int).len() == N_OPTIONS,
        minus_one(counts, prev as int)[o] == if o == prev {
            counts[o] - 1
        } else {
            counts[o] as int
        },
{
}

/// The voters for an option are as many as its tally says.
pub proof fn law_tally_is_a_head_count(votes: Seq<Option<usize>>, option: usize)
    ensures
        ({
            let voters = Set::new(|i: int| 0 <= i < votes.len() && votes[i] == Some(option));
            voters.finite() && voters.len() == tally(votes, option as int)
        }),
    decreases votes.len(),
{
    let voters = Set::new(|i: int| 0 <= i < votes.len() && votes[i] == Some(option));
    if votes.len() == 0 {
        assert(voters =~= Set::empty());
    } else {
        let front = votes.drop_last();
        let n = votes.len() - 1;
        let before = Set::new(|i: int| 0 <= i < front.len() && front[i] == Some(option));
        law_tally_is_a_head_count(front, option);
        assert forall|i: int| 0 <= i < n implies front[i] == votes[i] by {}
        if votes[n] == Some(option) {
            assert(voters =~= before.insert(n));
        } else {
            assert(voters =~= before);
        }
    }
}

} // verus!
