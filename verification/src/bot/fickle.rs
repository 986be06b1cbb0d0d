//! Bots that change their vote all the time, and then agree on what they saw.
use vstd::prelude::*;

use crate::bot::integrity::FickleResult;
use crate::bot::random::Dice;
use crate::protocol::{ClientMsg, ServerMsg, N_OPTIONS};

verus! {

/// The pause behind each vote, in milliseconds.
pub const VOTE_INTERVAL_MS: u64 = 10;

/// How long all bots let the vote settle, once the last of them has voted.
pub const SETTLE_AFTER_BARRIER_MS: u64 = 500;

/// How long the bots wait for a fresh snapshot.
pub const SNAPSHOT_PROPAGATION_MS: u64 = 200;

/// How often the leader votes again, for the option it has, to have a fresh
/// snapshot sent.
pub const LEADER_REVOTES: usize = 3;

/// How far a bot has come.
#[derive(Debug, Clone, Copy, PartialEq, Eq, Structural)]
pub enum FicklePhase {
    /// Before its next vote, or before it meets the others.
    Voting,
    /// Behind a vote.
    Resting,
    /// All have voted.
    Met,
    /// The vote has settled.
    Settled,
    /// Behind a vote for the option it has.
    Propagating,
}

/// What a bot does next.
#[derive(Debug, Clone, Copy, PartialEq, Eq, Structural)]
pub enum FickleStep {
    /// Vote.
    Vote { option: usize },
    /// Wait that long.
    Wait { ms: u64 },
    /// Wait until all bots are here. One of them leads from then on.
    MeetOthers,
    /// Leave.
    Done,
}

/// A bot that votes `votes_left` more times, and then waits with the others for
/// the counters to settle.
#[derive(Debug)]
pub struct FickleBot {
    pub phase: FicklePhase,
    pub votes_left: usize,
    pub revotes_left: usize,
    pub leads: bool,
    /// The option it voted for last.
    pub last_vote: Option<usize>,
    /// The counters of the last snapshot it got.
    pub last_snapshot: Option<[u64; N_OPTIONS]>,
}

// ------------------------------------------------------------ specification

impl FickleBot {
    /// The next step, and what the bot is behind it. `drawn` is the option for
    /// the next vote by chance. `leads` is whether the bot leads, and is looked
    /// at once all have met.
    pub open spec fn next_of(self, drawn: usize, leads: bool) -> (FickleBot, FickleStep) {
        match self.phase {
            FicklePhase::Voting => if self.votes_left > 0 {
                (
                    FickleBot {
                        phase: FicklePhase::Resting,
                        votes_left: (self.votes_left - 1) as usize,
                        last_vote: Some(drawn),
                        ..self
                    },
                    FickleStep::Vote { option: drawn },
                )
            } else {
                (FickleBot { phase: FicklePhase::Met, ..self }, FickleStep::MeetOthers)
            },
            FicklePhase::Resting => (
                FickleBot { phase: FicklePhase::Voting, ..self },
                FickleStep::Wait { ms: VOTE_INTERVAL_MS },
            ),
            FicklePhase::Met => (
                FickleBot { phase: FicklePhase::Settled, leads, ..self },
                FickleStep::Wait { ms: SETTLE_AFTER_BARRIER_MS },
            ),
            FicklePhase::Settled => if self.revotes_left == 0 {
                (self, FickleStep::Done)
            } else if self.leads && self.last_vote is Some {
                (
                    FickleBot {
                        phase: FicklePhase::Propagating,
                        revotes_left: (self.revotes_left - 1) as usize,
                        ..self
                    },
                    FickleStep::Vote { option: self.last_vote->0 },
                )
            } else {
                (
                    FickleBot { revotes_left: (self.revotes_left - 1) as usize, ..self },
                    FickleStep::Wait { ms: SNAPSHOT_PROPAGATION_MS },
                )
            },
            FicklePhase::Propagating => (
                FickleBot { phase: FicklePhase::Settled, ..self },
                FickleStep::Wait { ms: SNAPSHOT_PROPAGATION_MS },
            ),
        }
    }

    /// How many steps are left, at most.
    pub open spec fn steps_left(self) -> nat {
        let votes = 2 * self.votes_left as nat;
        let revotes = 2 * self.revotes_left as nat;
        match self.phase {
            FicklePhase::Voting => votes + 2 + revotes,
            FicklePhase::Resting => votes + 3 + revotes,
            FicklePhase::Met => 1 + revotes,
            FicklePhase::Settled => revotes,
            FicklePhase::Propagating => revotes + 1,
        }
    }

    /// How long the bot has yet to wait, in milliseconds.
    pub open spec fn time_left(self) -> int {
        let votes = self.votes_left * VOTE_INTERVAL_MS;
        let revotes = self.revotes_left * SNAPSHOT_PROPAGATION_MS;
        match self.phase {
            FicklePhase::Voting => votes + SETTLE_AFTER_BARRIER_MS + revotes,
            FicklePhase::Resting => votes + VOTE_INTERVAL_MS + SETTLE_AFTER_BARRIER_MS + revotes,
            FicklePhase::Met => SETTLE_AFTER_BARRIER_MS + revotes,
            FicklePhase::Settled => revotes,
            FicklePhase::Propagating => revotes + SNAPSHOT_PROPAGATION_MS,
        }
    }

    /// All bots have met.
    pub open spec fn has_met(self) -> bool {
        self.phase == FicklePhase::Met || self.phase == FicklePhase::Settled || self.phase
            == FicklePhase::Propagating
    }

    /// How many votes the bot has yet to send, where `leads` is whether it will
    /// lead.
    pub open spec fn votes_ahead(self, leads: bool) -> int {
        let leader = if self.phase == FicklePhase::Settled || self.phase
            == FicklePhase::Propagating {
            self.leads
        } else {
            leads
        };
        let votes = if self.has_met() {
            0
        } else {
            self.votes_left as int
        };
        votes + if leader && (self.last_vote is Some || votes > 0) {
            self.revotes_left as int
        } else {
            0
        }
    }
}

// ---------------------------------------------------------------- functions

impl FickleBot {
    /// A bot that votes `vote_count` times by chance.
    pub fn new(vote_count: usize) -> (b: Self)
        ensures
            b == (FickleBot {
                phase: FicklePhase::Voting,
                votes_left: vote_count,
                revotes_left: LEADER_REVOTES,
                leads: false,
                last_vote: None,
                last_snapshot: None,
            }),
    {
        FickleBot {
            phase: FicklePhase::Voting,
            votes_left: vote_count,
            revotes_left: LEADER_REVOTES,
            leads: false,
            last_vote: None,
            last_snapshot: None,
        }
    }

    /// What the bot does next, where chance has drawn `drawn`.
    pub fn next(&mut self, drawn: usize, leads: bool) -> (step: FickleStep)
        ensures
            (*final(self), step) == old(self).next_of(drawn, leads),
    {
        match self.phase {
            FicklePhase::Voting => {
                if self.votes_left > 0 {
                    self.phase = FicklePhase::Resting;
                    self.votes_left = self.votes_left - 1;
                    self.last_vote = Some(drawn);
                    FickleStep::Vote { option: drawn }
                } else {
                    self.phase = FicklePhase::Met;
                    FickleStep::MeetOthers
                }
            },
            FicklePhase::Resting => {
                self.phase = FicklePhase::Voting;
                FickleStep::Wait { ms: VOTE_INTERVAL_MS }
            },
            FicklePhase::Met => {
                self.phase = FicklePhase::Settled;
                self.leads = leads;
                FickleStep::Wait { ms: SETTLE_AFTER_BARRIER_MS }
            },
            FicklePhase::Settled => {
                if self.revotes_left == 0 {
                    return FickleStep::Done;
                }
                self.revotes_left = self.revotes_left - 1;
                if self.leads {
                    if let Some(option) = self.last_vote {
                        self.phase = FicklePhase::Propagating;
                        return FickleStep::Vote { option };
                    }
                }
                FickleStep::Wait { ms: SNAPSHOT_PROPAGATION_MS }
            },
            FicklePhase::Propagating => {
                self.phase = FicklePhase::Settled;
                FickleStep::Wait { ms: SNAPSHOT_PROPAGATION_MS }
            },
        }
    }

    /// What the bot does next, with an option by the dice where one is due.
    pub fn next_with(&mut self, dice: &mut Dice, leads: bool) -> (step: FickleStep)
        ensures
            exists|drawn: usize|
                drawn < N_OPTIONS && (*final(self), step) == #[trigger] old(self).next_of(
                    drawn,
                    leads,
                ),
    {
        let drawn = dice.option();
        self.next(drawn, leads)
    }

    /// Takes note of a message: a snapshot replaces the one before it.
    pub fn on_message(&mut self, msg: &ServerMsg)
        ensures
            *final(self) == (FickleBot {
                last_snapshot: match *msg {
                    ServerMsg::VoteSnapshot { counts, percentages } => Some(counts),
                    _ => old(self).last_snapshot,
                },
                ..*old(self)
            }),
    {
        if let ServerMsg::VoteSnapshot { counts, percentages: _ } = msg {
            self.last_snapshot = Some(*counts);
        }
    }

    /// What the bot voted for last, and what it saw last.
    pub fn result(&self) -> (r: FickleResult)
        ensures
            r.last_vote == self.last_vote,
            r.last_snapshot == self.last_snapshot,
    {
        FickleResult { last_vote: self.last_vote, last_snapshot: self.last_snapshot }
    }
}

/// The one vote of a bot that leaves at once, where chance has drawn `drawn`.
pub fn quitter_vote_for(drawn: usize) -> (msg: ClientMsg)
    ensures
        msg == (ClientMsg::Vote { option: drawn }),
{
    ClientMsg::Vote { option: drawn }
}

/// The one vote of a bot that leaves at once: for some option, by the dice.
pub fn quitter_vote(dice: &mut Dice) -> (msg: ClientMsg)
    ensures
        msg matches ClientMsg::Vote { option } && option < N_OPTIONS,
{
    quitter_vote_for(dice.option())
}

// --------------------------------------------------------------------- laws

/// Every bot comes to an end, whatever is drawn and whoever leads: each step
/// brings it nearer, until none is left.
pub proof fn law_fickle_bots_finish(bot: FickleBot, drawn: usize, leads: bool)
    ensures
        bot.next_of(drawn, leads).1 == FickleStep::Done <==> bot.steps_left() == 0,
        bot.steps_left() > 0 ==> bot.next_of(drawn, leads).0.steps_left() < bot.steps_left(),
        bot.steps_left() == 0 ==> bot.next_of(drawn, leads).0 == bot,
{
}

/// What a bot reports as its last vote is the last vote that it sent. Once all
/// have met, no vote differs from it, so that none changes a counter any more.
pub proof fn law_last_vote_is_the_last_sent(bot: FickleBot, drawn: usize, leads: bool)
    ensures
        ({
            let (after, step) = bot.next_of(drawn, leads);
            &&& step matches FickleStep::Vote { option } ==> after.last_vote == Some(option)
            &&& step !is Vote ==> after.last_vote == bot.last_vote
            &&& bot.has_met() ==> after.has_met() && after.last_vote == bot.last_vote
        }),
{
}

/// Leader or not, all bots wait equally long: the time that is left falls by
/// what a step waits, and by nothing else.
pub proof fn law_bots_wait_alike(bot: FickleBot, drawn: usize, leads: bool)
    ensures
        ({
            let (after, step) = bot.next_of(drawn, leads);
            after.time_left() == bot.time_left() - match step {
                FickleStep::Wait { ms } => ms as int,
                _ => 0,
            }
        }),
        bot.next_of(drawn, leads).1 == FickleStep::Done ==> bot.time_left() == 0,
{
}

/// A bot sends as many votes as it was made for, and the leader
/// `LEADER_REVOTES` more: the votes that are ahead fall by one with each that is
/// sent, and by nothing else.
pub proof fn law_votes_are_all_sent(bot: FickleBot, drawn: usize, leads: bool)
    ensures
        ({
            let (after, step) = bot.next_of(drawn, leads);
            &&& after.votes_ahead(leads) == bot.votes_ahead(leads) - if step is Vote {
                1int
            } else {
                0int
            }
            &&& step == FickleStep::Done ==> bot.votes_ahead(leads) == 0
        }),
{
}

/// A bot votes for what chance has drawn, and for that only, as long as it has
/// votes left; it rests ten milliseconds behind each, meets the others once none
/// is left, lets the vote settle for half a second, and waits a fifth of a second
/// for each fresh snapshot. Only a leader votes again, and for what it has.
pub proof fn law_bots_vote_for_what_is_drawn(bot: FickleBot, drawn: usize, leads: bool)
    ensures
        ({
            let (after, step) = bot.next_of(drawn, leads);
            match bot.phase {
                FicklePhase::Voting => {
                    &&& bot.votes_left > 0 ==> step == (FickleStep::Vote { option: drawn })
                        && after.votes_left == bot.votes_left - 1
                    &&& bot.votes_left == 0 ==> step == FickleStep::MeetOthers
                },
                FicklePhase::Resting => step == (FickleStep::Wait { ms: 10 }),
                FicklePhase::Met => step == (FickleStep::Wait { ms: 500 }) && after.leads == leads,
                FicklePhase::Settled => {
                    &&& bot.revotes_left == 0 ==> step == FickleStep::Done
                    &&& bot.revotes_left > 0 && bot.leads && bot.last_vote is Some ==> step
                        == (FickleStep::Vote { option: bot.last_vote->0 })
                    &&& bot.revotes_left > 0 && !(bot.leads && bot.last_vote is Some) ==> step
                        == (FickleStep::Wait { ms: 200 })
                },
                FicklePhase::Propagating => step == (FickleStep::Wait { ms: 200 }),
            }
        }),
{
}

/// No step touches what a bot saw, and who leads is settled when all have met.
pub proof fn law_steps_do_not_touch_what_was_seen(bot: FickleBot, drawn: usize, leads: bool)
    ensures
        bot.next_of(drawn, leads).0.last_snapshot == bot.last_snapshot,
        bot.phase != FicklePhase::Met ==> bot.next_of(drawn, leads).0.leads == bot.leads,
{
}

} // verus!
