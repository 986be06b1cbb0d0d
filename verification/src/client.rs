//! One client's connection, from the welcome to the farewell.
use tokio::sync::broadcast::Receiver;
use vstd::prelude::*;

use crate::metrics::{Metrics, MetricsSnapshot};
use crate::protocol::{BroadcastEvent, ClientMsg, ServerMsg, N_OPTIONS};
use crate::ratelimit::TokenBucket;
use crate::room::{Room, RoomView};
use crate::vote::VoteBoard;

verus! {

/// What the server keeps of one connection.
pub struct Session {
    pub id: u64,
    /// The option that counts for this client, as it was sent: one that does
    /// not exist is remembered too, and counts for nothing.
    pub current_vote: Option<usize>,
    pub nick: Option<String>,
    /// Slows the client down, where it is there. Ordinary connections have
    /// none: whatever a client sends is delivered.
    pub limiter: Option<TokenBucket>,
    /// When the last message came in, in nanoseconds since the connection was
    /// opened.
    pub last_ns: u64,
}

/// A session together with all that it acts on.
pub struct Scene {
    pub session: Session,
    pub room: RoomView,
    pub counts: Seq<i64>,
    pub metrics: MetricsSnapshot,
}

// ------------------------------------------------------------ specification

impl Session {
    /// A session that nothing was received on yet.
    pub open spec fn fresh(id: u64, limiter: Option<TokenBucket>) -> Session {
        Session { id, current_vote: None, nick: None, limiter, last_ns: 0 }
    }

    /// Whether the limiter lets a message through.
    pub open spec fn admits(self, elapsed_ns: u64) -> bool {
        match self.limiter {
            Some(bucket) => crate::ratelimit::grants(bucket.level, elapsed_ns),
            None => true,
        }
    }

    /// The session behind the limiter's decision.
    pub open spec fn limited(self, elapsed_ns: u64) -> Session {
        match self.limiter {
            Some(bucket) => Session {
                limiter: Some(
                    TokenBucket { level: crate::ratelimit::spent(bucket.level, elapsed_ns) },
                ),
                ..self
            },
            None => self,
        }
    }

    /// The counters without the vote of this session.
    pub open spec fn counts_without(self, counts: Seq<i64>) -> Seq<i64> {
        match self.current_vote {
            Some(prev) => crate::vote::minus_one(counts, prev as int),
            None => counts,
        }
    }

    /// The room after it was told that the vote of this session is gone. Where
    /// there was none, there is nothing to tell.
    pub open spec fn room_without(self, room: RoomView, counts: Seq<i64>, now_ms: u64) -> RoomView {
        match self.current_vote {
            Some(prev) => room.submitted(
                crate::vote::snapshot_msg(self.counts_without(counts)),
                now_ms,
            ),
            None => room,
        }
    }
}

impl Scene {
    /// The vote of this session is replaced by one for `option`, and the room
    /// is told.
    pub open spec fn voted(self, option: usize, now_ms: u64) -> Scene {
        let counts = crate::vote::after_vote(self.counts, self.session.current_vote, option);
        Scene {
            session: Session { current_vote: Some(option), ..self.session },
            counts,
            room: self.room.submitted(crate::vote::snapshot_msg(counts), now_ms),
            ..self
        }
    }

    /// The vote of this session, where it has one, is taken back, and the room
    /// is told.
    pub open spec fn unvoted(self, now_ms: u64) -> Scene {
        Scene {
            session: Session { current_vote: None, ..self.session },
            counts: self.session.counts_without(self.counts),
            room: self.session.room_without(self.room, self.counts, now_ms),
            ..self
        }
    }

    /// A message that was let through is acted on.
    pub open spec fn acted_on(self, msg: ClientMsg, now_ms: u64) -> Scene {
        match msg {
            ClientMsg::SetNick { name } => Scene {
                session: Session { nick: Some(name), ..self.session },
                room: self.room.named(self.session.id, name),
                ..self
            },
            ClientMsg::Chat { text, client_ts } => Scene {
                room: self.room.with_event(
                    BroadcastEvent::Server(
                        ServerMsg::Chat {
                            from: self.session.id,
                            nick: self.session.nick,
                            text,
                            sent_at: now_ms,
                            client_ts,
                        },
                    ),
                ),
                ..self
            },
            ClientMsg::Vote { option } => self.voted(option, now_ms),
            ClientMsg::Unvote => self.unvoted(now_ms),
        }
    }

    /// A message is received: dropped by the limiter, or counted and acted on.
    pub open spec fn received(self, msg: ClientMsg, now_ms: u64, elapsed_ns: u64) -> Scene {
        let limited = Scene { session: self.session.limited(elapsed_ns), ..self };
        if self.session.admits(elapsed_ns) {
            Scene { metrics: limited.metrics.one_received(), ..limited }.acted_on(msg, now_ms)
        } else {
            limited
        }
    }

    /// After how long the room wants its votes flushed, where this message made
    /// it want that.
    pub open spec fn wants_flush(self, msg: ClientMsg, now_ms: u64, elapsed_ns: u64) -> Option<u64> {
        let submits = match msg {
            ClientMsg::Vote { option } => true,
            ClientMsg::Unvote => self.session.current_vote is Some,
            _ => false,
        };
        if self.session.admits(elapsed_ns) && submits {
            self.room.flush_wanted(now_ms)
        } else {
            None
        }
    }

    /// How long ago, at `at_ns`, the last message came in.
    pub open spec fn pause(self, at_ns: u64) -> u64 {
        crate::room::monus(at_ns, self.session.last_ns)
    }

    /// A line came in, at `at_ns` since the connection was opened. One that is no
    /// message is passed over.
    pub open spec fn heard(self, msg: Option<ClientMsg>, now_ms: u64, at_ns: u64) -> Scene {
        match msg {
            Some(m) => Scene {
                session: Session { last_ns: at_ns, ..self.session },
                ..self
            }.received(m, now_ms, self.pause(at_ns)),
            None => self,
        }
    }

    /// The connection has ended.
    pub open spec fn ended(self, now_ms: u64) -> Scene {
        let quiet = self.unvoted(now_ms);
        Scene { room: quiet.room.left(self.session.id), ..quiet }
    }
}

// ---------------------------------------------------------------- functions

impl Session {
    /// Lets client `id` into the room. Returns the session, a receiver of all
    /// that is broadcast from the client's own arrival on, and the welcome that
    /// only this client is sent.
    pub fn open(id: u64, room: &mut Room) -> (r: (Session, Receiver<BroadcastEvent>, ServerMsg))
        ensures
            final(room)@ == old(room)@.joined(id),
            old(room)@.wf() ==> final(room)@.wf(),
            r.0 == Session::fresh(id, None),
            crate::channel::subscribed_after(r.1) == old(room)@.events.len(),
            r.2 matches ServerMsg::Welcome { peer_count } && peer_count
                == final(room)@.clients.len(),
    {
        let rx = room.subscribe();
        let peer_count: u64 = room.join(id);
        let session = Session {
            id,
            current_vote: None,
            nick: None,
            limiter: None,
            last_ns: 0,
        };
        (session, rx, ServerMsg::Welcome { peer_count })
    }

    /// The same session, with a full token bucket in front.
    pub fn with_rate_limit(self) -> (r: Session)
        ensures
            r == (Session {
                limiter: Some(TokenBucket { level: crate::ratelimit::TOKEN_CAPACITY }),
                ..self
            }),
    {
        Session { limiter: Some(TokenBucket::new()), ..self }
    }

    /// Takes a token for a message, where there is a limiter.
    fn let_through(&mut self, elapsed_ns: u64) -> (granted: bool)
        ensures
            granted == old(self).admits(elapsed_ns),
            *final(self) == old(self).limited(elapsed_ns),
    {
        match self.limiter {
            Some(bucket) => {
                let mut bucket = bucket;
                let granted = bucket.take(elapsed_ns);
                self.limiter = Some(bucket);
                granted
            },
            None => true,
        }
    }

    /// Acts on a message of the client that came in at `now_ms`, `elapsed_ns`
    /// after the one before. Where `Some(delay)` comes back, the room's
    /// `flush_pending_vote_snapshot` is to be called after that many
    /// milliseconds.
    pub fn on_message(
        &mut self,
        msg: ClientMsg,
        now_ms: u64,
        elapsed_ns: u64,
        room: &mut Room,
        vote: &mut VoteBoard,
        metrics: &mut Metrics,
    ) -> (delay: Option<u64>)
        ensures
            ({
                let before = Scene {
                    session: *old(self),
                    room: old(room)@,
                    counts: old(vote)@,
                    metrics: old(metrics)@,
                };
                let after = Scene {
                    session: *final(self),
                    room: final(room)@,
                    counts: final(vote)@,
                    metrics: final(metrics)@,
                };
                &&& after == before.received(msg, now_ms, elapsed_ns)
                &&& delay == before.wants_flush(msg, now_ms, elapsed_ns)
            }),
            old(room)@.wf() ==> final(room)@.wf(),
    {
        if !self.let_through(elapsed_ns) {
            return None;
        }
        metrics.record_recv();
        match msg {
            ClientMsg::SetNick { name } => {
                room.set_nick(self.id, name.clone());
                self.nick = Some(name);
                None
            },
            ClientMsg::Chat { text, client_ts } => {
                let nick = match &self.nick {
                    Some(name) => Some(name.clone()),
                    None => None,
                };
                room.broadcast(
                    ServerMsg::Chat { from: self.id, nick, text, sent_at: now_ms, client_ts },
                );
                None
            },
            ClientMsg::Vote { option } => {
                vote.vote(self.current_vote, option);
                self.current_vote = Some(option);
                room.broadcast_vote_throttled(vote.snapshot_message(), now_ms)
            },
            ClientMsg::Unvote => self.take_vote_back(now_ms, room, vote),
        }
    }

    /// Acts on a line of the client that came in at `now_ms`, and at `at_ns`
    /// since the connection was opened: on the message in it, where there is one.
    /// A line that is no message changes nothing, and the connection goes on. The
    /// delay is that of `on_message`.
    pub fn on_line(
        &mut self,
        msg: Option<ClientMsg>,
        now_ms: u64,
        at_ns: u64,
        room: &mut Room,
        vote: &mut VoteBoard,
        metrics: &mut Metrics,
    ) -> (delay: Option<u64>)
        ensures
            ({
                let before = Scene {
                    session: *old(self),
                    room: old(room)@,
                    counts: old(vote)@,
                    metrics: old(metrics)@,
                };
                let after = Scene {
                    session: *final(self),
                    room: final(room)@,
                    counts: final(vote)@,
                    metrics: final(metrics)@,
                };
                &&& after == before.heard(msg, now_ms, at_ns)
                &&& delay == match msg {
                    Some(m) => before.wants_flush(m, now_ms, before.pause(at_ns)),
                    None => None,
                }
            }),
            msg is None ==> *final(room) == *old(room) && *final(vote) == *old(vote)
                && *final(metrics) == *old(metrics) && *final(self) == *old(self),
            old(room)@.wf() ==> final(room)@.wf(),
    {
        match msg {
            Some(m) => {
                let elapsed_ns: u64 = at_ns.saturating_sub(self.last_ns);
                self.last_ns = at_ns;
                self.on_message(m, now_ms, elapsed_ns, room, vote, metrics)
            },
            None => None,
        }
    }

    /// Takes the vote of this client back, where there is one.
    fn take_vote_back(&mut self, now_ms: u64, room: &mut Room, vote: &mut VoteBoard) -> (delay:
        Option<u64>)
        ensures
            *final(self) == (Session { current_vote: None, ..*old(self) }),
            final(vote)@ == old(self).counts_without(old(vote)@),
            final(room)@ == old(self).room_without(old(room)@, old(vote)@, now_ms),
            delay == if old(self).current_vote is Some {
                old(room)@.flush_wanted(now_ms)
            } else {
                None
            },
            old(room)@.wf() ==> final(room)@.wf(),
    {
        if let Some(prev) = self.current_vote {
            self.current_vote = None;
            vote.unvote(prev);
            room.broadcast_vote_throttled(vote.snapshot_message(), now_ms)
        } else {
            None
        }
    }

    /// The connection has ended, for whatever reason: the vote is taken back,
    /// the room is told, and the client leaves it. The delay is that of
    /// `on_message`.
    pub fn close(self, now_ms: u64, room: &mut Room, vote: &mut VoteBoard) -> (delay: Option<u64>)
        ensures
            final(vote)@ == self.counts_without(old(vote)@),
            final(room)@ == self.room_without(old(room)@, old(vote)@, now_ms).left(self.id),
            delay == if self.current_vote is Some {
                old(room)@.flush_wanted(now_ms)
            } else {
                None
            },
            old(room)@.wf() ==> final(room)@.wf(),
    {
        let mut session = self;
        let delay = session.take_vote_back(now_ms, room, vote);
        room.leave(session.id);
        delay
    }
}

// ------------------------------------------------------------- the way out

/// What the channel's receiver came up with.
pub enum Received {
    Event(BroadcastEvent),
    /// The client is too slow: this many events are lost to it.
    Lagged(u64),
    Closed,
}

/// What is to be done about it.
pub enum WriteStep {
    /// Write this message to the client, and tell `after_write` how that went.
    Send(ServerMsg),
    /// Nothing: wait for the next event.
    Skip,
    /// Stop writing, and end the connection.
    Stop,
}

/// Decides what the writing side of a connection does next. Messages are
/// passed on, lost ones are passed over, and a shutdown or the end of the
/// channel ends the connection.
pub fn write_step(received: Received) -> (step: WriteStep)
    ensures
        received matches Received::Event(BroadcastEvent::Server(msg)) ==> step == WriteStep::Send(
            msg,
        ),
        received matches Received::Lagged(n) ==> step == WriteStep::Skip,
        received == Received::Event(BroadcastEvent::Shutdown) || received == Received::Closed
            ==> step == WriteStep::Stop,
{
    match received {
        Received::Event(BroadcastEvent::Server(msg)) => WriteStep::Send(msg),
        Received::Event(BroadcastEvent::Shutdown) => WriteStep::Stop,
        Received::Lagged(n) => WriteStep::Skip,
        Received::Closed => WriteStep::Stop,
    }
}

/// A line was written to the client, or that failed. What was written is counted.
/// Returns whether the connection goes on.
pub fn after_write(written: bool, metrics: &mut Metrics) -> (go_on: bool)
    ensures
        go_on == written,
        final(metrics)@ == old(metrics)@.after_write(written),
{
    if written {
        metrics.record_sent();
    }
    written
}

// --------------------------------------------- laws of the server as a whole

/// The whole server, seen from above: everybody who is connected, the room, the
/// counters, and the id that the next client gets.
pub struct Hall {
    pub sessions: Seq<Session>,
    pub room: RoomView,
    pub counts: Seq<i64>,
    pub metrics: MetricsSnapshot,
    pub next_id: u64,
}

/// What happens to the server. `who` is a position among those connected.
pub enum HallOp {
    Open,
    /// A line of a client, with the message in it, if it is one.
    Line { who: int, msg: Option<ClientMsg>, now_ms: u64, at_ns: u64 },
    Flush { now_ms: u64 },
    /// A line was written to a client, or that failed.
    Write { written: bool },
    Close { who: int, now_ms: u64 },
}

impl Hall {
    /// A server that nobody has connected to yet.
    pub open spec fn start() -> Hall {
        Hall {
            sessions: Seq::empty(),
            room: crate::room::empty_room(crate::room::BROADCAST_CAP as nat),
            counts: seq![0i64, 0i64, 0i64, 0i64],
            metrics: MetricsSnapshot { recv: 0, sent: 0 },
            next_id: 1,
        }
    }

    /// What session `who` acts on.
    pub open spec fn scene(self, who: int) -> Scene {
        Scene {
            session: self.sessions[who],
            room: self.room,
            counts: self.counts,
            metrics: self.metrics,
        }
    }

    pub open spec fn allows(self, op: HallOp) -> bool {
        match op {
            HallOp::Open => self.next_id < u64::MAX,
            HallOp::Line { who, .. } => 0 <= who < self.sessions.len(),
            HallOp::Flush { now_ms } => true,
            HallOp::Write { written } => true,
            HallOp::Close { who, .. } => 0 <= who < self.sessions.len(),
        }
    }

    pub open spec fn after(self, op: HallOp) -> Hall {
        match op {
            HallOp::Open => Hall {
                sessions: self.sessions.push(Session::fresh(self.next_id, None)),
                room: self.room.joined(self.next_id),
                next_id: (self.next_id + 1) as u64,
                ..self
            },
            HallOp::Line { who, msg, now_ms, at_ns } => {
                let scene = self.scene(who).heard(msg, now_ms, at_ns);
                Hall {
                    sessions: self.sessions.update(who, scene.session),
                    room: scene.room,
                    counts: scene.counts,
                    metrics: scene.metrics,
                    ..self
                }
            },
            HallOp::Flush { now_ms } => Hall { room: self.room.flushed(now_ms), ..self },
            HallOp::Write { written } => Hall {
                metrics: self.metrics.after_write(written),
                ..self
            },
            HallOp::Close { who, now_ms } => {
                let scene = self.scene(who).ended(now_ms);
                Hall {
                    sessions: self.sessions.remove(who),
                    room: scene.room,
                    counts: scene.counts,
                    ..self
                }
            },
        }
    }

    /// The server after all of `ops`.
    pub open spec fn run(ops: Seq<HallOp>) -> Hall
        decreases ops.len(),
    {
        if ops.len() == 0 {
            Hall::start()
        } else {
            Hall::run(ops.drop_last()).after(ops.last())
        }
    }

    /// Each of `ops` is possible where it happens.
    pub open spec fn possible(ops: Seq<HallOp>) -> bool
        decreases ops.len(),
    {
        ops.len() == 0 || (Hall::possible(ops.drop_last()) && Hall::run(ops.drop_last()).allows(
            ops.last(),
        ))
    }

    /// `op` submits a new state of the vote to the room.
    pub open spec fn submits(self, op: HallOp) -> bool {
        match op {
            HallOp::Line { who, msg: Some(msg), now_ms, at_ns } => {
                &&& self.sessions[who].admits(self.scene(who).pause(at_ns))
                &&& msg is Vote || (msg is Unvote && self.sessions[who].current_vote is Some)
            },
            HallOp::Close { who, now_ms } => self.sessions[who].current_vote is Some,
            _ => false,
        }
    }

    /// Some of `ops` submitted a state of the vote.
    pub open spec fn submitted_by(ops: Seq<HallOp>) -> bool
        decreases ops.len(),
    {
        ops.len() > 0 && (Hall::submitted_by(ops.drop_last()) || Hall::run(ops.drop_last()).submits(
            ops.last(),
        ))
    }

    /// The votes of everybody who is connected.
    pub open spec fn votes(self) -> Seq<Option<usize>> {
        Seq::new(self.sessions.len(), |i: int| self.sessions[i].current_vote)
    }

    /// The room lists exactly those who are connected, under ids of their own.
    pub open spec fn lists_everybody(self) -> bool {
        &&& forall|i: int|
            0 <= i < self.sessions.len() ==> (#[trigger] self.sessions[i]).id < self.next_id
        &&& forall|i: int, j: int|
            0 <= i < j < self.sessions.len() ==> (#[trigger] self.sessions[i]).id != (
            #[trigger] self.sessions[j]).id
        &&& forall|id: u64| #[trigger]
            self.room.clients.contains_key(id) <==> exists|i: int|
                0 <= i < self.sessions.len() && (#[trigger] self.sessions[i]).id == id
    }
}

/// The vote is never wrong: whatever clients send, in whatever order, and however
/// they come and go, each counter is the number of connected clients whose vote
/// is for its option, so that an observer is shown exactly that.
pub proof fn law_counters_are_the_votes_of_those_connected(ops: Seq<HallOp>)
    requires
        Hall::possible(ops),
        ops.len() < i64::MAX,
    ensures
        Hall::run(ops).sessions.len() <= ops.len(),
        crate::vote::counts_are(Hall::run(ops).counts, Hall::run(ops).votes()),
    decreases ops.len(),
{
    let hall = Hall::run(ops);
    if ops.len() == 0 {
        assert(hall.votes() == Seq::<Option<usize>>::empty());
        crate::vote::law_empty_board_counts_nothing();
    } else {
        let before = Hall::run(ops.drop_last());
        law_counters_are_the_votes_of_those_connected(ops.drop_last());
        match ops.last() {
            HallOp::Open => {
                assert(hall.votes() =~= before.votes().push(None));
                assert forall|o: int| 0 <= o < N_OPTIONS implies #[trigger] hall.counts[o]
                    == crate::vote::tally(hall.votes(), o) by {
                    crate::vote::lemma_tally_push(before.votes(), None, o);
                }
            },
            HallOp::Line { who, msg, now_ms, at_ns } => {
                let session = before.sessions[who];
                let admitted = session.admits(before.scene(who).pause(at_ns));
                match msg {
                    Some(ClientMsg::Vote { option }) if admitted => {
                        assert(hall.votes() =~= before.votes().update(who, Some(option)));
                        crate::vote::law_vote_keeps_counts(
                            before.counts,
                            before.votes(),
                            who,
                            option,
                        );
                    },
                    Some(ClientMsg::Unvote) if admitted && session.current_vote is Some => {
                        assert(hall.votes() =~= before.votes().update(who, None));
                        crate::vote::law_unvote_keeps_counts(
                            before.counts,
                            before.votes(),
                            who,
                            session.current_vote->0,
                        );
                    },
                    _ => {
                        assert(hall.votes() =~= before.votes());
                    },
                }
            },
            HallOp::Flush { now_ms } => {
                assert(hall.votes() =~= before.votes());
            },
            HallOp::Write { written } => {
                assert(hall.votes() =~= before.votes());
            },
            HallOp::Close { who, now_ms } => {
                let session = before.sessions[who];
                let quiet = before.votes().update(who, None);
                if session.current_vote is Some {
                    crate::vote::law_unvote_keeps_counts(
                        before.counts,
                        before.votes(),
                        who,
                        session.current_vote->0,
                    );
                } else {
                    assert(quiet =~= before.votes());
                }
                assert(hall.votes() =~= quiet.remove(who));
                assert forall|o: int| 0 <= o < N_OPTIONS implies #[trigger] hall.counts[o]
                    == crate::vote::tally(hall.votes(), o) by {
                    crate::vote::lemma_tally_remove(quiet, who, o);
                }
            },
        }
    }
}

/// The latest state of the vote reaches everybody: whoever voted, took a vote
/// back or left, behind the next flush the last snapshot that was broadcast shows
/// the counters as they stand. The same holds without a flush where nothing
/// waits. As long as nothing was submitted, nobody has voted and no snapshot was
/// broadcast.
pub proof fn law_latest_counters_are_announced(ops: Seq<HallOp>, now_ms: u64)
    requires
        Hall::possible(ops),
    ensures
        ({
            let hall = Hall::run(ops);
            let latest = crate::vote::snapshot_msg(hall.counts);
            &&& Hall::submitted_by(ops) ==> {
                &&& last_snapshot(hall.room.flushed(now_ms).events) == Some(latest)
                &&& hall.room.pending is None ==> last_snapshot(hall.room.events) == Some(latest)
                &&& hall.room.pending is Some ==> hall.room.pending == Some(latest)
            }
            &&& !Hall::submitted_by(ops) ==> {
                &&& hall.counts == Hall::start().counts
                &&& hall.room.pending is None
                &&& last_snapshot(hall.room.events) is None
            }
        }),
    decreases ops.len(),
{
    let hall = Hall::run(ops);
    let latest = crate::vote::snapshot_msg(hall.counts);
    if ops.len() > 0 {
        let before = Hall::run(ops.drop_last());
        law_latest_counters_are_announced(ops.drop_last(), now_ms);
        law_room_lists_those_connected(ops.drop_last());
        lemma_new_event(before, ops.last());
    }
    if hall.room.pending is Some {
        lemma_last_snapshot_push(hall.room.events, BroadcastEvent::Server(hall.room.pending->0));
    }
}

/// The last state of the vote among `events`.
pub open spec fn last_snapshot(events: Seq<BroadcastEvent>) -> Option<ServerMsg>
    decreases events.len(),
{
    if events.len() == 0 {
        None
    } else {
        match events.last() {
            BroadcastEvent::Server(msg) if msg is VoteSnapshot => Some(msg),
            _ => last_snapshot(events.drop_last()),
        }
    }
}

proof fn lemma_last_snapshot_push(events: Seq<BroadcastEvent>, event: BroadcastEvent)
    ensures
        last_snapshot(events.push(event)) == match event {
            BroadcastEvent::Server(msg) if msg is VoteSnapshot => Some(msg),
            _ => last_snapshot(events),
        },
{
    assert(events.push(event).drop_last() == events);
}

/// The last snapshot behind one step of the server: what was submitted, or what
/// waited and was flushed, or the one from before.
proof fn lemma_new_event(before: Hall, op: HallOp)
    requires
        before.allows(op),
        before.room.wf(),
    ensures
        ({
            let after = before.after(op);
            let latest = crate::vote::snapshot_msg(after.counts);
            &&& before.submits(op) ==> after.room.pending == Some(latest)
                || after.room.pending is None && last_snapshot(after.room.events) == Some(latest)
            &&& !before.submits(op) ==> after.counts == before.counts
            &&& !before.submits(op) && op !is Flush ==> after.room.pending == before.room.pending
                && last_snapshot(after.room.events) == last_snapshot(before.room.events)
            &&& op matches HallOp::Flush { now_ms } ==> after.room.pending is None
                && last_snapshot(after.room.events) == match before.room.pending {
                Some(msg) if msg is VoteSnapshot => Some(msg),
                _ => last_snapshot(before.room.events),
            }
        }),
{
    let after = before.after(op);
    let events = before.room.events;
    match op {
        HallOp::Open => {
            lemma_last_snapshot_push(
                events,
                BroadcastEvent::Server(ServerMsg::Presence { id: before.next_id, joined: true }),
            );
        },
        HallOp::Line { who, msg, now_ms, at_ns } => {
            if after.room.events.len() > events.len() {
                lemma_last_snapshot_push(events, after.room.events.last());
                assert(after.room.events == events.push(after.room.events.last()));
            } else {
                assert(after.room.events == events);
            }
        },
        HallOp::Flush { now_ms } => {
            if let Some(msg) = before.room.pending {
                lemma_last_snapshot_push(events, BroadcastEvent::Server(msg));
            }
        },
        HallOp::Write { written } => {},
        HallOp::Close { who, now_ms } => {
            let quiet = before.scene(who).unvoted(now_ms);
            let gone = BroadcastEvent::Server(
                ServerMsg::Presence { id: before.sessions[who].id, joined: false },
            );
            if quiet.room.events.len() > events.len() {
                lemma_last_snapshot_push(events, quiet.room.events.last());
                assert(quiet.room.events == events.push(quiet.room.events.last()));
            } else {
                assert(quiet.room.events == events);
            }
            lemma_last_snapshot_push(quiet.room.events, gone);
        },
    }
}

/// `ops` without the lines that are no messages.
pub open spec fn messages_only(ops: Seq<HallOp>) -> Seq<HallOp>
    decreases ops.len(),
{
    if ops.len() == 0 {
        ops
    } else {
        let earlier = messages_only(ops.drop_last());
        match ops.last() {
            HallOp::Line { who, msg: None, now_ms, at_ns } => earlier,
            _ => earlier.push(ops.last()),
        }
    }
}

/// Lines that are no messages make no difference: whoever sends them, and in
/// between whatever, the server ends up as if they had never come. Nothing is
/// broadcast for them, they are not counted, they cost no token, and they end no
/// connection.
pub proof fn law_bad_lines_make_no_difference(ops: Seq<HallOp>)
    requires
        Hall::possible(ops),
    ensures
        Hall::possible(messages_only(ops)),
        Hall::run(messages_only(ops)) == Hall::run(ops),
    decreases ops.len(),
{
    if ops.len() > 0 {
        let earlier = ops.drop_last();
        let before = Hall::run(earlier);
        law_bad_lines_make_no_difference(earlier);
        match ops.last() {
            HallOp::Line { who, msg: None, now_ms, at_ns } => {
                assert(before.sessions.update(who, before.sessions[who]) == before.sessions);
            },
            _ => {
                assert(messages_only(ops).drop_last() == messages_only(earlier));
            },
        }
    }
}

/// How many of `ops` are lines that held a message and were let through.
pub open spec fn lines_in(ops: Seq<HallOp>) -> nat
    decreases ops.len(),
{
    if ops.len() == 0 {
        0
    } else {
        let before = Hall::run(ops.drop_last());
        lines_in(ops.drop_last()) + match ops.last() {
            HallOp::Line { who, msg: Some(msg), now_ms, at_ns } if before.sessions[who].admits(
                before.scene(who).pause(at_ns),
            ) => 1nat,
            _ => 0nat,
        }
    }
}

/// How many of `ops` wrote a line to a client.
pub open spec fn lines_out(ops: Seq<HallOp>) -> nat
    decreases ops.len(),
{
    if ops.len() == 0 {
        0
    } else {
        lines_out(ops.drop_last()) + if ops.last() == (HallOp::Write { written: true }) {
            1nat
        } else {
            0nat
        }
    }
}

/// The traffic is counted exactly: `recv` is the number of lines that held a
/// message and were let through, `sent` that of the lines written to clients.
pub proof fn law_traffic_is_counted(ops: Seq<HallOp>)
    requires
        Hall::possible(ops),
        ops.len() <= u64::MAX,
    ensures
        lines_in(ops) <= ops.len(),
        lines_out(ops) <= ops.len(),
        Hall::run(ops).metrics.recv == lines_in(ops),
        Hall::run(ops).metrics.sent == lines_out(ops),
    decreases ops.len(),
{
    if ops.len() > 0 {
        law_traffic_is_counted(ops.drop_last());
    }
}

/// The room is never wrong: it lists those who are connected and nobody else,
/// it is well-formed, and no two of them have the same id.
pub proof fn law_room_lists_those_connected(ops: Seq<HallOp>)
    requires
        Hall::possible(ops),
    ensures
        Hall::run(ops).lists_everybody(),
        Hall::run(ops).room.wf(),
    decreases ops.len(),
{
    if ops.len() > 0 {
        let hall = Hall::run(ops);
        let before = Hall::run(ops.drop_last());
        law_room_lists_those_connected(ops.drop_last());
        lemma_step_lists_everybody(before, ops.last());
    }
}

proof fn lemma_step_lists_everybody(before: Hall, op: HallOp)
    requires
        before.lists_everybody(),
        before.room.wf(),
        before.allows(op),
    ensures
        before.after(op).lists_everybody(),
        before.after(op).room.wf(),
{
    let hall = before.after(op);
    match op {
        HallOp::Open => {
            let n = before.sessions.len() as int;
            assert forall|id: u64| #[trigger] hall.room.clients.contains_key(id) <==> exists|i: int|
                0 <= i < hall.sessions.len() && (#[trigger] hall.sessions[i]).id == id by {
                if hall.room.clients.contains_key(id) {
                    if id == before.next_id {
                        assert(hall.sessions[n].id == id);
                    } else {
                        assert(before.room.clients.contains_key(id));
                        let i = choose|i: int|
                            0 <= i < before.sessions.len() && (#[trigger] before.sessions[i]).id
                                == id;
                        assert(hall.sessions[i].id == id);
                    }
                }
                if exists|i: int|
                    0 <= i < hall.sessions.len() && (#[trigger] hall.sessions[i]).id == id {
                    let i = choose|i: int|
                        0 <= i < hall.sessions.len() && (#[trigger] hall.sessions[i]).id == id;
                    if i < n {
                        assert(before.sessions[i].id == id);
                        assert(before.room.clients.contains_key(id));
                    }
                }
            }
        },
        HallOp::Line { who, msg, now_ms, at_ns } => {
            assert(hall.sessions[who].id == before.sessions[who].id);
            assert(forall|i: int|
                0 <= i < hall.sessions.len() ==> (#[trigger] hall.sessions[i]).id
                    == before.sessions[i].id);
            assert forall|id: u64| #[trigger] hall.room.clients.contains_key(id) <==> exists|i: int|
                0 <= i < hall.sessions.len() && (#[trigger] hall.sessions[i]).id == id by {
                assert(hall.room.clients.contains_key(id) == before.room.clients.contains_key(id));
                if before.room.clients.contains_key(id) {
                    let i = choose|i: int|
                        0 <= i < before.sessions.len() && (#[trigger] before.sessions[i]).id == id;
                    assert(hall.sessions[i].id == id);
                }
                if exists|i: int|
                    0 <= i < hall.sessions.len() && (#[trigger] hall.sessions[i]).id == id {
                    let i = choose|i: int|
                        0 <= i < hall.sessions.len() && (#[trigger] hall.sessions[i]).id == id;
                    assert(before.sessions[i].id == id);
                }
            }
        },
        HallOp::Flush { now_ms } => {},
        HallOp::Write { written } => {},
        HallOp::Close { who, now_ms } => {
            let gone = before.sessions[who].id;
            assert forall|id: u64| #[trigger] hall.room.clients.contains_key(id) <==> exists|i: int|
                0 <= i < hall.sessions.len() && (#[trigger] hall.sessions[i]).id == id by {
                if hall.room.clients.contains_key(id) {
                    assert(before.room.clients.contains_key(id));
                    let i = choose|i: int|
                        0 <= i < before.sessions.len() && (#[trigger] before.sessions[i]).id == id;
                    assert(i != who);
                    assert(hall.sessions[if i < who { i } else { i - 1 }].id == id);
                }
                if exists|i: int|
                    0 <= i < hall.sessions.len() && (#[trigger] hall.sessions[i]).id == id {
                    let i = choose|i: int|
                        0 <= i < hall.sessions.len() && (#[trigger] hall.sessions[i]).id == id;
                    let k = if i < who { i } else { i + 1 };
                    assert(before.sessions[k].id == id);
                    assert(before.room.clients.contains_key(id));
                    assert(id != gone);
                }
            }
        },
    }
}

/// The head count of the room is the number of those connected.
pub proof fn law_head_count_is_exact(ops: Seq<HallOp>)
    requires
        Hall::possible(ops),
    ensures
        Hall::run(ops).room.clients.len() == Hall::run(ops).sessions.len(),
{
    let hall = Hall::run(ops);
    law_room_lists_those_connected(ops);
    let ids = Seq::new(hall.sessions.len(), |i: int| hall.sessions[i].id);
    assert(ids.no_duplicates());
    ids.unique_seq_to_set();
    assert forall|id: u64| ids.to_set().contains(id) <==> #[trigger] hall.room.clients.dom().contains(
        id,
    ) by {
        if ids.contains(id) {
            let i = choose|i: int| 0 <= i < ids.len() && ids[i] == id;
            assert(hall.sessions[i].id == id);
            assert(hall.room.clients.contains_key(id));
        }
        if hall.room.clients.contains_key(id) {
            let i = choose|i: int|
                0 <= i < hall.sessions.len() && (#[trigger] hall.sessions[i]).id == id;
            assert(ids[i] == id);
        }
    }
    assert(ids.to_set() =~= hall.room.clients.dom());
}

/// A newcomer receives the news of its own arrival, and all that comes after.
pub proof fn law_newcomers_see_themselves_arrive(room: RoomView, id: u64)
    ensures
        room.joined(id).events.len() == room.events.len() + 1,
        room.joined(id).events[room.events.len() as int] == BroadcastEvent::Server(
            ServerMsg::Presence { id, joined: true },
        ),
{
}

/// Without a limiter nothing is dropped: every chat message is broadcast, once,
/// with the sender's id, nickname and clock.
pub proof fn law_every_chat_message_is_broadcast(
    scene: Scene,
    text: String,
    client_ts: u64,
    now_ms: u64,
    elapsed_ns: u64,
)
    requires
        scene.session.limiter is None,
    ensures
        scene.received(ClientMsg::Chat { text, client_ts }, now_ms, elapsed_ns).room.events
            == scene.room.events.push(
            BroadcastEvent::Server(
                ServerMsg::Chat {
                    from: scene.session.id,
                    nick: scene.session.nick,
                    text,
                    sent_at: now_ms,
                    client_ts,
                },
            ),
        ),
{
}

/// Voting again for the same option changes no counter, but tells the room.
pub proof fn law_revote_changes_no_counter(scene: Scene, option: usize, now_ms: u64)
    requires
        scene.session.current_vote == Some(option),
        scene.counts.len() == N_OPTIONS,
        option < N_OPTIONS ==> scene.counts[option as int] < i64::MAX,
    ensures
        scene.voted(option, now_ms).counts == scene.counts,
        scene.voted(option, now_ms).room == scene.room.submitted(
            crate::vote::snapshot_msg(scene.counts),
            now_ms,
        ),
{
    assert(scene.voted(option, now_ms).counts =~= scene.counts);
}

/// The limiter, and nothing else, decides what is let through: without one
/// everything is, with one what finds a whole token.
pub proof fn law_only_the_limiter_drops(session: Session, elapsed_ns: u64)
    ensures
        session.limiter is None ==> session.admits(elapsed_ns),
        session.limiter matches Some(bucket) ==> bucket.level <= 10_000_000_000
            ==> session.admits(elapsed_ns) == (bucket.level + 10 * elapsed_ns >= 1_000_000_000),
{
}

/// A message that is dropped changes nothing but the level of the bucket, and
/// asks for no flush.
pub proof fn law_dropped_messages_change_nothing(
    scene: Scene,
    msg: ClientMsg,
    now_ms: u64,
    elapsed_ns: u64,
)
    requires
        !scene.session.admits(elapsed_ns),
    ensures
        ({
            let after = scene.received(msg, now_ms, elapsed_ns);
            &&& after.room == scene.room
            &&& after.counts == scene.counts
            &&& after.metrics == scene.metrics
            &&& after.session == (Session { limiter: after.session.limiter, ..scene.session })
            &&& scene.wants_flush(msg, now_ms, elapsed_ns) is None
        }),
{
}

/// Every message that is let through is counted, once, and belongs to the same
/// client as before.
pub proof fn law_messages_are_counted_once(
    scene: Scene,
    msg: ClientMsg,
    now_ms: u64,
    elapsed_ns: u64,
)
    requires
        scene.session.admits(elapsed_ns),
        scene.metrics.recv < u64::MAX,
    ensures
        ({
            let after = scene.received(msg, now_ms, elapsed_ns);
            &&& after.metrics.recv == scene.metrics.recv + 1
            &&& after.metrics.sent == scene.metrics.sent
            &&& after.session.id == scene.session.id
            &&& after.session.last_ns == scene.session.last_ns
        }),
{
}

/// The latest nickname is the one that counts, whatever it was before: the session
/// and the room know the client by it, and the next chat message carries it.
/// Nobody is told of the change itself, and the vote is not touched.
pub proof fn law_latest_nickname_counts(
    scene: Scene,
    name: String,
    text: String,
    client_ts: u64,
    first_ms: u64,
    first_ns: u64,
    second_ms: u64,
    second_ns: u64,
)
    requires
        scene.session.admits(first_ns),
        scene.received(ClientMsg::SetNick { name }, first_ms, first_ns).session.admits(second_ns),
    ensures
        ({
            let id = scene.session.id;
            let named = scene.received(ClientMsg::SetNick { name }, first_ms, first_ns);
            let said = named.received(ClientMsg::Chat { text, client_ts }, second_ms, second_ns);
            &&& named.session.nick == Some(name)
            &&& named.session.current_vote == scene.session.current_vote
            &&& scene.room.clients.contains_key(id) ==> named.room.clients[id].name == Some(name)
            &&& named.room.clients.dom() == scene.room.clients.dom()
            &&& forall|other: u64|
                other != id ==> #[trigger] named.room.clients[other] == scene.room.clients[other]
            &&& named.room.events == scene.room.events
            &&& named.room.pending == scene.room.pending
            &&& named.counts == scene.counts
            &&& scene.wants_flush(ClientMsg::SetNick { name }, first_ms, first_ns) is None
            &&& said.room.events == scene.room.events.push(
                BroadcastEvent::Server(
                    ServerMsg::Chat {
                        from: id,
                        nick: Some(name),
                        text,
                        sent_at: second_ms,
                        client_ts,
                    },
                ),
            )
            &&& said.session.nick == Some(name)
        }),
{
    crate::room::law_latest_nickname_is_listed(scene.room, scene.session.id, name, 0);
    assert(scene.room.named(scene.session.id, name).clients.dom() =~= scene.room.clients.dom());
}

/// A chat message is broadcast, with the nickname that the client has, if it has
/// one, and touches nothing else: not the nickname, not the vote, not the list.
pub proof fn law_chat_touches_nothing_else(
    scene: Scene,
    text: String,
    client_ts: u64,
    now_ms: u64,
    elapsed_ns: u64,
)
    requires
        scene.session.admits(elapsed_ns),
    ensures
        ({
            let after = scene.received(ClientMsg::Chat { text, client_ts }, now_ms, elapsed_ns);
            &&& after.room.events == scene.room.events.push(
                BroadcastEvent::Server(
                    ServerMsg::Chat {
                        from: scene.session.id,
                        nick: scene.session.nick,
                        text,
                        sent_at: now_ms,
                        client_ts,
                    },
                ),
            )
            &&& after.room.clients == scene.room.clients
            &&& after.room.pending == scene.room.pending
            &&& after.room.flush_scheduled == scene.room.flush_scheduled
            &&& after.room.last_vote_ms == scene.room.last_vote_ms
            &&& after.counts == scene.counts
            &&& after.session.nick == scene.session.nick
            &&& after.session.current_vote == scene.session.current_vote
            &&& scene.wants_flush(ClientMsg::Chat { text, client_ts }, now_ms, elapsed_ns) is None
        }),
{
}

/// A vote is remembered as it was sent, also one for an option that does not
/// exist. It counts for its own option, and the client's vote before it counts no
/// more. The room is told of the counters as they are then.
pub proof fn law_votes_replace_the_vote_before(
    scene: Scene,
    option: usize,
    now_ms: u64,
    elapsed_ns: u64,
    o: usize,
)
    requires
        scene.session.admits(elapsed_ns),
        scene.counts.len() == N_OPTIONS,
        o < N_OPTIONS,
        i64::MIN < scene.counts[o as int] < i64::MAX,
    ensures
        ({
            let after = scene.received(ClientMsg::Vote { option }, now_ms, elapsed_ns);
            let prev = scene.session.current_vote;
            let was = scene.counts[o as int];
            let is = after.counts[o as int];
            &&& after.session.current_vote == Some(option)
            &&& after.session.nick == scene.session.nick
            &&& after.counts.len() == N_OPTIONS
            &&& o == option && prev != Some(o) ==> is == was + 1
            &&& o != option && prev == Some(o) ==> is == was - 1
            &&& (o == option) == (prev == Some(o)) ==> is == was
            &&& after.room == scene.room.submitted(crate::vote::snapshot_msg(after.counts), now_ms)
            &&& scene.wants_flush(ClientMsg::Vote { option }, now_ms, elapsed_ns)
                == scene.room.flush_wanted(now_ms)
        }),
{
}

/// A vote that is taken back counts no more, and the room is told. Without a vote
/// there is nothing to take back and nothing to tell.
pub proof fn law_votes_can_be_taken_back(
    scene: Scene,
    now_ms: u64,
    elapsed_ns: u64,
    o: usize,
)
    requires
        scene.session.admits(elapsed_ns),
        scene.counts.len() == N_OPTIONS,
        o < N_OPTIONS,
        i64::MIN < scene.counts[o as int],
    ensures
        ({
            let after = scene.received(ClientMsg::Unvote, now_ms, elapsed_ns);
            let was = scene.counts[o as int];
            let is = after.counts[o as int];
            &&& after.session.current_vote is None
            &&& after.session.nick == scene.session.nick
            &&& after.counts.len() == N_OPTIONS
            &&& is == if scene.session.current_vote == Some(o) {
                was - 1
            } else {
                was as int
            }
            &&& scene.session.current_vote is None ==> after.room == scene.room && after.counts
                == scene.counts && scene.wants_flush(ClientMsg::Unvote, now_ms, elapsed_ns) is None
            &&& scene.session.current_vote is Some ==> after.room == scene.room.submitted(
                crate::vote::snapshot_msg(after.counts),
                now_ms,
            ) && scene.wants_flush(ClientMsg::Unvote, now_ms, elapsed_ns)
                == scene.room.flush_wanted(now_ms)
        }),
{
}

/// Who leaves takes the vote along, is no longer listed, and is the only one who
/// is gone. The last that everybody hears of it is that the client left.
pub proof fn law_leavers_leave_nothing_behind(scene: Scene, now_ms: u64, o: usize, other: u64)
    requires
        scene.counts.len() == N_OPTIONS,
        o < N_OPTIONS,
        i64::MIN < scene.counts[o as int],
    ensures
        ({
            let id = scene.session.id;
            let after = scene.ended(now_ms);
            &&& after.counts[o as int] == if scene.session.current_vote == Some(o) {
                scene.counts[o as int] - 1
            } else {
                scene.counts[o as int] as int
            }
            &&& !after.room.clients.contains_key(id)
            &&& other != id ==> after.room.clients.contains_key(other)
                == scene.room.clients.contains_key(other)
            &&& after.room.events.len() > 0
            &&& after.room.events.last() == BroadcastEvent::Server(
                ServerMsg::Presence { id, joined: false },
            )
            &&& scene.session.current_vote is None ==> after.room.events.drop_last()
                == scene.room.events && after.room.pending == scene.room.pending
            &&& scene.session.current_vote is Some ==> after.room.events.drop_last()
                == scene.room.submitted(crate::vote::snapshot_msg(after.counts), now_ms).events
                && after.room.pending == scene.room.submitted(
                crate::vote::snapshot_msg(after.counts),
                now_ms,
            ).pending
            &&& after.metrics == scene.metrics
        }),
{
    let quiet = scene.unvoted(now_ms).room;
    assert(scene.ended(now_ms).room.events.drop_last() =~= quiet.events);
}

/// The pause in front of a message is the time since the one before, and from then
/// on the next pause begins.
pub proof fn law_pauses_run_from_message_to_message(
    scene: Scene,
    msg: ClientMsg,
    now_ms: u64,
    at_ns: u64,
)
    ensures
        ({
            let after = scene.heard(Some(msg), now_ms, at_ns);
            let marked = Scene {
                session: Session { last_ns: at_ns, ..scene.session },
                ..scene
            };
            &&& after.session.last_ns == at_ns
            &&& at_ns >= scene.session.last_ns ==> after == marked.received(
                msg,
                now_ms,
                (at_ns - scene.session.last_ns) as u64,
            )
            &&& at_ns < scene.session.last_ns ==> after == marked.received(msg, now_ms, 0)
        }),
{
}

/// A connection begins with nothing: no vote, no nickname, no message.
pub proof fn law_connections_begin_with_nothing(id: u64, limiter: Option<TokenBucket>)
    ensures
        Session::fresh(id, limiter).id == id,
        Session::fresh(id, limiter).current_vote is None,
        Session::fresh(id, limiter).nick is None,
        Session::fresh(id, limiter).limiter == limiter,
        Session::fresh(id, limiter).last_ns == 0,
{
}

} // verus!
