//! The room: who is in it, what is broadcast to it, and how often the state of
//! the vote is.
use std::collections::HashMap;

use tokio::sync::broadcast::{Receiver, Sender};
use vstd::prelude::*;

use crate::channel::{hand_over, open_channel, subscribe_to};
use crate::protocol::{BroadcastEvent, ServerMsg};

verus! {

broadcast use vstd::std_specs::hash::group_hash_axioms;

/// How many events the broadcast channel of a room holds.
pub const BROADCAST_CAP: usize = 524288;

/// The least time, in milliseconds, between two broadcasts of the vote. With
/// hundreds of voters every single change would flood the channel; twenty
/// broadcasts a second are plenty for a display. It is kept as long as the clock
/// does not go back and no flush comes before it is due.
pub const VOTE_BROADCAST_THROTTLE_MS: u64 = 50;

/// What the room knows of a participant.
#[derive(Debug, Clone, PartialEq, Eq)]
pub struct ClientMeta {
    pub id: u64,
    /// The nickname, once one was set.
    pub name: Option<String>,
}

/// A room, in the terms that contracts speak of.
pub struct RoomView {
    /// The events that were handed to the broadcast channel, in order.
    pub events: Seq<BroadcastEvent>,
    /// How many of the latest events are kept for a participant who falls
    /// behind.
    pub kept: nat,
    pub clients: Map<u64, ClientMeta>,
    /// When the vote was last broadcast (Unix ms).
    pub last_vote_ms: u64,
    /// The latest vote, where it came too soon to be broadcast.
    pub pending: Option<ServerMsg>,
    /// A flush of what waits by then is on its way.
    pub flush_scheduled: bool,
}

/// `a - b`, and zero where that is negative.
pub open spec fn monus(a: u64, b: u64) -> u64 {
    if a >= b {
        (a - b) as u64
    } else {
        0
    }
}

impl RoomView {
    /// Every participant is known by its own id, and a vote waits exactly
    /// where a flush is on its way.
    pub open spec fn wf(self) -> bool {
        &&& self.clients.dom().finite()
        &&& forall|id: u64| #[trigger] self.clients.contains_key(id) ==> self.clients[id].id == id
        &&& self.pending is Some == self.flush_scheduled
    }

    /// The room after `event` was broadcast.
    pub open spec fn with_event(self, event: BroadcastEvent) -> RoomView {
        RoomView { events: self.events.push(event), ..self }
    }

    /// The room after participant `id` came in.
    pub open spec fn joined(self, id: u64) -> RoomView {
        RoomView {
            clients: self.clients.insert(id, ClientMeta { id, name: None }),
            ..self
        }.with_event(BroadcastEvent::Server(ServerMsg::Presence { id, joined: true }))
    }

    /// The room after participant `id` went.
    pub open spec fn left(self, id: u64) -> RoomView {
        RoomView { clients: self.clients.remove(id), ..self }.with_event(
            BroadcastEvent::Server(ServerMsg::Presence { id, joined: false }),
        )
    }

    /// The room after participant `id` took a nickname.
    pub open spec fn named(self, id: u64, name: String) -> RoomView {
        if self.clients.contains_key(id) {
            RoomView {
                clients: self.clients.insert(
                    id,
                    ClientMeta { id: self.clients[id].id, name: Some(name) },
                ),
                ..self
            }
        } else {
            self
        }
    }

    /// Enough time has passed at `now_ms` to broadcast the vote at once.
    pub open spec fn slot_is_free(self, now_ms: u64) -> bool {
        monus(now_ms, self.last_vote_ms) >= VOTE_BROADCAST_THROTTLE_MS
    }

    /// How long, from `now_ms`, a deferred vote waits.
    pub open spec fn flush_delay(self, now_ms: u64) -> u64 {
        let rest = monus(VOTE_BROADCAST_THROTTLE_MS, monus(now_ms, self.last_vote_ms));
        if rest > 1 {
            rest
        } else {
            1
        }
    }

    /// A vote that is submitted at `now_ms` goes out at once: the slot is free,
    /// and no flush is on its way that will take it along.
    pub open spec fn goes_out(self, now_ms: u64) -> bool {
        self.slot_is_free(now_ms) && !self.flush_scheduled
    }

    /// The room after the vote `msg` was submitted at `now_ms`: broadcast at
    /// once, or kept in place of an older one that waits.
    pub open spec fn submitted(self, msg: ServerMsg, now_ms: u64) -> RoomView {
        if self.goes_out(now_ms) {
            RoomView { last_vote_ms: now_ms, ..self }.with_event(BroadcastEvent::Server(msg))
        } else {
            RoomView { pending: Some(msg), flush_scheduled: true, ..self }
        }
    }

    /// After how long a flush is to be called, where the submission asks for
    /// one: it was deferred, and no flush is on its way.
    pub open spec fn flush_wanted(self, now_ms: u64) -> Option<u64> {
        if self.slot_is_free(now_ms) || self.flush_scheduled {
            None
        } else {
            Some(self.flush_delay(now_ms))
        }
    }

    /// The room after the flush at `now_ms`.
    pub open spec fn flushed(self, now_ms: u64) -> RoomView {
        match self.pending {
            Some(msg) => RoomView {
                pending: None,
                flush_scheduled: false,
                last_vote_ms: now_ms,
                ..self
            }.with_event(BroadcastEvent::Server(msg)),
            None => RoomView { flush_scheduled: false, ..self },
        }
    }
}

/// A room with its broadcast channel.
pub struct Room {
    tx: Sender<BroadcastEvent>,
    clients: HashMap<u64, ClientMeta>,
    last_vote_broadcast_ms: u64,
    pending_vote_broadcast: Option<ServerMsg>,
    vote_flush_scheduled: bool,
}

impl View for Room {
    type V = RoomView;

    closed spec fn view(&self) -> RoomView {
        RoomView {
            events: crate::channel::handed_over(self.tx),
            kept: crate::channel::kept_for_laggards(self.tx),
            clients: self.clients@,
            last_vote_ms: self.last_vote_broadcast_ms,
            pending: self.pending_vote_broadcast,
            flush_scheduled: self.vote_flush_scheduled,
        }
    }
}

/// A room in which nothing has happened yet, and which keeps `kept` events.
pub open spec fn empty_room(kept: nat) -> RoomView {
    RoomView {
        events: Seq::empty(),
        kept,
        clients: Map::empty(),
        last_vote_ms: 0,
        pending: None,
        flush_scheduled: false,
    }
}

impl Room {
    /// An empty room, whose channel keeps `BROADCAST_CAP` events.
    pub fn new() -> (room: Self)
        ensures
            room@ == empty_room(BROADCAST_CAP as nat),
            room@.kept == 524288,
            room@.wf(),
    {
        proof {
            reveal_with_fuel(crate::channel::power_of_two_from, 20);
        }
        Self::new_with_capacity(BROADCAST_CAP)
    }

    /// An empty room whose channel keeps `capacity` events, rounded up to a
    /// power of two.
    pub fn new_with_capacity(capacity: usize) -> (room: Self)
        requires
            0 < capacity <= usize::MAX / 4096,
        ensures
            room@ == empty_room(crate::channel::power_of_two_from(capacity as nat)),
            room@.wf(),
    {
        Room {
            tx: open_channel(capacity),
            clients: HashMap::new(),
            last_vote_broadcast_ms: 0,
            pending_vote_broadcast: None,
            vote_flush_scheduled: false,
        }
    }

    /// A receiver of all that is broadcast from now on.
    pub fn subscribe(&self) -> (rx: Receiver<BroadcastEvent>)
        ensures
            crate::channel::subscribed_after(rx) == self@.events.len(),
    {
        subscribe_to(&self.tx)
    }

    /// Lets participant `id` in, tells everybody, and returns how many
    /// participants there are now.
    pub fn join(&mut self, id: u64) -> (count: u64)
        ensures
            final(self)@ == old(self)@.joined(id),
            count == final(self)@.clients.len(),
            old(self)@.wf() ==> final(self)@.wf(),
    {
        self.clients.insert(id, ClientMeta { id, name: None });
        let count: u64 = self.clients.len() as u64;
        self.broadcast(ServerMsg::Presence { id, joined: true });
        count
    }

    /// Takes participant `id` off the list, and tells everybody.
    pub fn leave(&mut self, id: u64)
        ensures
            final(self)@ == old(self)@.left(id),
            old(self)@.wf() ==> final(self)@.wf(),
    {
        self.clients.remove(&id);
        self.broadcast(ServerMsg::Presence { id, joined: false });
    }

    /// How many participants there are.
    pub fn client_count(&self) -> (count: usize)
        ensures
            count == self@.clients.len(),
    {
        self.clients.len()
    }

    /// What the room knows of participant `id`.
    pub fn client(&self, id: u64) -> (meta: Option<&ClientMeta>)
        ensures
            meta is Some == self@.clients.contains_key(id),
            meta matches Some(m) ==> *m == self@.clients[id],
    {
        self.clients.get(&id)
    }

    /// Sets the nickname of participant `id`, if there is one by that id.
    pub fn set_nick(&mut self, id: u64, name: String)
        ensures
            final(self)@ == old(self)@.named(id, name),
            old(self)@.wf() ==> final(self)@.wf(),
    {
        let known: Option<u64> = match self.clients.get(&id) {
            Some(meta) => Some(meta.id),
            None => None,
        };
        if let Some(own) = known {
            self.clients.insert(id, ClientMeta { id: own, name: Some(name) });
        }
    }

    /// Broadcasts a message to everybody.
    pub fn broadcast(&mut self, msg: ServerMsg)
        ensures
            final(self)@ == old(self)@.with_event(BroadcastEvent::Server(msg)),
    {
        hand_over(&mut self.tx, BroadcastEvent::Server(msg));
    }

    /// Tells everybody that the server is going down.
    pub fn shutdown(&mut self)
        ensures
            final(self)@ == old(self)@.with_event(BroadcastEvent::Shutdown),
    {
        hand_over(&mut self.tx, BroadcastEvent::Shutdown);
    }

    /// Submits a state of the vote at `now_ms`. It is broadcast at once if the
    /// last one is long enough ago and no flush is on its way; else it waits for
    /// the flush, in place of one that waits already. Where `Some(delay)` comes back, the caller is to call
    /// `flush_pending_vote_snapshot` after that many milliseconds.
    pub fn broadcast_vote_throttled(&mut self, msg: ServerMsg, now_ms: u64) -> (delay: Option<u64>)
        ensures
            final(self)@ == old(self)@.submitted(msg, now_ms),
            delay == old(self)@.flush_wanted(now_ms),
            old(self)@.wf() ==> final(self)@.wf(),
    {
        let since: u64 = now_ms.saturating_sub(self.last_vote_broadcast_ms);
        if since >= VOTE_BROADCAST_THROTTLE_MS && !self.vote_flush_scheduled {
            self.last_vote_broadcast_ms = now_ms;
            self.broadcast(msg);
            return None;
        }
        self.pending_vote_broadcast = Some(msg);
        self.schedule_vote_flush(now_ms)
    }

    /// Notes that a flush is on its way. Returns after how long it is due,
    /// unless one was on its way already.
    fn schedule_vote_flush(&mut self, now_ms: u64) -> (delay: Option<u64>)
        ensures
            final(self)@ == (RoomView { flush_scheduled: true, ..old(self)@ }),
            delay == if old(self)@.flush_scheduled {
                None
            } else {
                Some(old(self)@.flush_delay(now_ms))
            },
    {
        if self.vote_flush_scheduled {
            return None;
        }
        self.vote_flush_scheduled = true;
        let since: u64 = now_ms.saturating_sub(self.last_vote_broadcast_ms);
        let rest: u64 = VOTE_BROADCAST_THROTTLE_MS.saturating_sub(since);
        Some(if rest > 1 { rest } else { 1 })
    }

    /// Broadcasts the vote that waits, if there is one.
    pub fn flush_pending_vote_snapshot(&mut self, now_ms: u64)
        ensures
            final(self)@ == old(self)@.flushed(now_ms),
            old(self)@.wf() ==> final(self)@.wf(),
    {
        self.vote_flush_scheduled = false;
        let pending = self.pending_vote_broadcast.take();
        if let Some(msg) = pending {
            self.last_vote_broadcast_ms = now_ms;
            self.broadcast(msg);
        }
    }
}

// --------------------------------------------------- laws of the throttling

/// What happens to the votes of a room: a state of the vote is submitted, or
/// the flush comes round.
pub enum VoteOp {
    Submit { msg: ServerMsg, now_ms: u64 },
    Flush { now_ms: u64 },
}

impl VoteOp {
    /// When it happens.
    pub open spec fn time(self) -> u64 {
        match self {
            VoteOp::Submit { msg, now_ms } => now_ms,
            VoteOp::Flush { now_ms } => now_ms,
        }
    }
}

impl RoomView {
    pub open spec fn after(self, op: VoteOp) -> RoomView {
        match op {
            VoteOp::Submit { msg, now_ms } => self.submitted(msg, now_ms),
            VoteOp::Flush { now_ms } => self.flushed(now_ms),
        }
    }

    /// The room after all of `ops`.
    pub open spec fn after_all(self, ops: Seq<VoteOp>) -> RoomView
        decreases ops.len(),
    {
        if ops.len() == 0 {
            self
        } else {
            self.after_all(ops.drop_last()).after(ops.last())
        }
    }

    /// Which of `ops` are the submissions that were broadcast, in the order of
    /// the broadcasts.
    pub open spec fn sent(self, ops: Seq<VoteOp>) -> Seq<int>
        decreases ops.len(),
    {
        if ops.len() == 0 {
            Seq::empty()
        } else {
            let earlier = ops.drop_last();
            let before = self.after_all(earlier);
            match ops.last() {
                VoteOp::Submit { msg, now_ms } => if before.goes_out(now_ms) {
                    self.sent(earlier).push(ops.len() - 1)
                } else {
                    self.sent(earlier)
                },
                VoteOp::Flush { now_ms } => if before.pending is Some {
                    self.sent(earlier).push(last_submission(earlier))
                } else {
                    self.sent(earlier)
                },
            }
        }
    }

    /// When the vote was broadcast: before `ops`, and by each of them that did.
    pub open spec fn stamps(self, ops: Seq<VoteOp>) -> Seq<u64>
        decreases ops.len(),
    {
        if ops.len() == 0 {
            seq![self.last_vote_ms]
        } else {
            let earlier = ops.drop_last();
            let before = self.after_all(earlier);
            let broadcasts = match ops.last() {
                VoteOp::Submit { msg, now_ms } => before.goes_out(now_ms),
                VoteOp::Flush { now_ms } => before.pending is Some,
            };
            if broadcasts {
                self.stamps(earlier).push(ops.last().time())
            } else {
                self.stamps(earlier)
            }
        }
    }

    /// The last of `ops` asks for a flush.
    pub open spec fn asks(self, ops: Seq<VoteOp>) -> bool {
        ops.last() matches VoteOp::Submit { msg, now_ms } && self.after_all(
            ops.drop_last(),
        ).flush_wanted(now_ms) is Some
    }

    /// When the last flush that `ops` asked for is due.
    pub open spec fn flush_due(self, ops: Seq<VoteOp>) -> int
        decreases ops.len(),
    {
        if ops.len() == 0 {
            0
        } else if self.asks(ops) {
            let now_ms = ops.last().time();
            now_ms + self.after_all(ops.drop_last()).flush_wanted(now_ms)->0
        } else {
            self.flush_due(ops.drop_last())
        }
    }

    /// What the clock shows behind `ops`.
    pub open spec fn clock(self, ops: Seq<VoteOp>) -> u64 {
        if ops.len() == 0 {
            self.last_vote_ms
        } else {
            ops.last().time()
        }
    }

    /// The clock never goes back, and a flush comes when one was asked for, and
    /// not before it is due.
    pub open spec fn punctual(self, ops: Seq<VoteOp>) -> bool
        decreases ops.len(),
    {
        ops.len() == 0 || {
            let earlier = ops.drop_last();
            &&& self.punctual(earlier)
            &&& self.clock(earlier) <= ops.last().time()
            &&& ops.last() is Flush ==> self.after_all(earlier).flush_scheduled && self.flush_due(
                earlier,
            ) <= ops.last().time()
        }
    }
}

/// The position of the last submission among `ops`, or -1.
pub open spec fn last_submission(ops: Seq<VoteOp>) -> int
    decreases ops.len(),
{
    if ops.len() == 0 {
        -1
    } else if ops.last() is Submit {
        ops.len() - 1
    } else {
        last_submission(ops.drop_last())
    }
}

/// What is well-formed stays so, whatever happens to the votes.
pub proof fn law_vote_ops_keep_rooms_well_formed(room: RoomView, ops: Seq<VoteOp>)
    requires
        room.wf(),
    ensures
        room.after_all(ops).wf(),
    decreases ops.len(),
{
    if ops.len() > 0 {
        law_vote_ops_keep_rooms_well_formed(room, ops.drop_last());
    }
}

/// What was broadcast once stays broadcast: later operations only add events.
pub proof fn law_events_only_grow(room: RoomView, op: VoteOp)
    ensures
        room.events.len() <= room.after(op).events.len() <= room.events.len() + 1,
        room.after(op).events.take(room.events.len() as int) == room.events,
{
    assert(room.after(op).events.take(room.events.len() as int) =~= room.events);
}

/// The latest state of the vote is never lost: whatever is submitted and
/// flushed, the last submission was broadcast after it came in, or it waits and
/// a flush is on its way.
pub proof fn law_latest_vote_is_never_lost(room: RoomView, ops: Seq<VoteOp>)
    requires
        room.wf(),
        last_submission(ops) >= 0,
    ensures
        ({
            let k = last_submission(ops);
            let end = room.after_all(ops);
            let floor = room.after_all(ops.take(k)).events.len();
            let msg = ops[k]->msg;
            ||| end.pending == Some(msg) && end.flush_scheduled
            ||| exists|j: int|
                floor <= j < end.events.len() && #[trigger] end.events[j]
                    == BroadcastEvent::Server(msg)
        }),
    decreases ops.len(),
{
    let k = last_submission(ops);
    let end = room.after_all(ops);
    let before = room.after_all(ops.drop_last());
    assert(ops.drop_last() == ops.take(ops.len() - 1));
    match ops.last() {
        VoteOp::Submit { msg, now_ms } => {
            if before.goes_out(now_ms) {
                assert(end.events[before.events.len() as int] == BroadcastEvent::Server(msg));
            }
        },
        VoteOp::Flush { now_ms } => {
            law_latest_vote_is_never_lost(room, ops.drop_last());
            law_vote_ops_keep_rooms_well_formed(room, ops.drop_last());
            lemma_last_submission(ops.drop_last());
            assert(ops.drop_last().take(k) == ops.take(k));
            lemma_events_grow_from(room, ops.drop_last(), k);
            let floor = room.after_all(ops.take(k)).events.len();
            let msg = ops[k]->msg;
            if before.pending == Some(msg) {
                assert(end.events[before.events.len() as int] == BroadcastEvent::Server(msg));
            } else {
                let j = choose|j: int|
                    floor <= j < before.events.len() && #[trigger] before.events[j]
                        == BroadcastEvent::Server(msg);
                assert(end.events[j] == BroadcastEvent::Server(msg));
            }
        },
    }
}

proof fn lemma_last_submission(ops: Seq<VoteOp>)
    ensures
        -1 <= last_submission(ops) < ops.len(),
        last_submission(ops) >= 0 ==> ops[last_submission(ops)] is Submit,
    decreases ops.len(),
{
    if ops.len() > 0 {
        lemma_last_submission(ops.drop_last());
    }
}

proof fn lemma_events_grow_from(room: RoomView, ops: Seq<VoteOp>, k: int)
    requires
        0 <= k <= ops.len(),
    ensures
        room.after_all(ops.take(k)).events.len() <= room.after_all(ops).events.len(),
    decreases ops.len(),
{
    if k < ops.len() {
        assert(ops.drop_last().take(k) == ops.take(k));
        lemma_events_grow_from(room, ops.drop_last(), k);
    } else {
        assert(ops.take(k) == ops);
    }
}

/// Whatever was submitted, and whenever: behind a flush the last submission is
/// the last event, and nothing waits any more. Everybody ends up seeing the
/// latest vote, and no older one comes after it.
pub proof fn law_flush_ends_with_the_latest_vote(room: RoomView, ops: Seq<VoteOp>, now_ms: u64)
    requires
        room.wf(),
        room.pending is None,
        last_submission(ops) >= 0,
    ensures
        room.after_all(ops).flushed(now_ms).pending is None,
        room.after_all(ops).flushed(now_ms).events.last() == BroadcastEvent::Server(
            ops[last_submission(ops)]->msg,
        ),
{
    lemma_latest_is_last(room, ops);
}

proof fn lemma_latest_is_last(room: RoomView, ops: Seq<VoteOp>)
    requires
        room.wf(),
        room.pending is None,
    ensures
        ({
            let k = last_submission(ops);
            let end = room.after_all(ops);
            &&& k < 0 ==> end.pending is None
            &&& k >= 0 ==> end.pending == Some(ops[k]->msg) || (end.pending is None
                && end.events.len() > 0 && end.events.last() == BroadcastEvent::Server(
                ops[k]->msg,
            ))
        }),
    decreases ops.len(),
{
    if ops.len() > 0 {
        lemma_latest_is_last(room, ops.drop_last());
        law_vote_ops_keep_rooms_well_formed(room, ops.drop_last());
        lemma_last_submission(ops.drop_last());
    }
}

/// A vote that had to wait is what the next flush broadcasts.
pub proof fn law_deferred_vote_is_flushed(
    room: RoomView,
    msg: ServerMsg,
    now_ms: u64,
    later_ms: u64,
)
    requires
        !room.goes_out(now_ms),
    ensures
        room.submitted(msg, now_ms).events == room.events,
        room.submitted(msg, now_ms).flushed(later_ms).events == room.events.push(
            BroadcastEvent::Server(msg),
        ),
        room.submitted(msg, now_ms).flushed(later_ms).pending is None,
{
}

/// The events are the submissions that were broadcast, each of them once and in
/// the order in which they came in. What waits, if anything does, is the last
/// submission, and it is newer than all of them.
pub proof fn law_votes_are_sent_once_and_in_order(room: RoomView, ops: Seq<VoteOp>)
    requires
        room.pending is None,
    ensures
        ({
            let sent = room.sent(ops);
            let end = room.after_all(ops);
            &&& end.events == room.events + Seq::new(
                sent.len(),
                |i: int| BroadcastEvent::Server(ops[sent[i]]->msg),
            )
            &&& forall|i: int|
                0 <= i < sent.len() ==> 0 <= #[trigger] sent[i] < ops.len() && ops[sent[i]]
                    is Submit
            &&& forall|i: int, j: int|
                0 <= i < j < sent.len() ==> #[trigger] sent[i] < #[trigger] sent[j]
            &&& end.pending matches Some(msg) ==> {
                &&& 0 <= last_submission(ops) < ops.len()
                &&& msg == ops[last_submission(ops)]->msg
                &&& sent.len() > 0 ==> sent.last() < last_submission(ops)
            }
            &&& end.pending is None && last_submission(ops) >= 0 ==> sent.len() > 0 && sent.last()
                == last_submission(ops)
        }),
    decreases ops.len(),
{
    lemma_last_submission(ops);
    let sent = room.sent(ops);
    let end = room.after_all(ops);
    let told = Seq::new(sent.len(), |i: int| BroadcastEvent::Server(ops[sent[i]]->msg));
    if ops.len() == 0 {
        assert(end.events =~= room.events + told);
    } else {
        let earlier = ops.drop_last();
        let was_sent = room.sent(earlier);
        let was_told = Seq::new(
            was_sent.len(),
            |i: int| BroadcastEvent::Server(earlier[was_sent[i]]->msg),
        );
        law_votes_are_sent_once_and_in_order(room, earlier);
        lemma_last_submission(earlier);
        lemma_sent_so_far(room, earlier);
        assert forall|i: int| 0 <= i < was_told.len() implies #[trigger] told[i] == was_told[i] by {
            assert(sent[i] == was_sent[i]);
            assert(ops[was_sent[i]] == earlier[was_sent[i]]);
        }
        assert(end.events =~= room.events + told);
    }
}

/// Nothing newer than the last submission was sent.
proof fn lemma_sent_so_far(room: RoomView, ops: Seq<VoteOp>)
    ensures
        forall|i: int|
            0 <= i < room.sent(ops).len() ==> #[trigger] room.sent(ops)[i] <= last_submission(ops),
    decreases ops.len(),
{
    lemma_last_submission(ops);
    if ops.len() > 0 {
        let was = room.sent(ops.drop_last());
        lemma_sent_so_far(room, ops.drop_last());
        lemma_last_submission(ops.drop_last());
        assert forall|i: int| 0 <= i < room.sent(ops).len() implies #[trigger] room.sent(ops)[i]
            <= last_submission(ops) by {
            if i < was.len() {
                assert(room.sent(ops)[i] == was[i]);
            }
        }
    }
}

/// A vote that had to wait, and behind which another came in before the flush,
/// is not sent at all.
pub proof fn law_superseded_votes_are_not_sent(room: RoomView, ops: Seq<VoteOp>, i: int, j: int)
    requires
        0 <= i < j < ops.len(),
        ops[i] matches VoteOp::Submit { msg, now_ms } && !room.after_all(ops.take(i)).goes_out(
            now_ms,
        ),
        forall|k: int| i < k <= j ==> #[trigger] ops[k] is Submit,
    ensures
        !room.sent(ops).contains(i),
    decreases ops.len(),
{
    let n = ops.len() - 1;
    let earlier = ops.drop_last();
    assert(earlier == ops.take(n));
    lemma_last_submission(earlier);
    if n == j {
        lemma_deferred_is_not_sent_yet(room, ops, i);
    } else {
        assert(earlier.take(i) == ops.take(i));
        assert forall|k: int| i < k <= j implies #[trigger] earlier[k] is Submit by {
            assert(ops[k] is Submit);
        }
        law_superseded_votes_are_not_sent(room, earlier, i, j);
        lemma_last_submission_is_late(earlier, j);
    }
    assert forall|m: int| 0 <= m < room.sent(ops).len() implies #[trigger] room.sent(ops)[m]
        != i by {
        let was = room.sent(earlier);
        if n > j && m < was.len() {
            assert(was.contains(was[m]));
            assert(room.sent(ops)[m] == was[m]);
        } else if n == j {
            assert(room.sent(ops).contains(room.sent(ops)[m]));
        }
    }
}

/// As long as only submissions followed a vote that had to wait, it is not sent.
proof fn lemma_deferred_is_not_sent_yet(room: RoomView, ops: Seq<VoteOp>, i: int)
    requires
        0 <= i < ops.len(),
        ops[i] matches VoteOp::Submit { msg, now_ms } && !room.after_all(ops.take(i)).goes_out(
            now_ms,
        ),
        forall|k: int| i < k < ops.len() ==> #[trigger] ops[k] is Submit,
    ensures
        !room.sent(ops).contains(i),
    decreases ops.len(),
{
    let n = ops.len() - 1;
    let earlier = ops.drop_last();
    assert(earlier == ops.take(n));
    let was = room.sent(earlier);
    if n == i {
        lemma_sent_so_far(room, earlier);
        lemma_last_submission(earlier);
        assert(room.sent(ops) == was);
    } else {
        assert(earlier.take(i) == ops.take(i));
        assert forall|k: int| i < k < earlier.len() implies #[trigger] earlier[k] is Submit by {
            assert(ops[k] is Submit);
        }
        lemma_deferred_is_not_sent_yet(room, earlier, i);
        assert(ops[n] is Submit);
        assert forall|m: int| 0 <= m < room.sent(ops).len() implies #[trigger] room.sent(ops)[m]
            != i by {
            if m < was.len() {
                assert(was.contains(was[m]));
                assert(room.sent(ops)[m] == was[m]);
            }
        }
    }
}

proof fn lemma_last_submission_is_late(ops: Seq<VoteOp>, j: int)
    requires
        0 <= j < ops.len(),
        ops[j] is Submit,
    ensures
        last_submission(ops) >= j,
    decreases ops.len(),
{
    if j < ops.len() - 1 {
        assert(ops.drop_last()[j] == ops[j]);
        lemma_last_submission_is_late(ops.drop_last(), j);
    }
}

/// Whatever is submitted within the throttling interval of the last broadcast,
/// be that direct or flushed, is not broadcast at once.
pub proof fn law_direct_broadcasts_keep_their_distance(
    room: RoomView,
    ops: Seq<VoteOp>,
    msg: ServerMsg,
    now_ms: u64,
)
    ensures
        room.stamps(ops).len() > 0,
        room.stamps(ops).last() == room.after_all(ops).last_vote_ms,
        now_ms < room.stamps(ops).last() + VOTE_BROADCAST_THROTTLE_MS ==> room.after_all(
            ops,
        ).submitted(msg, now_ms).events == room.after_all(ops).events,
    decreases ops.len(),
{
    if ops.len() > 0 {
        law_direct_broadcasts_keep_their_distance(room, ops.drop_last(), msg, now_ms);
    }
}

/// A punctual flush comes no sooner than the throttling interval behind the last
/// broadcast.
pub proof fn law_flushes_keep_their_distance(room: RoomView, ops: Seq<VoteOp>, now_ms: u64)
    requires
        !room.flush_scheduled,
        room.punctual(ops.push(VoteOp::Flush { now_ms })),
    ensures
        room.stamps(ops).len() > 0,
        now_ms >= room.stamps(ops).last() + VOTE_BROADCAST_THROTTLE_MS,
{
    assert(ops.push(VoteOp::Flush { now_ms }).drop_last() == ops);
    lemma_spread(room, ops);
}

/// The vote is broadcast at most once in the throttling interval: as long as the
/// clock does not go back and the flushes are punctual, any two broadcasts of it,
/// direct or flushed, are at least that far apart.
pub proof fn law_vote_broadcasts_are_spread_out(room: RoomView, ops: Seq<VoteOp>)
    requires
        !room.flush_scheduled,
        room.punctual(ops),
    ensures
        forall|i: int, j: int|
            0 <= i < j < room.stamps(ops).len() ==> #[trigger] room.stamps(ops)[j]
                >= #[trigger] room.stamps(ops)[i] + VOTE_BROADCAST_THROTTLE_MS,
{
    lemma_spread(room, ops);
}

proof fn lemma_spread(room: RoomView, ops: Seq<VoteOp>)
    requires
        !room.flush_scheduled,
        room.punctual(ops),
    ensures
        ({
            let stamps = room.stamps(ops);
            let end = room.after_all(ops);
            &&& stamps.len() > 0
            &&& stamps.last() == end.last_vote_ms <= room.clock(ops)
            &&& forall|i: int, j: int|
                0 <= i < j < stamps.len() ==> #[trigger] stamps[j] >= #[trigger] stamps[i]
                    + VOTE_BROADCAST_THROTTLE_MS
            &&& end.flush_scheduled ==> room.flush_due(ops) >= stamps.last()
                + VOTE_BROADCAST_THROTTLE_MS
        }),
    decreases ops.len(),
{
    if ops.len() > 0 {
        lemma_spread(room, ops.drop_last());
    }
}

/// A flush is asked for no earlier than the throttling interval ends, and at
/// most one interval away.
pub proof fn law_flush_waits_out_the_interval(room: RoomView, now_ms: u64)
    requires
        room.last_vote_ms <= now_ms,
        room.flush_wanted(now_ms) is Some,
    ensures
        now_ms + room.flush_wanted(now_ms)->0 - room.last_vote_ms >= VOTE_BROADCAST_THROTTLE_MS,
        1 <= room.flush_wanted(now_ms)->0 <= VOTE_BROADCAST_THROTTLE_MS,
{
}

/// While a vote waits, no second flush is asked for.
pub proof fn law_one_flush_at_a_time(
    room: RoomView,
    msg: ServerMsg,
    now_ms: u64,
    later_ms: u64,
)
    requires
        !room.goes_out(now_ms),
    ensures
        room.submitted(msg, now_ms).flush_wanted(later_ms) is None,
{
}

/// A room keeps at least as many events as it is made for, and fewer than twice
/// as many.
pub proof fn law_rooms_keep_what_they_are_made_for(capacity: nat)
    requires
        capacity > 0,
    ensures
        capacity <= crate::channel::power_of_two_from(capacity) < 2 * capacity,
    decreases capacity,
{
    if capacity > 1 {
        law_rooms_keep_what_they_are_made_for((capacity + 1) / 2);
    }
}

/// Whoever joins and leaves again is gone; all others are as they were.
pub proof fn law_leaving_undoes_joining(room: RoomView, id: u64)
    requires
        !room.clients.contains_key(id),
    ensures
        room.joined(id).left(id).clients == room.clients,
{
    assert(room.clients.insert(id, ClientMeta { id, name: None }).remove(id) =~= room.clients);
}

/// Who joins is listed without a nickname, and everybody is told of just that.
/// All others, and the vote, are as they were.
pub proof fn law_joining_lists_the_newcomer(room: RoomView, id: u64, other: u64)
    ensures
        ({
            let after = room.joined(id);
            &&& after.clients.contains_key(id)
            &&& after.clients[id].id == id
            &&& after.clients[id].name is None
            &&& other != id ==> after.clients.contains_key(other) == room.clients.contains_key(
                other,
            ) && after.clients[other] == room.clients[other]
            &&& after.events == room.events.push(
                BroadcastEvent::Server(ServerMsg::Presence { id, joined: true }),
            )
            &&& after.pending == room.pending
            &&& after.flush_scheduled == room.flush_scheduled
            &&& after.last_vote_ms == room.last_vote_ms
            &&& after.kept == room.kept
        }),
{
}

/// Who leaves is no longer listed, and everybody is told of just that. All others,
/// and the vote, are as they were.
pub proof fn law_leaving_unlists_the_leaver(room: RoomView, id: u64, other: u64)
    ensures
        ({
            let after = room.left(id);
            &&& !after.clients.contains_key(id)
            &&& other != id ==> after.clients.contains_key(other) == room.clients.contains_key(
                other,
            ) && (room.clients.contains_key(other) ==> after.clients[other] == room.clients[other])
            &&& after.events == room.events.push(
                BroadcastEvent::Server(ServerMsg::Presence { id, joined: false }),
            )
            &&& after.pending == room.pending
            &&& after.flush_scheduled == room.flush_scheduled
            &&& after.last_vote_ms == room.last_vote_ms
            &&& after.kept == room.kept
        }),
{
}

/// The latest nickname is the one that is listed, whatever it was before. Nobody
/// else's changes, nobody is told, and who is not in the room gets none.
pub proof fn law_latest_nickname_is_listed(room: RoomView, id: u64, name: String, other: u64)
    ensures
        ({
            let after = room.named(id, name);
            &&& after.clients.dom() == room.clients.dom()
            &&& room.clients.contains_key(id) ==> after.clients[id].name == Some(name)
                && after.clients[id].id == room.clients[id].id
            &&& other != id ==> after.clients[other] == room.clients[other]
            &&& after.events == room.events
            &&& after.pending == room.pending
            &&& after.flush_scheduled == room.flush_scheduled
            &&& after.last_vote_ms == room.last_vote_ms
            &&& after.kept == room.kept
        }),
{
    assert(room.named(id, name).clients.dom() =~= room.clients.dom());
}

/// A state of the vote goes out at once exactly where fifty milliseconds have
/// passed since the last one and no flush is on its way. Else it waits, and the
/// flush that it asks for, if none is on its way, is due when the fifty
/// milliseconds are over, and in one millisecond at the earliest.
pub proof fn law_votes_go_out_as_soon_as_they_may(room: RoomView, msg: ServerMsg, now_ms: u64)
    requires
        room.last_vote_ms <= now_ms,
    ensures
        ({
            let after = room.submitted(msg, now_ms);
            let wanted = room.flush_wanted(now_ms);
            &&& after.clients == room.clients
            &&& after.kept == room.kept
            &&& now_ms - room.last_vote_ms >= 50 && !room.flush_scheduled ==> {
                &&& after.events == room.events.push(BroadcastEvent::Server(msg))
                &&& after.last_vote_ms == now_ms
                &&& after.pending == room.pending
                &&& !after.flush_scheduled
                &&& wanted is None
            }
            &&& now_ms - room.last_vote_ms < 50 || room.flush_scheduled ==> {
                &&& after.events == room.events
                &&& after.last_vote_ms == room.last_vote_ms
                &&& after.pending == Some(msg)
                &&& after.flush_scheduled
                &&& room.flush_scheduled ==> wanted is None
                &&& !room.flush_scheduled ==> wanted is Some && now_ms + wanted->0
                    == room.last_vote_ms + 50
            }
        }),
{
}

/// A vote that is submitted by a clock that went back waits, for fifty
/// milliseconds at most.
pub proof fn law_votes_survive_a_clock_that_goes_back(room: RoomView, msg: ServerMsg, now_ms: u64)
    requires
        now_ms < room.last_vote_ms,
    ensures
        room.submitted(msg, now_ms).pending == Some(msg),
        room.submitted(msg, now_ms).flush_scheduled,
        room.submitted(msg, now_ms).events == room.events,
        room.flush_wanted(now_ms) == if room.flush_scheduled {
            None
        } else {
            Some(50u64)
        },
{
}

/// A flush sends what waits, and nothing where nothing waits; after it nothing
/// waits and no flush is on its way.
pub proof fn law_a_flush_sends_what_waits(room: RoomView, now_ms: u64)
    ensures
        ({
            let after = room.flushed(now_ms);
            &&& after.pending is None
            &&& !after.flush_scheduled
            &&& after.clients == room.clients
            &&& after.kept == room.kept
            &&& room.pending matches Some(msg) ==> after.events == room.events.push(
                BroadcastEvent::Server(msg),
            ) && after.last_vote_ms == now_ms
            &&& room.pending is None ==> after.events == room.events && after.last_vote_ms
                == room.last_vote_ms
        }),
{
}

/// A new room is empty: nobody is in it, nothing was broadcast, nothing waits.
pub proof fn law_new_rooms_are_empty(kept: nat, id: u64)
    ensures
        !empty_room(kept).clients.contains_key(id),
        empty_room(kept).clients.len() == 0,
        empty_room(kept).events.len() == 0,
        empty_room(kept).pending is None,
        !empty_room(kept).flush_scheduled,
        empty_room(kept).last_vote_ms == 0,
        empty_room(kept).kept == kept,
{
}

/// What a room keeps is a power of two, and its half would not do.
pub proof fn law_rooms_keep_a_power_of_two(capacity: nat)
    ensures
        exists|k: nat|
            crate::channel::power_of_two_from(capacity)
                == #[trigger] vstd::arithmetic::power2::pow2(k),
        capacity > 1 ==> crate::channel::power_of_two_from(capacity) / 2 < capacity,
    decreases capacity,
{
    if capacity <= 1 {
        vstd::arithmetic::power2::lemma2_to64();
        assert(crate::channel::power_of_two_from(capacity) == vstd::arithmetic::power2::pow2(0));
    } else {
        let half = (capacity + 1) / 2;
        law_rooms_keep_a_power_of_two(half);
        law_rooms_keep_what_they_are_made_for(capacity);
        let k = choose|k: nat|
            crate::channel::power_of_two_from(half) == #[trigger] vstd::arithmetic::power2::pow2(k);
        vstd::arithmetic::power2::lemma_pow2_unfold(k + 1);
        assert(crate::channel::power_of_two_from(capacity) == vstd::arithmetic::power2::pow2(
            k + 1,
        ));
    }
}

} // verus!
