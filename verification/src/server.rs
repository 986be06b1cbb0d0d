//! Who is let in.
use vstd::prelude::*;

use crate::protocol::ServerMsg;

verus! {

/// How many clients may be connected at a time.
pub const MAX_CONNECTIONS: usize = 500;

/// What the answer to a connection is.
#[derive(Debug, Clone, PartialEq, Eq)]
pub enum Admission {
    /// The client is let in under this id.
    Accept { id: u64 },
    /// The server is full; the client is told so and turned away.
    Refuse { msg: ServerMsg },
}

/// What a client that is turned away is told.
pub open spec fn full_text() -> Seq<char> {
    "서버가 가득 찼습니다 (최대 500인)"@
}

/// Gives out the seats of the server. Whoever is accepted has to give the seat
/// back, however the connection ends.
#[derive(Debug)]
pub struct Doorkeeper {
    pub active: usize,
    pub next_id: u64,
}

impl Doorkeeper {
    /// There are never more clients than seats.
    pub open spec fn wf(self) -> bool {
        self.active <= MAX_CONNECTIONS
    }

    /// The doorkeeper behind a connection that it answered.
    pub open spec fn answered(self) -> Doorkeeper {
        if self.active < MAX_CONNECTIONS {
            Doorkeeper {
                active: (self.active + 1) as usize,
                next_id: self.next_id.wrapping_add(1),
            }
        } else {
            self
        }
    }

    /// The doorkeeper behind a seat that was given back.
    pub open spec fn released(self) -> Doorkeeper {
        Doorkeeper { active: (self.active - 1) as usize, ..self }
    }

    /// All seats are free; the first client gets id 1.
    pub fn new() -> (g: Self)
        ensures
            g.wf(),
            g.active == 0,
            g.next_id == 1,
    {
        Doorkeeper { active: 0, next_id: 1 }
    }

    /// Answers a connection: a seat and the next id while there is a free
    /// seat, else a refusal that changes nothing.
    pub fn accept(&mut self) -> (a: Admission)
        requires
            old(self).wf(),
        ensures
            final(self).wf(),
            *final(self) == old(self).answered(),
            old(self).active < MAX_CONNECTIONS ==> a == (Admission::Accept {
                id: old(self).next_id,
            }),
            old(self).active >= MAX_CONNECTIONS ==> {
                &&& a matches Admission::Refuse { msg } && msg matches ServerMsg::Error { msg: text }
                    && text@ == full_text()
            },
    {
        if self.active < MAX_CONNECTIONS {
            let id: u64 = self.next_id;
            self.active = self.active + 1;
            self.next_id = self.next_id.wrapping_add(1);
            Admission::Accept { id }
        } else {
            Admission::Refuse {
                msg: ServerMsg::Error { msg: "서버가 가득 찼습니다 (최대 500인)".to_owned() },
            }
        }
    }

    /// Gives a seat back.
    pub fn release(&mut self)
        requires
            old(self).wf(),
            old(self).active > 0,
        ensures
            final(self).wf(),
            *final(self) == old(self).released(),
    {
        self.active = self.active - 1;
    }
}

// --------------------------------------------------------------------- laws

/// What happens at the door.
pub enum DoorOp {
    Connect,
    Disconnect,
}

impl Doorkeeper {
    pub open spec fn after(self, op: DoorOp) -> Doorkeeper {
        match op {
            DoorOp::Connect => self.answered(),
            DoorOp::Disconnect => self.released(),
        }
    }

    /// The doorkeeper after all of `ops`.
    pub open spec fn after_all(self, ops: Seq<DoorOp>) -> Doorkeeper
        decreases ops.len(),
    {
        if ops.len() == 0 {
            self
        } else {
            self.after_all(ops.drop_last()).after(ops.last())
        }
    }

    /// Only who has a seat gives one back.
    pub open spec fn possible(self, ops: Seq<DoorOp>) -> bool
        decreases ops.len(),
    {
        ops.len() == 0 || {
            &&& self.possible(ops.drop_last())
            &&& ops.last() is Disconnect ==> self.after_all(ops.drop_last()).active > 0
        }
    }

    /// The ids that were given out in the course of `ops`, in order.
    pub open spec fn ids(self, ops: Seq<DoorOp>) -> Seq<u64>
        decreases ops.len(),
    {
        if ops.len() == 0 {
            Seq::empty()
        } else {
            let before = self.after_all(ops.drop_last());
            if ops.last() is Connect && before.active < MAX_CONNECTIONS {
                self.ids(ops.drop_last()).push(before.next_id)
            } else {
                self.ids(ops.drop_last())
            }
        }
    }
}

/// However clients come and go, there are never more of them than seats.
pub proof fn law_seats_are_never_overbooked(door: Doorkeeper, ops: Seq<DoorOp>)
    requires
        door.wf(),
        door.possible(ops),
    ensures
        door.after_all(ops).active <= MAX_CONNECTIONS,
    decreases ops.len(),
{
    if ops.len() > 0 {
        law_seats_are_never_overbooked(door, ops.drop_last());
    }
}

/// No two clients get the same id: the ids go up by one each time.
pub proof fn law_ids_are_unique(door: Doorkeeper, ops: Seq<DoorOp>)
    requires
        door.next_id + ops.len() <= u64::MAX,
    ensures
        forall|i: int|
            0 <= i < door.ids(ops).len() ==> #[trigger] door.ids(ops)[i] == door.next_id + i,
        door.ids(ops).no_duplicates(),
        door.ids(ops).len() <= ops.len(),
        door.after_all(ops).next_id == door.next_id + door.ids(ops).len(),
    decreases ops.len(),
{
    if ops.len() > 0 {
        law_ids_are_unique(door, ops.drop_last());
    }
}

/// A connection takes one seat and one id while there are fewer than five hundred
/// clients, and nothing otherwise. A disconnection gives one seat back and no id.
pub proof fn law_each_client_has_one_seat(door: Doorkeeper)
    requires
        door.wf(),
        door.next_id < u64::MAX,
    ensures
        door.active < 500 ==> door.answered().active == door.active + 1 && door.answered().next_id
            == door.next_id + 1,
        door.active == 500 ==> door.answered() == door,
        door.active <= 500,
        door.active > 0 ==> door.released().active == door.active - 1 && door.released().next_id
            == door.next_id,
{
}

} // verus!
