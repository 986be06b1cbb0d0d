use rust_chat::protocol::{BroadcastEvent, ServerMsg, Share};
use rust_chat::room::Room;
use rust_chat::vote::{shares, VoteBoard};

fn vote_snapshot(counts: [u64; 4]) -> ServerMsg {
    ServerMsg::VoteSnapshot { counts, percentages: shares(&counts) }
}

#[test]
fn throttled_vote_broadcast_flushes_latest_pending_snapshot() {
    let mut room = Room::new_with_capacity(16);
    let mut rx = room.subscribe();

    let now = 1_700_000_000_000;
    assert_eq!(room.broadcast_vote_throttled(vote_snapshot([1, 0, 0, 0]), now), None);
    let first = rx.try_recv().expect("first snapshot timed out");
    assert!(matches!(
        first,
        BroadcastEvent::Server(ServerMsg::VoteSnapshot { counts: [1, 0, 0, 0], .. })
    ));

    let delay = room.broadcast_vote_throttled(vote_snapshot([0, 0, 0, 0]), now + 1).unwrap();
    assert_eq!(delay, 49);
    assert!(rx.try_recv().is_err());
    room.flush_pending_vote_snapshot(now + 1 + delay);
    let flushed = rx.try_recv().expect("pending snapshot timed out");
    assert!(matches!(
        flushed,
        BroadcastEvent::Server(ServerMsg::VoteSnapshot { counts: [0, 0, 0, 0], .. })
    ));
}

#[test]
fn only_the_latest_deferred_vote_is_sent() {
    let mut room = Room::new_with_capacity(16);
    let mut rx = room.subscribe();
    assert_eq!(room.broadcast_vote_throttled(vote_snapshot([1, 0, 0, 0]), 100), None);
    assert_eq!(room.broadcast_vote_throttled(vote_snapshot([2, 0, 0, 0]), 120), Some(30));
    assert_eq!(room.broadcast_vote_throttled(vote_snapshot([3, 0, 0, 0]), 130), None);
    room.flush_pending_vote_snapshot(150);
    room.flush_pending_vote_snapshot(160);
    let mut seen = vec![];
    while let Ok(event) = rx.try_recv() {
        seen.push(event);
    }
    assert_eq!(
        seen,
        vec![
            BroadcastEvent::Server(vote_snapshot([1, 0, 0, 0])),
            BroadcastEvent::Server(vote_snapshot([3, 0, 0, 0])),
        ]
    );
    assert_eq!(room.broadcast_vote_throttled(vote_snapshot([4, 0, 0, 0]), 199), Some(1));
}

#[test]
fn a_free_slot_is_used_at_once() {
    let mut room = Room::new_with_capacity(16);
    let mut rx = room.subscribe();
    assert_eq!(room.broadcast_vote_throttled(vote_snapshot([1, 0, 0, 0]), 100), None);
    assert_eq!(room.broadcast_vote_throttled(vote_snapshot([2, 0, 0, 0]), 150), None);
    assert_eq!(rx.len(), 2);
    rx.try_recv().unwrap();
    assert_eq!(rx.try_recv().unwrap(), BroadcastEvent::Server(vote_snapshot([2, 0, 0, 0])));
    room.flush_pending_vote_snapshot(151);
    assert!(rx.try_recv().is_err());
}

#[test]
fn a_vote_waits_for_a_flush_that_is_on_its_way() {
    let mut room = Room::new_with_capacity(16);
    let mut rx = room.subscribe();
    room.broadcast_vote_throttled(vote_snapshot([1, 0, 0, 0]), 100);
    assert_eq!(room.broadcast_vote_throttled(vote_snapshot([2, 0, 0, 0]), 149), Some(1));
    assert_eq!(room.broadcast_vote_throttled(vote_snapshot([3, 0, 0, 0]), 150), None);
    assert_eq!(rx.len(), 1);
    room.flush_pending_vote_snapshot(150);
    assert_eq!(rx.len(), 2);
    rx.try_recv().unwrap();
    assert_eq!(rx.try_recv().unwrap(), BroadcastEvent::Server(vote_snapshot([3, 0, 0, 0])));
    assert_eq!(room.broadcast_vote_throttled(vote_snapshot([4, 0, 0, 0]), 151), Some(49));
}

#[test]
fn nothing_stale_comes_behind_the_newest_vote() {
    let mut room = Room::new_with_capacity(16);
    let mut rx = room.subscribe();
    assert_eq!(room.broadcast_vote_throttled(vote_snapshot([1, 0, 0, 0]), 1000), None);
    assert_eq!(room.broadcast_vote_throttled(vote_snapshot([0, 1, 0, 0]), 1010), Some(40));
    assert_eq!(room.broadcast_vote_throttled(vote_snapshot([0, 0, 1, 0]), 1060), None);
    room.flush_pending_vote_snapshot(1061);
    let mut seen = vec![];
    while let Ok(event) = rx.try_recv() {
        seen.push(event);
    }
    assert_eq!(
        seen,
        vec![
            BroadcastEvent::Server(vote_snapshot([1, 0, 0, 0])),
            BroadcastEvent::Server(vote_snapshot([0, 0, 1, 0])),
        ]
    );
}

#[test]
fn broadcasts_of_the_vote_keep_their_distance() {
    let mut room = Room::new_with_capacity(16);
    let mut rx = room.subscribe();
    room.broadcast_vote_throttled(vote_snapshot([1, 0, 0, 0]), 1000);
    assert_eq!(room.broadcast_vote_throttled(vote_snapshot([2, 0, 0, 0]), 1010), Some(40));
    assert_eq!(room.broadcast_vote_throttled(vote_snapshot([3, 0, 0, 0]), 1055), None);
    assert_eq!(room.broadcast_vote_throttled(vote_snapshot([4, 0, 0, 0]), 1056), None);
    room.flush_pending_vote_snapshot(1057);
    assert_eq!(rx.len(), 2);
    rx.try_recv().unwrap();
    assert_eq!(rx.try_recv().unwrap(), BroadcastEvent::Server(vote_snapshot([4, 0, 0, 0])));
    assert_eq!(room.broadcast_vote_throttled(vote_snapshot([5, 0, 0, 0]), 1106), Some(1));
    room.flush_pending_vote_snapshot(1107);
    assert_eq!(rx.len(), 1);
}

#[test]
fn a_clock_that_goes_back_defers() {
    let mut room = Room::new_with_capacity(16);
    room.broadcast_vote_throttled(vote_snapshot([1, 0, 0, 0]), 1000);
    assert_eq!(room.broadcast_vote_throttled(vote_snapshot([2, 0, 0, 0]), 10), Some(50));
}

#[test]
fn joining_and_leaving_are_announced() {
    let mut room = Room::new();
    let mut rx = room.subscribe();
    assert_eq!(room.client_count(), 0);
    assert_eq!(room.join(7), 1);
    assert_eq!(room.join(8), 2);
    assert_eq!(room.join(8), 2);
    room.leave(7);
    room.leave(7);
    assert_eq!(room.client_count(), 1);
    let expected = [(7, true), (8, true), (8, true), (7, false), (7, false)];
    for (id, joined) in expected {
        assert_eq!(
            rx.try_recv().unwrap(),
            BroadcastEvent::Server(ServerMsg::Presence { id, joined })
        );
    }
    assert!(rx.try_recv().is_err());
}

#[test]
fn nicknames_are_kept_until_one_leaves() {
    let mut room = Room::new_with_capacity(4);
    room.join(1);
    assert_eq!(room.client(1).unwrap().name, None);
    room.set_nick(1, "하나".to_string());
    assert_eq!(room.client(1).unwrap().id, 1);
    assert_eq!(room.client(1).unwrap().name, Some("하나".to_string()));
    room.set_nick(2, "둘".to_string());
    assert!(room.client(2).is_none());
    room.join(1);
    assert_eq!(room.client(1).unwrap().name, None);
    room.leave(1);
    assert!(room.client(1).is_none());
}

#[test]
fn subscribers_hear_what_comes_after() {
    let mut room = Room::new_with_capacity(4);
    let mut early = room.subscribe();
    room.broadcast(ServerMsg::Error { msg: "one".to_string() });
    let mut late = room.subscribe();
    room.broadcast(ServerMsg::Error { msg: "two".to_string() });
    room.shutdown();
    assert_eq!(early.len(), 3);
    assert_eq!(late.len(), 2);
    assert_eq!(
        early.try_recv().unwrap(),
        BroadcastEvent::Server(ServerMsg::Error { msg: "one".to_string() })
    );
    assert_eq!(
        late.try_recv().unwrap(),
        BroadcastEvent::Server(ServerMsg::Error { msg: "two".to_string() })
    );
    assert_eq!(late.try_recv().unwrap(), BroadcastEvent::Shutdown);
}

#[test]
fn nobody_needs_to_listen() {
    let mut room = Room::new_with_capacity(1);
    room.broadcast(ServerMsg::Error { msg: "lost".to_string() });
    let mut rx = room.subscribe();
    assert!(rx.try_recv().is_err());
    assert_eq!(room.join(3), 1);
    assert!(rx.try_recv().is_ok());
}

#[test]
fn votes_are_counted_and_moved() {
    let mut board = VoteBoard::new();
    assert_eq!(board.snapshot(), [0, 0, 0, 0]);
    board.vote(None, 0);
    board.vote(None, 0);
    board.vote(None, 3);
    assert_eq!(board.snapshot(), [2, 0, 0, 1]);
    board.vote(Some(0), 2);
    assert_eq!(board.snapshot(), [1, 0, 1, 1]);
    board.vote(Some(2), 2);
    assert_eq!(board.snapshot(), [1, 0, 1, 1]);
    board.unvote(3);
    assert_eq!(board.snapshot(), [1, 0, 1, 0]);
}

#[test]
fn options_that_do_not_exist_count_for_nothing() {
    let mut board = VoteBoard::new();
    board.vote(None, 4);
    board.vote(Some(9), usize::MAX);
    board.unvote(4);
    assert_eq!(board.snapshot(), [0, 0, 0, 0]);
}

#[test]
fn negative_counters_show_as_zero() {
    let mut board = VoteBoard::new();
    board.unvote(1);
    assert_eq!(board.snapshot(), [0, 0, 0, 0]);
    board.vote(None, 1);
    assert_eq!(board.snapshot(), [0, 0, 0, 0]);
    board.vote(None, 1);
    assert_eq!(board.snapshot(), [0, 1, 0, 0]);
}

#[test]
fn shares_are_exact() {
    let mut board = VoteBoard::new();
    let (counts, percentages) = board.snapshot_with_percentages();
    assert_eq!(counts, [0; 4]);
    assert_eq!(percentages, [Share { part: 0, whole: 1 }; 4]);
    board.vote(None, 1);
    board.vote(None, 1);
    board.vote(None, 2);
    let (counts, percentages) = board.snapshot_with_percentages();
    assert_eq!(counts, [0, 2, 1, 0]);
    assert_eq!(
        percentages,
        [
            Share { part: 0, whole: 3 },
            Share { part: 2, whole: 3 },
            Share { part: 1, whole: 3 },
            Share { part: 0, whole: 3 },
        ]
    );
    assert_eq!(board.snapshot_message(), ServerMsg::VoteSnapshot { counts, percentages });
}

#[test]
fn shares_of_the_largest_counts_do_not_overflow() {
    let all = shares(&[u64::MAX; 4]);
    assert_eq!(all[3], Share { part: u64::MAX, whole: 4 * (u64::MAX as u128) });
}

#[test]
fn a_channel_keeps_its_capacity_rounded_up() {
    for (capacity, kept) in [(1u64, 1u64), (2, 2), (3, 4), (4, 4), (5, 8)] {
        let mut room = Room::new_with_capacity(capacity as usize);
        let mut rx = room.subscribe();
        for id in 0..kept {
            room.join(id);
        }
        let mut late = room.subscribe();
        for id in 0..kept {
            assert_eq!(
                rx.try_recv().unwrap(),
                BroadcastEvent::Server(ServerMsg::Presence { id, joined: true })
            );
        }
        for id in 0..=kept {
            room.leave(id);
        }
        assert!(late.try_recv().is_err());
        assert_eq!(
            late.try_recv().unwrap(),
            BroadcastEvent::Server(ServerMsg::Presence { id: 1, joined: false })
        );
    }
}
