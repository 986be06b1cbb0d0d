use rust_chat::bot::echo::{chat_message, echo_target, EchoCounter};
use rust_chat::client::{after_write, write_step, Received, Session, WriteStep};
use rust_chat::metrics::{Metrics, MetricsSnapshot, Reporter};
use rust_chat::protocol::{BroadcastEvent, ClientMsg, ServerMsg};
use rust_chat::ratelimit::{TokenBucket, TOKEN, TOKEN_CAPACITY};
use rust_chat::room::Room;
use rust_chat::server::{Admission, Doorkeeper, MAX_CONNECTIONS};
use rust_chat::vote::VoteBoard;

struct Hall {
    room: Room,
    vote: VoteBoard,
    metrics: Metrics,
}

impl Hall {
    fn new() -> Hall {
        Hall { room: Room::new(), vote: VoteBoard::new(), metrics: Metrics::new() }
    }

    fn tell(&mut self, session: &mut Session, msg: ClientMsg, now_ms: u64) -> Option<u64> {
        session.on_message(msg, now_ms, 0, &mut self.room, &mut self.vote, &mut self.metrics)
    }
}

fn say(text: &str) -> ClientMsg {
    ClientMsg::Chat { text: text.to_string(), client_ts: 77 }
}

#[test]
fn newcomers_are_welcomed_and_announced() {
    let mut hall = Hall::new();
    let (_first, _rx, welcome) = Session::open(1, &mut hall.room);
    assert_eq!(welcome, ServerMsg::Welcome { peer_count: 1 });
    let (_second, mut rx, welcome) = Session::open(2, &mut hall.room);
    assert_eq!(welcome, ServerMsg::Welcome { peer_count: 2 });
    assert_eq!(
        rx.try_recv().unwrap(),
        BroadcastEvent::Server(ServerMsg::Presence { id: 2, joined: true })
    );
    assert!(rx.try_recv().is_err());
}

#[test]
fn chat_carries_nickname_and_both_clocks() {
    let mut hall = Hall::new();
    let (mut session, mut rx, _) = Session::open(5, &mut hall.room);
    rx.try_recv().unwrap();
    assert_eq!(hall.tell(&mut session, say("hi"), 1000), None);
    assert_eq!(
        hall.tell(&mut session, ClientMsg::SetNick { name: "다섯".to_string() }, 1001),
        None
    );
    assert_eq!(hall.tell(&mut session, say("again"), 1002), None);
    assert_eq!(hall.room.client(5).unwrap().name, Some("다섯".to_string()));
    assert_eq!(
        rx.try_recv().unwrap(),
        BroadcastEvent::Server(ServerMsg::Chat {
            from: 5,
            nick: None,
            text: "hi".to_string(),
            sent_at: 1000,
            client_ts: 77
        })
    );
    assert_eq!(
        rx.try_recv().unwrap(),
        BroadcastEvent::Server(ServerMsg::Chat {
            from: 5,
            nick: Some("다섯".to_string()),
            text: "again".to_string(),
            sent_at: 1002,
            client_ts: 77
        })
    );
    assert_eq!(hall.metrics.snapshot().recv, 3);
}

#[test]
fn votes_change_counters_and_are_throttled() {
    let mut hall = Hall::new();
    let (mut session, mut rx, _) = Session::open(1, &mut hall.room);
    rx.try_recv().unwrap();
    assert_eq!(hall.tell(&mut session, ClientMsg::Vote { option: 2 }, 1000), None);
    assert_eq!(hall.vote.snapshot(), [0, 0, 1, 0]);
    assert_eq!(hall.tell(&mut session, ClientMsg::Vote { option: 0 }, 1010), Some(40));
    assert_eq!(hall.vote.snapshot(), [1, 0, 0, 0]);
    assert_eq!(hall.tell(&mut session, ClientMsg::Vote { option: 0 }, 1011), None);
    assert_eq!(hall.vote.snapshot(), [1, 0, 0, 0]);
    assert_eq!(hall.tell(&mut session, ClientMsg::Unvote, 1012), None);
    assert_eq!(hall.vote.snapshot(), [0, 0, 0, 0]);
    assert_eq!(session.current_vote, None);
    hall.room.flush_pending_vote_snapshot(1050);
    let mut counts = vec![];
    while let Ok(BroadcastEvent::Server(ServerMsg::VoteSnapshot { counts: c, .. })) = rx.try_recv()
    {
        counts.push(c);
    }
    assert_eq!(counts, vec![[0, 0, 1, 0], [0, 0, 0, 0]]);
}

#[test]
fn who_leaves_takes_the_vote_along() {
    let mut hall = Hall::new();
    let (mut a, mut rx, _) = Session::open(1, &mut hall.room);
    let (mut b, _rx, _) = Session::open(2, &mut hall.room);
    hall.tell(&mut a, ClientMsg::Vote { option: 1 }, 1000);
    hall.tell(&mut b, ClientMsg::Vote { option: 1 }, 2000);
    assert_eq!(hall.vote.snapshot(), [0, 2, 0, 0]);
    assert_eq!(b.close(3000, &mut hall.room, &mut hall.vote), None);
    assert_eq!(hall.vote.snapshot(), [0, 1, 0, 0]);
    assert_eq!(hall.room.client_count(), 1);
    let mut events = vec![];
    while let Ok(event) = rx.try_recv() {
        events.push(event);
    }
    assert!(matches!(
        events[events.len() - 2],
        BroadcastEvent::Server(ServerMsg::VoteSnapshot { counts: [0, 1, 0, 0], .. })
    ));
    assert_eq!(
        events[events.len() - 1],
        BroadcastEvent::Server(ServerMsg::Presence { id: 2, joined: false })
    );
}

#[test]
fn who_never_voted_leaves_the_counters_alone() {
    let mut hall = Hall::new();
    let (a, mut rx, _) = Session::open(1, &mut hall.room);
    assert_eq!(a.close(3000, &mut hall.room, &mut hall.vote), None);
    assert_eq!(rx.len(), 2);
    rx.try_recv().unwrap();
    assert_eq!(
        rx.try_recv().unwrap(),
        BroadcastEvent::Server(ServerMsg::Presence { id: 1, joined: false })
    );
}

#[test]
fn limited_sessions_drop_what_is_too_much() {
    let mut hall = Hall::new();
    let (session, mut rx, _) = Session::open(1, &mut hall.room);
    let mut session = session.with_rate_limit();
    rx.try_recv().unwrap();
    for _ in 0..15 {
        hall.tell(&mut session, say("spam"), 1000);
    }
    assert_eq!(rx.len(), 10);
}

#[test]
fn lines_that_are_no_messages_are_passed_over() {
    let mut hall = Hall::new();
    let (session, mut rx, _) = Session::open(1, &mut hall.room);
    let mut session = session.with_rate_limit();
    rx.try_recv().unwrap();
    let ms = 1_000_000;
    let script = [
        (Some(say("one")), 5 * ms),
        (None, 6 * ms),
        (Some(ClientMsg::Vote { option: 1 }), 50 * ms),
        (None, 90 * ms),
        (None, 91 * ms),
        (Some(say("two")), 100 * ms),
    ];
    let mut levels = vec![];
    for (msg, at_ns) in script {
        let bad = msg.is_none();
        let before = (hall.metrics.snapshot(), rx.len(), session.last_ns);
        let delay = session.on_line(
            msg,
            1000,
            at_ns,
            &mut hall.room,
            &mut hall.vote,
            &mut hall.metrics,
        );
        if bad {
            assert_eq!(delay, None);
            assert_eq!((hall.metrics.snapshot(), rx.len(), session.last_ns), before);
        }
        levels.push(session.limiter.unwrap().level);
    }
    assert_eq!(hall.metrics.snapshot().recv, 3);
    assert_eq!(rx.len(), 3);
    assert_eq!(hall.vote.snapshot(), [0, 1, 0, 0]);
    // Ten tokens a second, one for each message: 45 ms and 50 ms of refill.
    assert_eq!(
        levels,
        vec![
            9_000_000_000,
            9_000_000_000,
            8_450_000_000,
            8_450_000_000,
            8_450_000_000,
            7_950_000_000
        ]
    );
}

#[test]
fn the_last_voter_to_leave_is_announced() {
    let mut hall = Hall::new();
    let (_watcher, mut rx, _) = Session::open(1, &mut hall.room);
    let (mut voter, _rx, _) = Session::open(2, &mut hall.room);
    hall.tell(&mut voter, ClientMsg::Vote { option: 3 }, 1000);
    assert_eq!(voter.close(1001, &mut hall.room, &mut hall.vote), Some(49));
    hall.room.flush_pending_vote_snapshot(1050);
    let mut last = None;
    while let Ok(event) = rx.try_recv() {
        if let BroadcastEvent::Server(ServerMsg::VoteSnapshot { counts, .. }) = event {
            last = Some(counts);
        }
    }
    assert_eq!(last, Some([0, 0, 0, 0]));
}

#[test]
fn ordinary_sessions_are_not_limited() {
    let mut hall = Hall::new();
    let (mut session, mut rx, _) = Session::open(1, &mut hall.room);
    rx.try_recv().unwrap();
    for _ in 0..1000 {
        hall.tell(&mut session, say("spam"), 1000);
    }
    assert_eq!(rx.len(), 1000);
}

#[test]
fn the_writer_passes_on_or_stops() {
    let msg = ServerMsg::Error { msg: "x".to_string() };
    assert!(matches!(
        write_step(Received::Event(BroadcastEvent::Server(msg.clone()))),
        WriteStep::Send(m) if m == msg
    ));
    assert!(matches!(write_step(Received::Lagged(3)), WriteStep::Skip));
    assert!(matches!(write_step(Received::Event(BroadcastEvent::Shutdown)), WriteStep::Stop));
    assert!(matches!(write_step(Received::Closed), WriteStep::Stop));
}

#[test]
fn lines_that_were_written_are_counted() {
    let mut hall = Hall::new();
    let (mut session, _rx, _) = Session::open(1, &mut hall.room);
    hall.tell(&mut session, say("hi"), 1000);
    assert_eq!(hall.metrics.snapshot(), MetricsSnapshot { recv: 1, sent: 0 });
    assert!(after_write(true, &mut hall.metrics));
    assert!(after_write(true, &mut hall.metrics));
    assert!(!after_write(false, &mut hall.metrics));
    assert_eq!(hall.metrics.snapshot(), MetricsSnapshot { recv: 1, sent: 2 });
}

fn stress(bots: u64, msgs: usize) {
    let mut hall = Hall::new();
    let mut sessions = vec![];
    for id in 0..bots {
        let (session, rx, _) = Session::open(id, &mut hall.room);
        sessions.push((session, rx));
    }
    for seq in 0..msgs {
        for id in 0..bots {
            let mut session = sessions.remove(0);
            hall.tell(&mut session.0, chat_message(id, seq, 0), 1000);
            sessions.push(session);
        }
    }
    let mut received: u64 = 0;
    for (session, mut rx) in sessions {
        let mut counter = EchoCounter::new(echo_target(session.id), msgs as u64);
        let mut chats: usize = 0;
        while let Ok(BroadcastEvent::Server(msg)) = rx.try_recv() {
            if let ServerMsg::Chat { from, text, .. } = msg {
                chats += 1;
                if from == session.id {
                    assert!(counter.on_line(&text));
                }
            }
        }
        assert_eq!(chats, bots as usize * msgs);
        assert!(counter.is_complete());
        received += counter.received();
    }
    assert_eq!(received, bots * msgs as u64);
    assert_eq!(hall.metrics.snapshot().recv, bots * msgs as u64);
}

#[test]
fn a_hundred_bots_lose_nothing() {
    stress(100, 10);
}

#[test]
fn three_hundred_bots_lose_nothing() {
    stress(300, 10);
}

#[test]
fn the_doorkeeper_lets_five_hundred_in() {
    let mut door = Doorkeeper::new();
    for id in 1..=MAX_CONNECTIONS as u64 {
        assert_eq!(door.accept(), Admission::Accept { id });
    }
    let refused = Admission::Refuse {
        msg: ServerMsg::Error { msg: "서버가 가득 찼습니다 (최대 500인)".to_string() },
    };
    assert_eq!(door.accept(), refused);
    assert_eq!(door.accept(), refused);
    door.release();
    assert_eq!(door.accept(), Admission::Accept { id: 501 });
    assert_eq!(door.accept(), refused);
}

#[test]
fn tokens_come_back_with_time() {
    let mut bucket = TokenBucket::new();
    assert_eq!(bucket.level, TOKEN_CAPACITY);
    for _ in 0..10 {
        assert!(bucket.take(0));
    }
    assert!(!bucket.take(0));
    assert!(!bucket.take(99_999_999));
    assert!(bucket.take(1));
    assert_eq!(bucket.level, 0);
    assert!(bucket.take(u64::MAX));
    assert_eq!(bucket.level, TOKEN_CAPACITY - TOKEN);
}

#[test]
fn traffic_is_counted_and_reported() {
    let mut metrics = Metrics::new();
    assert_eq!(metrics.snapshot(), MetricsSnapshot { recv: 0, sent: 0 });
    metrics.record_recv();
    metrics.record_recv();
    metrics.record_sent();
    assert_eq!(metrics.snapshot(), MetricsSnapshot { recv: 2, sent: 1 });
    let mut reporter = Reporter::new();
    let first = reporter.tick(metrics.snapshot(), 3 * 1024 * 1024 - 1);
    assert_eq!((first.recv_delta, first.sent_delta, first.mem_mb), (2, 1, 2));
    metrics.record_sent();
    let second = reporter.tick(metrics.snapshot(), 0);
    assert_eq!((second.recv, second.sent), (2, 2));
    assert_eq!((second.recv_delta, second.sent_delta), (0, 1));
    let back = reporter.tick(MetricsSnapshot { recv: 0, sent: 0 }, 0);
    assert_eq!((back.recv_delta, back.sent_delta), (0, 0));
}
