use rust_chat::bot::connect::{ConnectRetry, ConnectStep, MAX_CONNECT_RETRIES};
use rust_chat::bot::echo::{
    chat_message, echo_target, extract_seq, rtt_sample, EchoCounter, EchoSender, EchoStep,
    BOT_RECV_TIMEOUT_SECS,
};
use rust_chat::bot::fickle::{quitter_vote, quitter_vote_for, FickleBot, FicklePhase, FickleStep};
use rust_chat::bot::random::Dice;
use rust_chat::protocol::{ClientMsg, ServerMsg, Share};

fn chat_line(bot_id: u64, seq: u64) -> String {
    format!(
        "{{\"type\":\"chat\",\"from\":999,\"nick\":null,\"text\":\"bot_{bot_id}_msg_{seq}\",\
         \"sent_at\":1234567890}}"
    )
}

fn count_lines(lines: &[String], target: &str, msg_count: u64) -> u64 {
    let mut counter = EchoCounter::new(target.to_string(), msg_count);
    for line in lines {
        counter.on_line(line);
        if counter.is_complete() {
            break;
        }
    }
    counter.received()
}

#[test]
fn test_bug_condition_recv_task_hangs_on_partial_messages() {
    let msg_count: u64 = 10;
    let actual_available: u64 = 5;
    let bot_id: u64 = 42;
    let target = format!("bot_{bot_id}_msg_");
    let lines: Vec<String> = (0..actual_available).map(|seq| chat_line(bot_id, seq)).collect();
    let received = count_lines(&lines, &target, msg_count);
    assert_eq!(received, actual_available);
    assert_eq!(BOT_RECV_TIMEOUT_SECS, 30);
}

#[test]
fn test_bug_condition_recv_task_hangs_on_zero_messages() {
    let msg_count: u64 = 10;
    let bot_id: u64 = 99;
    let target = format!("bot_{bot_id}_msg_");
    let received = count_lines(&[], &target, msg_count);
    assert_eq!(received, 0, "서버가 메시지를 전혀 보내지 않았으므로 수신 count는 0이어야 합니다.");
}

#[test]
fn echoes_are_counted_up_to_the_last() {
    let mut counter = EchoCounter::new(echo_target(1), 2);
    assert!(counter.fell_short());
    assert!(!counter.on_line("{\"type\":\"presence\",\"id\":1,\"joined\":true}"));
    assert!(counter.on_line(&chat_line(1, 0)));
    assert!(!counter.on_line(&chat_line(2, 0)));
    assert!(!counter.is_complete());
    assert!(counter.on_line(&chat_line(1, 1)));
    assert!(counter.is_complete());
    assert!(!counter.fell_short());
    assert!(!counter.on_line(&chat_line(1, 2)));
    assert_eq!(counter.received(), 2);
}

#[test]
fn the_first_echo_ends_a_wait_for_none() {
    let mut counter = EchoCounter::new(echo_target(1), 0);
    assert!(!counter.is_complete());
    assert!(counter.on_line(&chat_line(1, 0)));
    assert!(counter.is_complete());
    assert_eq!(counter.received(), 1);
}

#[test]
fn messages_carry_their_number_and_time() {
    assert_eq!(echo_target(42), "bot_42_msg_");
    assert_eq!(
        chat_message(42, 7, 1234),
        ClientMsg::Chat { text: "bot_42_msg_7".to_string(), client_ts: 1234 }
    );
}

#[test]
fn all_messages_go_out_in_order() {
    let mut sender = EchoSender::new(42, 2);
    assert_eq!(sender.next(10), EchoStep::Send { msg: chat_message(42, 0, 10) });
    assert_eq!(sender.next(11), EchoStep::Send { msg: chat_message(42, 1, 11) });
    assert_eq!(sender.next(12), EchoStep::Done);
    assert_eq!(sender.next(13), EchoStep::Done);
    assert_eq!(sender.sent_at, vec![10, 11]);
    assert_eq!(rtt_sample(&chat_line(42, 1), &echo_target(42), &sender.sent_at, 31), Some(20));
    assert_eq!(EchoSender::new(42, 0).next(10), EchoStep::Done);
}

#[test]
fn numbers_are_read_back() {
    assert_eq!(extract_seq(&chat_line(42, 17), &echo_target(42)), Some(17));
    assert_eq!(extract_seq(&chat_line(42, 17), &echo_target(4)), None);
    assert_eq!(extract_seq("bot_4_msg_", "bot_4_msg_"), None);
    assert_eq!(extract_seq("bot_4_msg_x1", "bot_4_msg_"), None);
    assert_eq!(extract_seq("한글 bot_4_msg_0012abc", "bot_4_msg_"), Some(12));
    assert_eq!(extract_seq("bot_4_msg_99999999999999999999999", "bot_4_msg_"), None);
}

#[test]
fn bots_do_not_mistake_each_other() {
    let mut counter = EchoCounter::new(echo_target(1), 3);
    assert!(!counter.on_line("bot_11_msg_1"));
    assert!(!counter.on_line("bot_21_msg_1"));
    assert!(counter.on_line("bot_1_msg_1"));
}

#[test]
fn round_trips_are_measured_on_one_clock() {
    let sent = vec![100, 200];
    let target = echo_target(3);
    assert_eq!(rtt_sample(&chat_line(3, 1), &target, &sent, 250), Some(50));
    assert_eq!(rtt_sample(&chat_line(3, 1), &target, &sent, 200), Some(0));
    assert_eq!(rtt_sample(&chat_line(3, 1), &target, &sent, 199), None);
    assert_eq!(rtt_sample(&chat_line(3, 2), &target, &sent, 300), None);
    assert_eq!(rtt_sample("bot_3_msg_", &target, &sent, 300), None);
}

#[test]
fn refused_connections_are_tried_again_eight_times() {
    let mut retry = ConnectRetry::new();
    let mut pauses = vec![];
    loop {
        match retry.after_failure(true, 3) {
            ConnectStep::RetryAfter { ms } => pauses.push(ms),
            ConnectStep::GiveUp => break,
        }
    }
    assert_eq!(pauses, vec![23, 43, 83, 163, 323, 643, 1283, 2563]);
    assert_eq!(pauses.len(), MAX_CONNECT_RETRIES as usize);
    assert_eq!(retry.after_failure(true, 0), ConnectStep::GiveUp);
}

#[test]
fn jitter_stays_below_the_pause() {
    let mut retry = ConnectRetry::new();
    assert_eq!(retry.after_failure(true, 45), ConnectStep::RetryAfter { ms: 25 });
    let mut dice = Dice::new().unwrap();
    let mut retry = ConnectRetry::new();
    match retry.after_failure_with(true, &mut dice) {
        ConnectStep::RetryAfter { ms } => assert!((20..40).contains(&ms)),
        ConnectStep::GiveUp => panic!("gave up at once"),
    }
}

#[test]
fn other_failures_are_final() {
    let mut retry = ConnectRetry::new();
    assert_eq!(retry.after_failure(false, 0), ConnectStep::GiveUp);
}

#[test]
fn dice_stay_below_their_bound() {
    let mut dice = Dice::new().unwrap();
    let mut seen = [false; 4];
    for _ in 0..1000 {
        seen[dice.option()] = true;
        assert!(dice.below(7) < 7);
    }
    assert_eq!(seen, [true; 4]);
    assert_eq!(dice.below(1), 0);
}

#[test]
fn quitters_vote_for_some_option() {
    assert_eq!(quitter_vote_for(3), ClientMsg::Vote { option: 3 });
    match quitter_vote(&mut Dice::new().unwrap()) {
        ClientMsg::Vote { option } => assert!(option < 4),
        other => panic!("{other:?}"),
    }
}

fn script(vote_count: usize, draws: &[usize], leads: bool) -> (Vec<FickleStep>, FickleBot) {
    let mut bot = FickleBot::new(vote_count);
    let mut steps = vec![];
    let mut k = 0;
    loop {
        let step = bot.next(draws[k.min(draws.len() - 1)], leads);
        if bot.phase == FicklePhase::Resting {
            k += 1;
        }
        if step == FickleStep::Done {
            return (steps, bot);
        }
        steps.push(step);
    }
}

#[test]
fn the_leader_votes_again_for_what_it_has() {
    let (steps, bot) = script(2, &[3, 1], true);
    assert_eq!(
        steps,
        vec![
            FickleStep::Vote { option: 3 },
            FickleStep::Wait { ms: 10 },
            FickleStep::Vote { option: 1 },
            FickleStep::Wait { ms: 10 },
            FickleStep::MeetOthers,
            FickleStep::Wait { ms: 500 },
            FickleStep::Vote { option: 1 },
            FickleStep::Wait { ms: 200 },
            FickleStep::Vote { option: 1 },
            FickleStep::Wait { ms: 200 },
            FickleStep::Vote { option: 1 },
            FickleStep::Wait { ms: 200 },
        ]
    );
    assert_eq!(bot.result().last_vote, Some(1));
}

#[test]
fn the_others_wait_as_long() {
    let wait = |steps: &Vec<FickleStep>| -> u64 {
        steps.iter().map(|s| if let FickleStep::Wait { ms } = s { *ms } else { 0 }).sum()
    };
    let (leader, _) = script(3, &[0], true);
    let (other, bot) = script(3, &[0], false);
    assert_eq!(wait(&leader), wait(&other));
    assert_eq!(wait(&other), 30 + 500 + 600);
    assert_eq!(other.iter().filter(|s| matches!(s, FickleStep::Vote { .. })).count(), 3);
    assert_eq!(leader.iter().filter(|s| matches!(s, FickleStep::Vote { .. })).count(), 6);
    assert_eq!(bot.result().last_vote, Some(0));
}

#[test]
fn a_leader_without_a_vote_sends_none() {
    let (steps, bot) = script(0, &[0], true);
    assert_eq!(steps[0], FickleStep::MeetOthers);
    assert!(!steps.iter().any(|s| matches!(s, FickleStep::Vote { .. })));
    assert_eq!(bot.result().last_vote, None);
}

#[test]
fn fickle_bots_draw_their_votes() {
    let mut dice = Dice::new().unwrap();
    let mut bot = FickleBot::new(1);
    match bot.next_with(&mut dice, false) {
        FickleStep::Vote { option } => {
            assert!(option < 4);
            assert_eq!(bot.last_vote, Some(option));
        }
        other => panic!("{other:?}"),
    }
}

#[test]
fn the_last_snapshot_is_kept() {
    let mut bot = FickleBot::new(1);
    let none = Share { part: 0, whole: 0 };
    assert_eq!(bot.result().last_snapshot, None);
    bot.on_message(&ServerMsg::VoteSnapshot { counts: [1, 2, 3, 4], percentages: [none; 4] });
    bot.on_message(&ServerMsg::VoteSnapshot { counts: [0, 0, 1, 0], percentages: [none; 4] });
    bot.on_message(&ServerMsg::Presence { id: 1, joined: true });
    assert_eq!(bot.result().last_snapshot, Some([0, 0, 1, 0]));
}
