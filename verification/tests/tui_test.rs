use rust_chat::protocol::{ClientMsg, ServerMsg, Share};
use rust_chat::tui::{vote_row, AppState, Key, UiAction, MAX_MESSAGES};

fn press(state: &mut AppState, text: &str) -> UiAction {
    for c in text.chars() {
        assert_eq!(state.on_key(Key::Char { c }, false, 0), UiAction::Nothing);
    }
    state.on_key(Key::Enter, false, 42)
}

fn vote(option: usize) -> UiAction {
    UiAction::Send { msg: ClientMsg::Vote { option } }
}

#[test]
fn messages_are_shown_by_kind() {
    let mut state = AppState::new();
    state.on_server_msg(&ServerMsg::Chat {
        from: 3,
        nick: None,
        text: "hi".to_string(),
        sent_at: 0,
        client_ts: 0,
    });
    state.on_server_msg(&ServerMsg::Chat {
        from: 3,
        nick: Some("셋".to_string()),
        text: "hello".to_string(),
        sent_at: 0,
        client_ts: 0,
    });
    state.on_server_msg(&ServerMsg::Presence { id: 4, joined: true });
    state.on_server_msg(&ServerMsg::Presence { id: 4, joined: false });
    state.on_server_msg(&ServerMsg::Error { msg: "full".to_string() });
    assert_eq!(state.messages, vec!["[3] hi", "[셋] hello", "▶ 4 입장", "◀ 4 퇴장", "⚠ full"]);
    let share = Share { part: 0, whole: 0 };
    state.on_server_msg(&ServerMsg::VoteSnapshot { counts: [1, 2, 3, 4], percentages: [share; 4] });
    assert_eq!(state.vote_counts, [1, 2, 3, 4]);
    assert_eq!(state.messages.len(), 5);
}

#[test]
fn heads_are_counted() {
    let mut state = AppState::new();
    state.on_server_msg(&ServerMsg::Presence { id: 1, joined: false });
    assert_eq!(state.client_count, 0);
    state.on_server_msg(&ServerMsg::Presence { id: 1, joined: true });
    assert_eq!(state.client_count, 1);
    state.on_server_msg(&ServerMsg::Welcome { peer_count: 12 });
    assert_eq!(state.client_count, 12);
    state.on_server_msg(&ServerMsg::Presence { id: 99, joined: true });
    assert_eq!(state.client_count, 12);
    state.on_server_msg(&ServerMsg::Presence { id: 100, joined: true });
    assert_eq!(state.client_count, 13);
    state.on_server_msg(&ServerMsg::Presence { id: 5, joined: false });
    assert_eq!(state.client_count, 12);
}

#[test]
fn the_log_keeps_the_latest_two_hundred() {
    let mut state = AppState::new();
    for i in 0..MAX_MESSAGES + 5 {
        state.push_msg(format!("{i}"));
    }
    assert_eq!(state.messages.len(), 200);
    assert_eq!(state.messages[0], "5");
    assert_eq!(state.messages[199], "204");
}

#[test]
fn typing_sends_chat() {
    let mut state = AppState::new();
    let sent = press(&mut state, "  안녕 /vote 1 ");
    assert_eq!(
        sent,
        UiAction::Send {
            msg: ClientMsg::Chat { text: "안녕 /vote 1".to_string(), client_ts: 42 }
        }
    );
    assert_eq!(state.input, "");
    assert_eq!(press(&mut state, "   "), UiAction::Nothing);
    assert_eq!(state.input, "");
}

#[test]
fn typing_votes() {
    let mut state = AppState::new();
    assert_eq!(press(&mut state, "/vote 1"), vote(0));
    assert_eq!(state.my_vote, Some(0));
    assert_eq!(press(&mut state, "/vote   4"), vote(3));
    assert_eq!(state.my_vote, Some(3));
    assert_eq!(press(&mut state, "/vote 5"), UiAction::Nothing);
    assert_eq!(press(&mut state, "/vote x"), UiAction::Nothing);
    assert_eq!(state.my_vote, Some(3));
    assert_eq!(press(&mut state, "/vote 0"), vote(0));
    assert_eq!(press(&mut state, "/unvote"), UiAction::Send { msg: ClientMsg::Unvote });
    assert_eq!(state.my_vote, None);
    assert!(matches!(
        press(&mut state, "/vote"),
        UiAction::Send { msg: ClientMsg::Chat { text, .. } } if text == "/vote"
    ));
}

#[test]
fn keys_edit_and_quit() {
    let mut state = AppState::new();
    assert_eq!(state.on_key(Key::Backspace, false, 0), UiAction::Nothing);
    state.on_key(Key::Char { c: '가' }, false, 0);
    state.on_key(Key::Char { c: 'c' }, false, 0);
    assert_eq!(state.input, "가c");
    state.on_key(Key::Backspace, false, 0);
    assert_eq!(state.input, "가");
    assert_eq!(state.on_key(Key::Other, true, 0), UiAction::Nothing);
    assert_eq!(state.on_key(Key::Char { c: 'c' }, true, 0), UiAction::Quit);
    assert_eq!(state.on_key(Key::Esc, false, 0), UiAction::Quit);
    assert_eq!(state.input, "가");
}

#[test]
fn the_latest_messages_are_visible() {
    let mut state = AppState::new();
    assert_eq!(state.first_visible(10), 0);
    for i in 0..10 {
        state.push_msg(format!("{i}"));
    }
    assert_eq!(state.first_visible(5), 7);
    assert_eq!(state.first_visible(12), 0);
    assert_eq!(state.first_visible(1), 10);
}

#[test]
fn bars_are_labelled() {
    let mut state = AppState::new();
    state.vote_counts = [1, 0, 2, 0];
    state.my_vote = Some(2);
    assert_eq!(state.total_votes(), Some(3));
    assert_eq!(state.vote_label(0, 3), "[1]  1/3");
    assert_eq!(state.vote_label(2, 3), "[3]▶ 2/3");
    assert!(state.is_mine(2));
    assert!(!state.is_mine(0));
    state.vote_counts = [u64::MAX, 1, 0, 0];
    assert_eq!(state.total_votes(), None);
}

#[test]
fn bars_that_do_not_fit_are_left_out() {
    assert_eq!(vote_row(0, 5, 8), Some(5));
    assert_eq!(vote_row(3, 5, 8), Some(11));
    assert_eq!(vote_row(3, 5, 7), None);
    assert_eq!(vote_row(0, 5, 1), None);
}

#[test]
fn the_cursor_stands_behind_the_input() {
    let mut state = AppState::new();
    assert_eq!(state.cursor_column(10), Some(13));
    state.input = "a가b".to_string();
    assert_eq!(state.cursor_column(10), Some(17));
    state.input = "x".repeat(65532);
    assert_eq!(state.cursor_column(0), Some(65535));
    assert_eq!(state.cursor_column(1), None);
}
