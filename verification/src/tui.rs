//! The state of the terminal client: what it shows, and what typing does.
use vstd::prelude::*;
use vstd::slice::slice_subrange;

use crate::protocol::{ClientMsg, ServerMsg, N_OPTIONS};
use crate::text::{chars_of, push_decimal, read_unsigned, str_equal, string_of, trimmed};

verus! {

/// How many messages are kept.
pub const MAX_MESSAGES: usize = 200;

/// How many lines of the screen an option of the vote takes.
pub const VOTE_ROW_HEIGHT: u16 = 2;

/// A key.
#[derive(Debug, Clone, Copy, PartialEq, Eq, Structural)]
pub enum Key {
    Esc,
    Enter,
    Backspace,
    Char { c: char },
    /// Any other.
    Other,
}

/// What is to be done after a key.
#[derive(Debug, PartialEq, Eq)]
pub enum UiAction {
    Nothing,
    Quit,
    Send { msg: ClientMsg },
}

/// What the terminal client knows.
#[derive(Debug)]
pub struct AppState {
    /// The latest messages, oldest first.
    pub messages: Vec<String>,
    pub vote_counts: [u64; N_OPTIONS],
    pub client_count: u64,
    /// The welcome has come, and counted this client already; the news of its
    /// own arrival is still to come.
    pub arriving: bool,
    /// What was typed and not yet sent.
    pub input: String,
    pub my_vote: Option<usize>,
}

// ------------------------------------------------------------ specification

/// What the terminal client knows, as plain values.
#[verifier::ext_equal]
pub struct ScreenView {
    pub messages: Seq<Seq<char>>,
    pub vote_counts: [u64; N_OPTIONS],
    pub client_count: u64,
    pub arriving: bool,
    pub input: Seq<char>,
    pub my_vote: Option<usize>,
}

impl View for AppState {
    type V = ScreenView;

    open spec fn view(&self) -> ScreenView {
        ScreenView {
            messages: Seq::new(self.messages@.len(), |i: int| self.messages@[i]@),
            vote_counts: self.vote_counts,
            client_count: self.client_count,
            arriving: self.arriving,
            input: self.input@,
            my_vote: self.my_vote,
        }
    }
}

/// A log with one more message. One that is full loses its oldest.
pub open spec fn logged(messages: Seq<Seq<char>>, msg: Seq<char>) -> Seq<Seq<char>> {
    if messages.len() >= MAX_MESSAGES {
        messages.drop_first().push(msg)
    } else {
        messages.push(msg)
    }
}

/// A line of chat: its author by nickname, or by id where there is none, and
/// what was said.
pub open spec fn chat_line(from: u64, nick: Option<String>, text: Seq<char>) -> Seq<char> {
    "["@ + (match nick {
        Some(name) => name@,
        None => crate::text::decimal(from as nat),
    }) + "] "@ + text
}

/// A line on somebody who came or went.
pub open spec fn presence_line(id: u64, joined: bool) -> Seq<char> {
    if joined {
        "▶ "@ + crate::text::decimal(id as nat) + " 입장"@
    } else {
        "◀ "@ + crate::text::decimal(id as nat) + " 퇴장"@
    }
}

/// A line on an error.
pub open spec fn error_line(msg: Seq<char>) -> Seq<char> {
    "⚠ "@ + msg
}

/// What a line of input asks for.
pub enum Command {
    Vote { option: usize },
    Unvote,
    Say,
    /// A vote for something that is no option.
    BadVote,
}

/// What a line of input asks for. Options are typed from one on; zero stands for
/// the first, too.
pub open spec fn command_of(input: Seq<char>) -> Command {
    let vote = "/vote "@;
    if vote.len() <= input.len() && input.take(vote.len() as int) == vote {
        match crate::text::read_number(
            crate::text::trim(input.skip(vote.len() as int)),
            usize::MAX as nat,
        ) {
            None => Command::BadVote,
            Some(n) => {
                let option = if n == 0 {
                    0
                } else {
                    n - 1
                };
                if option < N_OPTIONS {
                    Command::Vote { option: option as usize }
                } else {
                    Command::BadVote
                }
            },
        }
    } else if input == "/unvote"@ {
        Command::Unvote
    } else {
        Command::Say
    }
}

impl ScreenView {
    /// With one more message in the log.
    pub open spec fn with_message(self, msg: Seq<char>) -> ScreenView {
        ScreenView { messages: logged(self.messages, msg), ..self }
    }

    /// After a message of the server.
    pub open spec fn told(self, msg: ServerMsg) -> ScreenView {
        match msg {
            ServerMsg::Welcome { peer_count } => ScreenView {
                client_count: peer_count,
                arriving: true,
                ..self
            },
            ServerMsg::Chat { from, nick, text, sent_at, client_ts } => self.with_message(
                chat_line(from, nick, text@),
            ),
            ServerMsg::VoteSnapshot { counts, percentages } => ScreenView {
                vote_counts: counts,
                ..self
            },
            ServerMsg::Presence { id, joined } => {
                let counted = if joined && self.arriving {
                    ScreenView { arriving: false, ..self }
                } else if joined {
                    ScreenView { client_count: (self.client_count + 1) as u64, ..self }
                } else if self.client_count > 0 {
                    ScreenView { client_count: (self.client_count - 1) as u64, ..self }
                } else {
                    self
                };
                counted.with_message(presence_line(id, joined))
            },
            ServerMsg::Error { msg } => self.with_message(error_line(msg@)),
        }
    }

    /// After a line of input was acted upon.
    pub open spec fn commanded(self, input: Seq<char>) -> ScreenView {
        match command_of(input) {
            Command::Vote { option } => ScreenView { my_vote: Some(option), ..self },
            Command::Unvote => ScreenView { my_vote: None, ..self },
            Command::Say => self,
            Command::BadVote => self,
        }
    }
}

/// `msg` is what a line of input, typed at `now_ms`, has the client send.
pub open spec fn is_sent_for(msg: Option<ClientMsg>, input: Seq<char>, now_ms: u64) -> bool {
    match command_of(input) {
        Command::Vote { option } => msg == Some(ClientMsg::Vote { option }),
        Command::Unvote => msg == Some(ClientMsg::Unvote),
        Command::Say => msg matches Some(ClientMsg::Chat { text, client_ts }) && text@ == input
            && client_ts == now_ms,
        Command::BadVote => msg is None,
    }
}

/// How many columns of the screen a text takes: one for each ASCII character,
/// two for each other.
pub open spec fn display_width(s: Seq<char>) -> nat
    decreases s.len(),
{
    if s.len() == 0 {
        0
    } else {
        display_width(s.drop_last()) + if (s.last() as u32) < 128 {
            1nat
        } else {
            2nat
        }
    }
}

/// What stands on the bar of option `i`.
pub open spec fn label_text(i: usize, count: u64, total: u64, mine: bool) -> Seq<char> {
    "["@ + crate::text::decimal((i + 1) as nat) + (if mine {
        "]▶ "@
    } else {
        "]  "@
    }) + crate::text::decimal(count as nat) + "/"@ + crate::text::decimal(total as nat)
}

// ---------------------------------------------------------------- functions

impl AppState {
    pub fn new() -> (s: Self)
        ensures
            s@ == (ScreenView {
                messages: Seq::empty(),
                vote_counts: [0, 0, 0, 0],
                client_count: 0,
                arriving: false,
                input: Seq::empty(),
                my_vote: None,
            }),
    {
        let s = AppState {
            messages: Vec::new(),
            vote_counts: [0, 0, 0, 0],
            client_count: 0,
            arriving: false,
            input: String::new(),
            my_vote: None,
        };
        assert(s@.messages =~= Seq::empty());
        assert(s@.input =~= Seq::empty());
        s
    }

    /// Logs a message. A full log loses its oldest.
    pub fn push_msg(&mut self, msg: String)
        ensures
            final(self)@ == old(self)@.with_message(msg@),
    {
        if self.messages.len() >= MAX_MESSAGES {
            self.messages.remove(0);
        }
        self.messages.push(msg);
        assert(self@.messages =~= logged(old(self)@.messages, msg@));
    }

    /// Acts on a message of the server.
    pub fn on_server_msg(&mut self, msg: &ServerMsg)
        requires
            *msg matches ServerMsg::Presence { id, joined } ==> joined && !old(self).arriving
                ==> old(self).client_count < u64::MAX,
        ensures
            final(self)@ == old(self)@.told(*msg),
    {
        match msg {
            ServerMsg::Welcome { peer_count } => {
                self.client_count = *peer_count;
                self.arriving = true;
                assert(self@ =~= old(self)@.told(*msg));
            },
            ServerMsg::Chat { from, nick, text, sent_at: _, client_ts: _ } => {
                let mut line = "[".to_owned();
                match nick {
                    Some(name) => {
                        line.append(name.as_str());
                    },
                    None => {
                        push_decimal(&mut line, *from);
                    },
                }
                line.append("] ");
                line.append(text.as_str());
                assert(line@ =~= chat_line(*from, *nick, text@));
                self.push_msg(line);
            },
            ServerMsg::VoteSnapshot { counts, percentages: _ } => {
                self.vote_counts = *counts;
                assert(self@ =~= old(self)@.told(*msg));
            },
            ServerMsg::Presence { id, joined } => {
                let mut line = if *joined {
                    "▶ ".to_owned()
                } else {
                    "◀ ".to_owned()
                };
                push_decimal(&mut line, *id);
                if *joined {
                    line.append(" 입장");
                    if self.arriving {
                        self.arriving = false;
                    } else {
                        self.client_count = self.client_count + 1;
                    }
                } else {
                    line.append(" 퇴장");
                    self.client_count = self.client_count.saturating_sub(1);
                }
                assert(line@ =~= presence_line(*id, *joined));
                assert(self@.messages =~= old(self)@.messages);
                self.push_msg(line);
            },
            ServerMsg::Error { msg: text } => {
                let mut line = "⚠ ".to_owned();
                line.append(text.as_str());
                self.push_msg(line);
            },
        }
    }

    /// Acts on a line of input, typed at `now_ms`, and returns what to send.
    pub fn parse_input(&mut self, input: &str, now_ms: u64) -> (msg: Option<ClientMsg>)
        ensures
            final(self)@ == old(self)@.commanded(input@),
            is_sent_for(msg, input@, now_ms),
    {
        let chars = chars_of(input);
        let vote = chars_of("/vote ");
        if vote.len() <= chars.len() {
            let head = string_of(slice_subrange(chars.as_slice(), 0, vote.len()));
            assert(head@ =~= input@.take(vote@.len() as int));
            if str_equal(head.as_str(), "/vote ") {
                let rest = trimmed(slice_subrange(chars.as_slice(), vote.len(), chars.len()));
                assert(rest@ == crate::text::trim(input@.skip(vote@.len() as int))) by {
                    assert(chars@.subrange(vote@.len() as int, chars@.len() as int)
                        =~= input@.skip(vote@.len() as int));
                }
                if let Some(n) = read_unsigned(rest, usize::MAX as u64) {
                    let option: u64 = n.saturating_sub(1);
                    if option < N_OPTIONS as u64 {
                        self.my_vote = Some(option as usize);
                        assert(self@ =~= old(self)@.commanded(input@));
                        return Some(ClientMsg::Vote { option: option as usize });
                    }
                }
                return None;
            }
        }
        if str_equal(input, "/unvote") {
            self.my_vote = None;
            assert(self@ =~= old(self)@.commanded(input@));
            return Some(ClientMsg::Unvote);
        }
        Some(ClientMsg::Chat { text: input.to_owned(), client_ts: now_ms })
    }

    /// Acts on a key, pressed at `now_ms`, with `ctrl` held down or not.
    pub fn on_key(&mut self, key: Key, ctrl: bool, now_ms: u64) -> (action: UiAction)
        ensures
            ({
                let line = crate::text::trim(old(self)@.input);
                match key {
                    Key::Esc => action == UiAction::Quit && final(self)@ == old(self)@,
                    Key::Enter => {
                        let cleared = ScreenView { input: Seq::empty(), ..old(self)@ };
                        if line.len() == 0 {
                            action == UiAction::Nothing && final(self)@ == cleared
                        } else {
                            &&& final(self)@ == cleared.commanded(line)
                            &&& match action {
                                UiAction::Nothing => is_sent_for(None, line, now_ms),
                                UiAction::Quit => false,
                                UiAction::Send { msg } => is_sent_for(Some(msg), line, now_ms),
                            }
                        }
                    },
                    Key::Backspace => action == UiAction::Nothing && final(self)@ == if old(
                        self,
                    )@.input.len() == 0 {
                        old(self)@
                    } else {
                        ScreenView { input: old(self)@.input.drop_last(), ..old(self)@ }
                    },
                    Key::Char { c } => if ctrl && c == 'c' {
                        action == UiAction::Quit && final(self)@ == old(self)@
                    } else {
                        action == UiAction::Nothing && final(self)@ == (ScreenView {
                            input: old(self)@.input.push(c),
                            ..old(self)@
                        })
                    },
                    Key::Other => action == UiAction::Nothing && final(self)@ == old(self)@,
                }
            }),
    {
        match key {
            Key::Esc => UiAction::Quit,
            Key::Enter => {
                let chars = chars_of(self.input.as_str());
                let line = string_of(trimmed(chars.as_slice()));
                self.input = String::new();
                assert(self@ =~= ScreenView { input: Seq::empty(), ..old(self)@ });
                if str_equal(line.as_str(), "") {
                    proof {
                        reveal_strlit("");
                    }
                    return UiAction::Nothing;
                }
                proof {
                    reveal_strlit("");
                    if line@.len() == 0 {
                        assert(line@ =~= ""@);
                    }
                }
                match self.parse_input(line.as_str(), now_ms) {
                    Some(msg) => UiAction::Send { msg },
                    None => UiAction::Nothing,
                }
            },
            Key::Backspace => {
                let _ = self.input.pop();
                assert(self@.messages =~= old(self)@.messages);
                UiAction::Nothing
            },
            Key::Char { c } => {
                if ctrl && c == 'c' {
                    UiAction::Quit
                } else {
                    self.input.push(c);
                    assert(self@.messages =~= old(self)@.messages);
                    UiAction::Nothing
                }
            },
            Key::Other => UiAction::Nothing,
        }
    }

    /// The first message that is shown in an area of `height` lines, two of
    /// which are its border: the latest are shown.
    pub fn first_visible(&self, height: u16) -> (k: usize)
        ensures
            k <= self@.messages.len(),
            self@.messages.len() - k == if height < 2 {
                0
            } else if self@.messages.len() < height - 2 {
                self@.messages.len() as int
            } else {
                height - 2
            },
    {
        let lines: usize = height.saturating_sub(2) as usize;
        self.messages.len().saturating_sub(lines)
    }

    /// All votes. `None` where they do not fit in a `u64`.
    pub fn total_votes(&self) -> (r: Option<u64>)
        ensures
            crate::vote::total_of(self@.vote_counts@) <= u64::MAX ==> r is Some && r->0
                == crate::vote::total_of(self@.vote_counts@),
            crate::vote::total_of(self@.vote_counts@) > u64::MAX ==> r is None,
    {
        let counts = self.vote_counts;
        let total: u128 = counts[0] as u128 + counts[1] as u128 + counts[2] as u128
            + counts[3] as u128;
        proof {
            reveal_with_fuel(crate::vote::total_of, 5);
            assert(total == crate::vote::total_of(counts@));
        }
        if total <= u64::MAX as u128 {
            Some(total as u64)
        } else {
            None
        }
    }

    /// What stands on the bar of option `i`, where `total` votes were cast.
    pub fn vote_label(&self, i: usize, total: u64) -> (s: String)
        requires
            i < N_OPTIONS,
        ensures
            s@ == label_text(i, self@.vote_counts@[i as int], total, self@.my_vote == Some(i)),
    {
        let mut s = "[".to_owned();
        push_decimal(&mut s, (i + 1) as u64);
        if self.is_mine(i) {
            s.append("]▶ ");
        } else {
            s.append("]  ");
        }
        push_decimal(&mut s, self.vote_counts[i]);
        s.append("/");
        push_decimal(&mut s, total);
        assert(s@ =~= label_text(
            i,
            self@.vote_counts@[i as int],
            total,
            self@.my_vote == Some(i),
        ));
        s
    }

    /// Whether option `i` is the one that was voted for here.
    pub fn is_mine(&self, i: usize) -> (r: bool)
        ensures
            r == (self@.my_vote == Some(i)),
    {
        match self.my_vote {
            Some(option) => option == i,
            None => false,
        }
    }

    /// The column of the cursor, behind the border, the prompt and the input, in
    /// an area that begins at column `x`. `None` where there is no such column.
    pub fn cursor_column(&self, x: u16) -> (r: Option<u16>)
        ensures
            x + 3 + display_width(self@.input) <= u16::MAX ==> r is Some && r->0 == x + 3
                + display_width(self@.input),
            x + 3 + display_width(self@.input) > u16::MAX ==> r is None,
    {
        let chars = chars_of(self.input.as_str());
        let mut column: u32 = x as u32 + 3;
        let mut i: usize = 0;
        while i < chars.len()
            invariant
                i <= chars@.len(),
                chars@ == self.input@,
                column == x + 3 + display_width(chars@.take(i as int)),
                column <= u16::MAX + 3,
            decreases chars@.len() - i,
        {
            if column > u16::MAX as u32 {
                proof {
                    lemma_width_grows(chars@, i as int);
                }
                return None;
            }
            assert(chars@.take(i + 1).drop_last() == chars@.take(i as int));
            column = column + if (chars[i] as u32) < 128 {
                1u32
            } else {
                2u32
            };
            i = i + 1;
        }
        assert(chars@.take(chars@.len() as int) == chars@);
        if column <= u16::MAX as u32 {
            Some(column as u16)
        } else {
            None
        }
    }
}

/// The first line of the bar of option `i`, in an area of `height` lines from
/// line `y` on. `None` where the bar does not fit.
pub fn vote_row(i: usize, y: u16, height: u16) -> (r: Option<u16>)
    requires
        i < N_OPTIONS,
        y + height <= u16::MAX,
    ensures
        (i + 1) * VOTE_ROW_HEIGHT <= height ==> r is Some && r->0 == y + i * VOTE_ROW_HEIGHT,
        (i + 1) * VOTE_ROW_HEIGHT > height ==> r is None,
{
    let top: u16 = i as u16 * VOTE_ROW_HEIGHT;
    if top + VOTE_ROW_HEIGHT > height {
        None
    } else {
        Some(y + top)
    }
}

proof fn lemma_width_grows(s: Seq<char>, i: int)
    requires
        0 <= i <= s.len(),
    ensures
        display_width(s.take(i)) <= display_width(s),
    decreases s.len() - i,
{
    if i == s.len() {
        assert(s.take(i) == s);
    } else {
        lemma_width_grows(s, i + 1);
        assert(s.take(i + 1).drop_last() == s.take(i));
    }
}

// --------------------------------------------------------------------- laws

/// The log after all of `msgs` came, one after the other.
pub open spec fn log_of(msgs: Seq<Seq<char>>) -> Seq<Seq<char>>
    decreases msgs.len(),
{
    if msgs.len() == 0 {
        Seq::empty()
    } else {
        logged(log_of(msgs.drop_last()), msgs.last())
    }
}

/// The log holds the latest messages, in order: all of them as long as they are
/// not too many, and the last `MAX_MESSAGES` from then on.
pub proof fn law_log_holds_the_latest(msgs: Seq<Seq<char>>)
    ensures
        msgs.len() <= MAX_MESSAGES ==> log_of(msgs) == msgs,
        msgs.len() > MAX_MESSAGES ==> log_of(msgs) == msgs.skip(msgs.len() - MAX_MESSAGES),
    decreases msgs.len(),
{
    if msgs.len() > 0 {
        law_log_holds_the_latest(msgs.drop_last());
        if msgs.len() <= MAX_MESSAGES {
            assert(msgs.drop_last().push(msgs.last()) =~= msgs);
        } else {
            assert(log_of(msgs) =~= msgs.skip(msgs.len() - MAX_MESSAGES));
        }
    }
}

/// The count on the screen is exact from the start: a newcomer who is welcomed
/// as one of `peer_count`, and then hears of its own arrival, shows `peer_count`.
/// After that the count follows every arrival and every departure.
pub proof fn law_count_on_screen_is_exact(
    screen: ScreenView,
    peer_count: u64,
    own: u64,
    other: u64,
)
    requires
        0 < peer_count < u64::MAX,
    ensures
        ({
            let here = screen.told(ServerMsg::Welcome { peer_count }).told(
                ServerMsg::Presence { id: own, joined: true },
            );
            let more = here.told(ServerMsg::Presence { id: other, joined: true });
            let fewer = here.told(ServerMsg::Presence { id: other, joined: false });
            &&& screen.told(ServerMsg::Welcome { peer_count }).client_count == peer_count
            &&& here.client_count == peer_count
            &&& !here.arriving
            &&& more.client_count == peer_count + 1
            &&& fewer.client_count == peer_count - 1
        }),
{
}

/// Options are typed from one on: `/vote n` asks for option `n - 1`, and for
/// nothing where there is no such option.
pub proof fn law_typed_votes_count_from_one(n: usize)
    requires
        n > 0,
    ensures
        n <= N_OPTIONS ==> command_of("/vote "@ + crate::text::decimal(n as nat))
            == (Command::Vote { option: (n - 1) as usize }),
        n > N_OPTIONS ==> command_of("/vote "@ + crate::text::decimal(n as nat))
            == Command::BadVote,
{
    let vote = "/vote "@;
    let digits = crate::text::decimal(n as nat);
    let input = vote + digits;
    assert(input.take(vote.len() as int) =~= vote);
    assert(input.skip(vote.len() as int) =~= digits);
    crate::text::lemma_decimal_digits(n as nat);
    assert forall|i: int| 0 <= i < digits.len() implies !crate::text::is_space(
        #[trigger] digits[i],
    ) by {
        assert(crate::text::is_digit(digits[i]));
    }
    crate::text::lemma_trim_spaceless(digits);
    crate::text::lemma_read_decimal(n as nat, usize::MAX as nat);
}

/// Whatever is typed, only an option that exists is ever voted for, and it is
/// the one that the screen marks.
pub proof fn law_only_options_are_voted_for(
    screen: ScreenView,
    msg: Option<ClientMsg>,
    input: Seq<char>,
    now_ms: u64,
)
    requires
        is_sent_for(msg, input, now_ms),
    ensures
        msg matches Some(ClientMsg::Vote { option }) ==> option < N_OPTIONS && screen.commanded(
            input,
        ).my_vote == Some(option),
        msg == Some(ClientMsg::Unvote) ==> screen.commanded(input).my_vote is None,
{
}

/// What is on the screen after all of `msgs`.
pub open spec fn told_all(screen: ScreenView, msgs: Seq<ServerMsg>) -> ScreenView
    decreases msgs.len(),
{
    if msgs.len() == 0 {
        screen
    } else {
        told_all(screen, msgs.drop_last()).told(msgs.last())
    }
}

/// The counts on the screen are those of the last snapshot that came, option by
/// option, whatever was shown before and whatever else came behind it. Without a
/// snapshot they stay.
pub proof fn law_screen_shows_the_last_snapshot(screen: ScreenView, msgs: Seq<ServerMsg>, k: int)
    ensures
        0 <= k < msgs.len() && msgs[k] is VoteSnapshot && (forall|j: int|
            k < j < msgs.len() ==> !((#[trigger] msgs[j]) is VoteSnapshot)) ==> told_all(
            screen,
            msgs,
        ).vote_counts == msgs[k]->counts,
        (forall|j: int| 0 <= j < msgs.len() ==> !((#[trigger] msgs[j]) is VoteSnapshot))
            ==> told_all(screen, msgs).vote_counts == screen.vote_counts,
    decreases msgs.len(),
{
    if msgs.len() > 0 {
        let front = msgs.drop_last();
        law_screen_shows_the_last_snapshot(screen, front, k);
        assert(forall|j: int| 0 <= j < front.len() ==> #[trigger] front[j] == msgs[j]);
        assert(msgs[msgs.len() - 1] == msgs.last());
    }
}

/// A snapshot changes the counts on the screen and nothing else.
pub proof fn law_snapshots_change_only_the_counts(screen: ScreenView, msg: ServerMsg)
    requires
        msg is VoteSnapshot,
    ensures
        screen.told(msg).vote_counts == msg->counts,
        screen.told(msg).messages == screen.messages,
        screen.told(msg).client_count == screen.client_count,
        screen.told(msg).arriving == screen.arriving,
        screen.told(msg).input == screen.input,
        screen.told(msg).my_vote == screen.my_vote,
{
}

/// What the server says never touches what is being typed or what was voted for
/// here.
pub proof fn law_the_server_does_not_type(screen: ScreenView, msg: ServerMsg)
    ensures
        screen.told(msg).input == screen.input,
        screen.told(msg).my_vote == screen.my_vote,
{
}

/// A chat message is logged as its author, by nickname or else by number, and its
/// text; an arrival, a departure and an error each as a line of their own. Nothing
/// else is logged.
pub proof fn law_messages_are_logged_by_kind(screen: ScreenView, msg: ServerMsg)
    ensures
        ({
            let log = screen.told(msg).messages;
            match msg {
                ServerMsg::Chat { from, nick: Some(name), text, sent_at, client_ts } => {
                    &&& log.len() > 0
                    &&& log.last() == "["@ + name@ + "] "@ + text@
                },
                ServerMsg::Chat { from, nick: None, text, sent_at, client_ts } => {
                    &&& log.len() > 0
                    &&& log.last() == "["@ + crate::text::decimal(from as nat) + "] "@ + text@
                },
                ServerMsg::Presence { id, joined: true } => {
                    &&& log.len() > 0
                    &&& log.last() == "▶ "@ + crate::text::decimal(id as nat) + " 입장"@
                },
                ServerMsg::Presence { id, joined: false } => {
                    &&& log.len() > 0
                    &&& log.last() == "◀ "@ + crate::text::decimal(id as nat) + " 퇴장"@
                },
                ServerMsg::Error { msg: text } => {
                    &&& log.len() > 0
                    &&& log.last() == "⚠ "@ + text@
                },
                _ => log == screen.messages,
            }
        }),
{
}

/// A new line goes to the end of the log, and all others move up; only the oldest
/// of two hundred makes room for it.
pub proof fn law_lines_are_logged_in_order(messages: Seq<Seq<char>>, msg: Seq<char>)
    ensures
        messages.len() < 200 ==> logged(messages, msg).len() == messages.len() + 1,
        messages.len() == 200 ==> logged(messages, msg).len() == 200,
        logged(messages, msg).last() == msg,
        forall|i: int|
            0 <= i < messages.len() && messages.len() < 200 ==> #[trigger] logged(messages, msg)[i]
                == messages[i],
        forall|i: int|
            0 <= i < 199 && messages.len() == 200 ==> #[trigger] logged(messages, msg)[i]
                == messages[i + 1],
{
}

/// Participants are counted by the news of them: one more for an arrival, one less
/// for a departure, never below zero, and as many as a welcome says. Nothing else
/// changes the count.
pub proof fn law_participants_are_counted(screen: ScreenView, msg: ServerMsg)
    requires
        screen.client_count < u64::MAX,
    ensures
        ({
            let after = screen.told(msg);
            match msg {
                ServerMsg::Welcome { peer_count } => after.client_count == peer_count
                    && after.arriving,
                ServerMsg::Presence { id, joined: true } => {
                    &&& !after.arriving
                    &&& after.client_count == if screen.arriving {
                        screen.client_count as int
                    } else {
                        screen.client_count + 1
                    }
                },
                ServerMsg::Presence { id, joined: false } => {
                    &&& after.arriving == screen.arriving
                    &&& screen.client_count > 0 ==> after.client_count == screen.client_count - 1
                    &&& screen.client_count == 0 ==> after.client_count == 0
                },
                _ => after.client_count == screen.client_count && after.arriving
                    == screen.arriving,
            }
        }),
{
}

/// What is typed is sent as it is, with the time, unless it is a command.
pub proof fn law_typed_text_is_sent_as_it_is(
    screen: ScreenView,
    msg: Option<ClientMsg>,
    input: Seq<char>,
    now_ms: u64,
)
    requires
        is_sent_for(msg, input, now_ms),
        input != "/unvote"@,
        !(exists|rest: Seq<char>| input == "/vote "@ + rest),
    ensures
        msg matches Some(ClientMsg::Chat { text, client_ts }) && text@ == input && client_ts
            == now_ms,
        screen.commanded(input) == screen,
{
    let vote = "/vote "@;
    if vote.len() <= input.len() && input.take(vote.len() as int) == vote {
        assert(input =~= vote + input.skip(vote.len() as int));
    }
}

/// The command to take the vote back does that, and no vote is marked any more.
pub proof fn law_unvote_is_a_command(screen: ScreenView, msg: Option<ClientMsg>, now_ms: u64)
    requires
        is_sent_for(msg, "/unvote"@, now_ms),
    ensures
        msg == Some(ClientMsg::Unvote),
        screen.commanded("/unvote"@).my_vote is None,
        screen.commanded("/unvote"@).input == screen.input,
        screen.commanded("/unvote"@).messages == screen.messages,
{
    reveal_strlit("/unvote");
    reveal_strlit("/vote ");
    assert("/unvote"@.take(6)[1] == 'u');
}

/// A vote is read through any white space around its number: it goes to the option
/// before that number, zero standing for the first too, and is marked; a number
/// beyond the options does nothing.
pub proof fn law_typed_votes_are_sent(
    screen: ScreenView,
    msg: Option<ClientMsg>,
    before: Seq<char>,
    n: usize,
    after: Seq<char>,
    now_ms: u64,
)
    requires
        forall|i: int| 0 <= i < before.len() ==> crate::text::is_space(#[trigger] before[i]),
        forall|i: int| 0 <= i < after.len() ==> crate::text::is_space(#[trigger] after[i]),
        is_sent_for(
            msg,
            "/vote "@ + (before + crate::text::decimal(n as nat) + after),
            now_ms,
        ),
    ensures
        ({
            let input = "/vote "@ + (before + crate::text::decimal(n as nat) + after);
            &&& n == 0 ==> msg == Some(ClientMsg::Vote { option: 0 }) && screen.commanded(
                input,
            ).my_vote == Some(0usize)
            &&& 1 <= n <= 4 ==> msg == Some(ClientMsg::Vote { option: (n - 1) as usize })
                && screen.commanded(input).my_vote == Some((n - 1) as usize)
            &&& n > 4 ==> msg is None && screen.commanded(input) == screen
        }),
{
    let vote = "/vote "@;
    let digits = crate::text::decimal(n as nat);
    let rest = before + digits + after;
    let input = vote + rest;
    assert(input.take(vote.len() as int) =~= vote);
    assert(input.skip(vote.len() as int) =~= rest);
    crate::text::lemma_decimal_digits(n as nat);
    assert forall|i: int| 0 <= i < digits.len() implies !crate::text::is_space(
        #[trigger] digits[i],
    ) by {
        assert(crate::text::is_digit(digits[i]));
    }
    crate::text::lemma_trim_padded(before, digits, after);
    crate::text::lemma_read_decimal(n as nat, usize::MAX as nat);
}

/// A vote for what is no number does nothing: a single character that is neither
/// a digit nor white space nor a sign is enough.
pub proof fn law_votes_for_nonsense_do_nothing(
    screen: ScreenView,
    msg: Option<ClientMsg>,
    rest: Seq<char>,
    k: int,
    now_ms: u64,
)
    requires
        0 <= k < rest.len(),
        !crate::text::is_digit(rest[k]),
        !crate::text::is_space(rest[k]),
        rest[k] != '+',
        is_sent_for(msg, "/vote "@ + rest, now_ms),
    ensures
        msg is None,
        screen.commanded("/vote "@ + rest) == screen,
{
    let vote = "/vote "@;
    let input = vote + rest;
    assert(input.take(vote.len() as int) =~= vote);
    assert(input.skip(vote.len() as int) =~= rest);
    crate::text::lemma_trim_keeps(rest, k);
    let t = crate::text::trim(rest);
    let m = choose|m: int| 0 <= m < t.len() && t[m] == rest[k];
    let digits = if t.len() > 1 && t[0] == '+' {
        t.drop_first()
    } else {
        t
    };
    if t.len() > 1 && t[0] == '+' {
        assert(digits[m - 1] == t[m]);
    } else {
        assert(digits[m] == t[m]);
    }
}

/// Text takes one column for each character of ASCII and two for each other, also
/// when it is put together.
pub proof fn law_width_adds_up(a: Seq<char>, b: Seq<char>, c: char)
    ensures
        display_width(a + b) == display_width(a) + display_width(b),
        c as u32 <= 127 ==> display_width(seq![c]) == 1,
        c as u32 > 127 ==> display_width(seq![c]) == 2,
    decreases b.len(),
{
    assert(seq![c].drop_last() == Seq::<char>::empty());
    assert(display_width(Seq::<char>::empty()) == 0);
    if b.len() == 0 {
        assert(a + b == a);
    } else {
        law_width_adds_up(a, b.drop_last(), c);
        assert((a + b).drop_last() == a + b.drop_last());
    }
}

/// A label names its option from one on, marks the one that was voted for here,
/// and gives its votes out of all.
pub proof fn law_labels_tell_votes_out_of_all(i: usize, count: u64, total: u64)
    ensures
        label_text(i, count, total, true) == "["@ + crate::text::decimal((i + 1) as nat) + "]▶ "@
            + crate::text::decimal(count as nat) + "/"@ + crate::text::decimal(total as nat),
        label_text(i, count, total, false) == "["@ + crate::text::decimal((i + 1) as nat) + "]  "@
            + crate::text::decimal(count as nat) + "/"@ + crate::text::decimal(total as nat),
{
}

} // verus!
