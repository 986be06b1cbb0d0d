//! Bots that chat and wait for their own messages to come back.
use vstd::prelude::*;
use vstd::slice::slice_subrange;

use crate::protocol::ClientMsg;
use crate::text::{chars_of, contains, find, leading_digits, push_decimal, read_unsigned};

verus! {

/// How long a bot waits for the rest of its messages, in seconds.
pub const BOT_RECV_TIMEOUT_SECS: u64 = 30;

// ------------------------------------------------------------ specification

/// What every message of bot `id` begins with.
pub open spec fn target_text(id: u64) -> Seq<char> {
    "bot_"@ + crate::text::decimal(id as nat) + "_msg_"@
}

/// The text of message `seq` of bot `id`.
pub open spec fn message_text(id: u64, seq: usize) -> Seq<char> {
    target_text(id) + crate::text::decimal(seq as nat)
}

/// The number that stands behind the first `target` in a line.
pub open spec fn seq_in(line: Seq<char>, target: Seq<char>) -> Option<nat> {
    match crate::text::find_from(line, target, 0) {
        None => None,
        Some(i) => {
            let after = line.skip(i + target.len());
            crate::text::read_number(
                after.take(crate::text::digit_run(after)),
                usize::MAX as nat,
            )
        },
    }
}

/// The round trip that a line shows: from when its message was sent, by
/// `sent_at`, to `recv_ts`. There is none where the clock went backwards.
pub open spec fn round_trip(
    line: Seq<char>,
    target: Seq<char>,
    sent_at: Seq<u64>,
    recv_ts: u64,
) -> Option<u64> {
    match seq_in(line, target) {
        Some(seq) => if seq < sent_at.len() && recv_ts >= sent_at[seq as int] {
            Some((recv_ts - sent_at[seq as int]) as u64)
        } else {
            None
        },
        None => None,
    }
}

/// When each message was sent, once a bot that has `total` to send was asked at
/// `now_ms` for its next step.
pub open spec fn sent_by(sent_at: Seq<u64>, total: nat, now_ms: u64) -> Seq<u64> {
    if sent_at.len() < total {
        sent_at.push(now_ms)
    } else {
        sent_at
    }
}

/// How many of `lines` hold `target`.
pub open spec fn matching(lines: Seq<Seq<char>>, target: Seq<char>) -> nat
    decreases lines.len(),
{
    if lines.len() == 0 {
        0
    } else {
        matching(lines.drop_last(), target) + if crate::text::has(lines.last(), target) {
            1nat
        } else {
            0nat
        }
    }
}

// ---------------------------------------------------------------- functions

/// What every message of bot `id` begins with.
pub fn echo_target(id: u64) -> (s: String)
    ensures
        s@ == target_text(id),
{
    let mut s = String::new();
    s.append("bot_");
    push_decimal(&mut s, id);
    s.append("_msg_");
    assert(s@ =~= target_text(id));
    s
}

/// Message `seq` of bot `id`, sent at `client_ts`.
pub fn chat_message(id: u64, seq: usize, client_ts: u64) -> (msg: ClientMsg)
    ensures
        msg matches ClientMsg::Chat { text, client_ts: ts } && text@ == message_text(id, seq) && ts
            == client_ts,
{
    let mut text = echo_target(id);
    push_decimal(&mut text, seq as u64);
    ClientMsg::Chat { text, client_ts }
}

/// The sequence number of the message that a line holds.
pub fn extract_seq(line: &str, target: &str) -> (r: Option<usize>)
    ensures
        r is Some == seq_in(line@, target@) is Some,
        r matches Some(seq) ==> seq_in(line@, target@) == Some(seq as nat),
{
    let chars = chars_of(line);
    let needle = chars_of(target);
    match find(chars.as_slice(), needle.as_slice()) {
        None => None,
        Some(i) => {
            let end: usize = chars.len();
            let after = slice_subrange(chars.as_slice(), i + needle.len(), end);
            assert(after@ == line@.skip(i + target@.len()));
            let digits = leading_digits(after);
            let number = slice_subrange(after, 0, digits);
            assert(number@ == after@.take(digits as int));
            match read_unsigned(number, usize::MAX as u64) {
                None => None,
                Some(n) => Some(n as usize),
            }
        },
    }
}

/// The round trip that a line shows, where `send_timestamps` holds when each
/// message was sent.
pub fn rtt_sample(
    line: &str,
    target: &str,
    send_timestamps: &Vec<u64>,
    recv_ts: u64,
) -> (r: Option<u64>)
    ensures
        r == round_trip(line@, target@, send_timestamps@, recv_ts),
{
    match extract_seq(line, target) {
        None => None,
        Some(seq) => {
            if seq < send_timestamps.len() && recv_ts >= send_timestamps[seq] {
                Some(recv_ts - send_timestamps[seq])
            } else {
                None
            }
        },
    }
}

/// What a bot that chats does next.
#[derive(Debug, PartialEq, Eq)]
pub enum EchoStep {
    /// Send this message.
    Send { msg: ClientMsg },
    /// All messages are sent: wait for them to come back.
    Done,
}

/// A bot that has `total` messages to send. It remembers when it sent each.
#[derive(Debug)]
pub struct EchoSender {
    pub id: u64,
    pub total: usize,
    pub sent_at: Vec<u64>,
}

impl EchoSender {
    pub fn new(id: u64, total: usize) -> (s: Self)
        ensures
            s.id == id,
            s.total == total,
            s.sent_at@ == Seq::<u64>::empty(),
    {
        EchoSender { id, total, sent_at: Vec::new() }
    }

    /// What the bot does next, at `now_ms`.
    pub fn next(&mut self, now_ms: u64) -> (step: EchoStep)
        ensures
            final(self).id == old(self).id,
            final(self).total == old(self).total,
            final(self).sent_at@ == sent_by(old(self).sent_at@, old(self).total as nat, now_ms),
            old(self).sent_at@.len() < old(self).total ==> {
                &&& step matches EchoStep::Send { msg }
                &&& msg matches ClientMsg::Chat { text, client_ts }
                &&& text@ == message_text(old(self).id, old(self).sent_at@.len() as usize)
                &&& client_ts == now_ms
            },
            old(self).sent_at@.len() >= old(self).total ==> step == EchoStep::Done,
    {
        let seq: usize = self.sent_at.len();
        if seq < self.total {
            self.sent_at.push(now_ms);
            EchoStep::Send { msg: chat_message(self.id, seq, now_ms) }
        } else {
            EchoStep::Done
        }
    }
}

/// Counts the lines that hold a bot's own messages, until all are there.
#[derive(Debug)]
pub struct EchoCounter {
    target: String,
    expected: u64,
    received: u64,
}

impl EchoCounter {
    /// What a line must hold to count.
    pub closed spec fn target(&self) -> Seq<char> {
        self.target@
    }

    /// How many messages are waited for.
    pub closed spec fn expected(&self) -> u64 {
        self.expected
    }

    /// How many have come.
    pub closed spec fn count(&self) -> u64 {
        self.received
    }

    /// The last message that was waited for has come. This is settled when a
    /// message comes: where none are waited for, the first ends the wait.
    pub open spec fn complete(&self) -> bool {
        self.count() > 0 && self.count() >= self.expected()
    }

    pub fn new(target: String, expected: u64) -> (c: Self)
        ensures
            c.target() == target@,
            c.expected() == expected,
            c.count() == 0,
    {
        EchoCounter { target, expected, received: 0 }
    }

    /// Looks at a line, and says whether it counts. None does after the last
    /// message that was waited for.
    pub fn on_line(&mut self, line: &str) -> (matched: bool)
        ensures
            matched == (!old(self).complete() && crate::text::has(line@, old(self).target())),
            final(self).target() == old(self).target(),
            final(self).expected() == old(self).expected(),
            final(self).count() == old(self).count() + if matched {
                1int
            } else {
                0int
            },
    {
        if self.received > 0 && self.received >= self.expected {
            return false;
        }
        let chars = chars_of(line);
        let needle = chars_of(self.target.as_str());
        if contains(chars.as_slice(), needle.as_slice()) {
            self.received = self.received + 1;
            true
        } else {
            false
        }
    }

    /// Whether the wait is over.
    pub fn is_complete(&self) -> (r: bool)
        ensures
            r == self.complete(),
    {
        self.received > 0 && self.received >= self.expected
    }

    /// How many messages have come.
    pub fn received(&self) -> (n: u64)
        ensures
            n == self.count(),
    {
        self.received
    }

    /// Whether messages are missing: the wait ended too early.
    pub fn fell_short(&self) -> (r: bool)
        ensures
            r == (self.count() < self.expected()),
    {
        self.received < self.expected
    }
}

// --------------------------------------------------------------------- laws

/// When each message was sent by a bot that was asked for a step at each of
/// `times`.
pub open spec fn sent_over(total: nat, times: Seq<u64>) -> Seq<u64>
    decreases times.len(),
{
    if times.len() == 0 {
        Seq::empty()
    } else {
        sent_by(sent_over(total, times.drop_last()), total, times.last())
    }
}

/// The messages that such a bot sent, in order: text and time of each.
pub open spec fn sent_messages(id: u64, total: nat, times: Seq<u64>) -> Seq<(Seq<char>, u64)>
    decreases times.len(),
{
    if times.len() == 0 {
        Seq::empty()
    } else {
        let before = times.drop_last();
        let seq = sent_over(total, before).len();
        if seq < total {
            sent_messages(id, total, before).push((message_text(id, seq as usize), times.last()))
        } else {
            sent_messages(id, total, before)
        }
    }
}

/// A bot sends exactly its `total` messages, one at each step, numbered 0, 1, 2
/// and so on, each with the time at which it went out, and remembers these times.
/// Before that many steps it has sent one at each of them.
pub proof fn law_all_messages_go_out_in_order(id: u64, total: usize, times: Seq<u64>)
    ensures
        ({
            let n: int = if times.len() < total {
                times.len() as int
            } else {
                total as int
            };
            &&& sent_over(total as nat, times) == times.take(n)
            &&& sent_messages(id, total as nat, times) == Seq::new(
                n as nat,
                |k: int| (message_text(id, k as usize), times[k]),
            )
        }),
    decreases times.len(),
{
    let n: int = if times.len() < total {
        times.len() as int
    } else {
        total as int
    };
    if times.len() > 0 {
        law_all_messages_go_out_in_order(id, total, times.drop_last());
    }
    assert(sent_over(total as nat, times) =~= times.take(n));
    assert(sent_messages(id, total as nat, times) =~= Seq::new(
        n as nat,
        |k: int| (message_text(id, k as usize), times[k]),
    ));
}

/// How many messages have been counted after `lines`, by one line at a time.
pub open spec fn counted(lines: Seq<Seq<char>>, target: Seq<char>, expected: u64) -> nat
    decreases lines.len(),
{
    if lines.len() == 0 {
        0
    } else {
        let before = counted(lines.drop_last(), target, expected);
        if !(before > 0 && before >= expected) && crate::text::has(lines.last(), target) {
            before + 1
        } else {
            before
        }
    }
}

/// What is counted is the number of lines that hold the bot's messages, and
/// never more than was waited for. The first such line is counted in any case.
pub proof fn law_echoes_are_counted_up_to_the_last(
    lines: Seq<Seq<char>>,
    target: Seq<char>,
    expected: u64,
)
    ensures
        ({
            let most: nat = if expected == 0 {
                1
            } else {
                expected as nat
            };
            counted(lines, target, expected) == if matching(lines, target) < most {
                matching(lines, target)
            } else {
                most
            }
        }),
    decreases lines.len(),
{
    if lines.len() > 0 {
        law_echoes_are_counted_up_to_the_last(lines.drop_last(), target, expected);
    }
}

/// A bot reads the number of each of its messages back: out of a line in which
/// its first own text is message `seq`, with no digit behind it, comes `seq`.
pub proof fn law_own_messages_are_numbered(
    before: Seq<char>,
    id: u64,
    seq: usize,
    after: Seq<char>,
)
    requires
        after.len() > 0 ==> !crate::text::is_digit(after[0]),
        forall|i: int|
            0 <= i < before.len() ==> !crate::text::occurs_at(
                before + message_text(id, seq) + after,
                target_text(id),
                i,
            ),
    ensures
        seq_in(before + message_text(id, seq) + after, target_text(id)) == Some(seq as nat),
{
    let line = before + message_text(id, seq) + after;
    let target = target_text(id);
    let digits = crate::text::decimal(seq as nat);
    let at = before.len() as int;
    assert(line.subrange(at, at + target.len()) =~= target);
    crate::text::lemma_find_from(line, target, 0);
    match crate::text::find_from(line, target, 0) {
        None => {
            assert(!crate::text::occurs_at(line, target, at));
        },
        Some(k) => {
            if k < at {
                assert(!crate::text::occurs_at(line, target, k));
            } else if at < k {
                assert(!crate::text::occurs_at(line, target, at));
            }
        },
    }
    let rest = line.skip(at + target.len());
    assert(rest =~= digits + after);
    crate::text::lemma_decimal_digits(seq as nat);
    assert forall|i: int| 0 <= i < digits.len() implies crate::text::is_digit(
        #[trigger] rest[i],
    ) by {
        assert(rest[i] == digits[i]);
    }
    crate::text::lemma_digit_run_is(rest, digits.len() as int);
    assert(rest.take(digits.len() as int) =~= digits);
    crate::text::lemma_read_decimal(seq as nat, usize::MAX as nat);
}

/// No bot takes another's message for its own.
pub proof fn law_bots_tell_their_messages_apart(id: u64, other: u64, seq: usize)
    requires
        id != other,
    ensures
        !crate::text::has(message_text(other, seq), target_text(id)),
{
    reveal_strlit("bot_");
    reveal_strlit("_msg_");
    let text = message_text(other, seq);
    let target = target_text(id);
    let mine = crate::text::decimal(id as nat);
    let theirs = crate::text::decimal(other as nat);
    let number = crate::text::decimal(seq as nat);
    crate::text::lemma_decimal_digits(id as nat);
    crate::text::lemma_decimal_digits(other as nat);
    crate::text::lemma_decimal_digits(seq as nat);
    if crate::text::has(text, target) {
        let i = choose|i: int| crate::text::occurs_at(text, target, i);
        assert(crate::text::occurs_at(text, target, i));
        assert(target[0] == 'b');
        assert(text.subrange(i, i + target.len())[0] == text[i]);
        if 4 <= i < 4 + theirs.len() {
            assert(text[i] == theirs[i - 4]);
            assert(crate::text::is_digit(theirs[i - 4]));
        } else if 4 + theirs.len() + 5 <= i {
            assert(text[i] == number[i - 4 - theirs.len() - 5]);
            assert(crate::text::is_digit(number[i - 4 - theirs.len() - 5]));
        }
        assert(i == 0);
        let k = 4 + mine.len();
        let m = 4 + theirs.len();
        assert(target[k as int] == '_');
        assert(text[m as int] == '_');
        assert(text.subrange(0, target.len() as int)[k as int] == text[k as int]);
        if k < m {
            assert(text[k as int] == theirs[mine.len() as int]);
            assert(crate::text::is_digit(theirs[mine.len() as int]));
        } else if m < k {
            assert(text.subrange(0, target.len() as int)[m as int] == text[m as int]);
            assert(target[m as int] == mine[theirs.len() as int]);
            assert(crate::text::is_digit(mine[theirs.len() as int]));
        }
        assert forall|j: int| 0 <= j < mine.len() implies mine[j] == theirs[j] by {
            assert(text.subrange(0, target.len() as int)[4 + j] == text[4 + j]);
            assert(target[4 + j] == mine[j]);
            assert(text[4 + j] == theirs[j]);
        }
        assert(mine =~= theirs);
        crate::text::lemma_decimal_injective(id as nat, other as nat);
    }
}

/// The line of a message: whatever stands in front of it, as long as it is not the
/// bot's own text, and whatever stands behind it, as long as it is no digit.
pub open spec fn is_line_of(
    line: Seq<char>,
    before: Seq<char>,
    id: u64,
    seq: usize,
    after: Seq<char>,
) -> bool {
    &&& line == before + message_text(id, seq) + after
    &&& after.len() > 0 ==> !crate::text::is_digit(after[0])
    &&& forall|i: int|
        0 <= i < before.len() ==> !crate::text::occurs_at(line, target_text(id), i)
}

/// Each message is timed from when that very message was sent: one that comes back
/// took the time since its own sending. Where the clock went back there is no
/// sample, and neither for a message that was never sent.
pub proof fn law_messages_are_timed_from_their_own_sending(
    line: Seq<char>,
    before: Seq<char>,
    id: u64,
    seq: usize,
    after: Seq<char>,
    sent_at: Seq<u64>,
    recv_ts: u64,
)
    requires
        is_line_of(line, before, id, seq, after),
    ensures
        ({
            let sample = round_trip(line, target_text(id), sent_at, recv_ts);
            &&& seq < sent_at.len() && recv_ts >= sent_at[seq as int] ==> sample is Some
                && sent_at[seq as int] + sample->0 == recv_ts
            &&& seq < sent_at.len() && recv_ts < sent_at[seq as int] ==> sample is None
            &&& seq >= sent_at.len() ==> sample is None
        }),
{
    law_own_messages_are_numbered(before, id, seq, after);
}

/// A line without the bot's own text, or without a number behind it, gives no
/// number and no sample.
pub proof fn law_other_lines_are_not_timed(
    line: Seq<char>,
    target: Seq<char>,
    sent_at: Seq<u64>,
    recv_ts: u64,
)
    ensures
        !crate::text::has(line, target) ==> seq_in(line, target) is None && round_trip(
            line,
            target,
            sent_at,
            recv_ts,
        ) is None,
        forall|i: int| #[trigger]
            crate::text::occurs_at(line, target, i) && (forall|j: int|
                0 <= j < i ==> !crate::text::occurs_at(line, target, j)) && (i + target.len()
                == line.len() || !crate::text::is_digit(line[i + target.len()])) ==> seq_in(
                line,
                target,
            ) is None && round_trip(line, target, sent_at, recv_ts) is None,
{
    crate::text::lemma_find_from(line, target, 0);
    assert forall|i: int| #[trigger]
        crate::text::occurs_at(line, target, i) && (forall|j: int|
            0 <= j < i ==> !crate::text::occurs_at(line, target, j)) && (i + target.len()
            == line.len() || !crate::text::is_digit(line[i + target.len()])) implies seq_in(
        line,
        target,
    ) is None && round_trip(line, target, sent_at, recv_ts) is None by {
        let found = crate::text::find_from(line, target, 0);
        assert(found == Some(i));
        let rest = line.skip(i + target.len());
        if rest.len() > 0 {
            assert(rest[0] == line[i + target.len()]);
        }
        assert(crate::text::digit_run(rest) == 0);
        assert(rest.take(0).len() == 0);
    }
}

/// A bot's messages are named by the bot and by their number, and by nothing else:
/// those of one bot differ by number.
pub proof fn law_messages_are_named_by_bot_and_number(id: u64, seq: usize, other: usize)
    ensures
        message_text(id, seq) == "bot_"@ + crate::text::decimal(id as nat) + "_msg_"@
            + crate::text::decimal(seq as nat),
        message_text(id, seq) == message_text(id, other) ==> seq == other,
{
    if message_text(id, seq) == message_text(id, other) {
        let t = target_text(id);
        assert(message_text(id, seq).skip(t.len() as int) =~= crate::text::decimal(seq as nat));
        assert(message_text(id, other).skip(t.len() as int) =~= crate::text::decimal(
            other as nat,
        ));
        crate::text::lemma_decimal_injective(seq as nat, other as nat);
    }
}

/// Lines are counted by what they hold: as many as are among `lines` at positions
/// that hold the text.
pub proof fn law_matching_lines_are_a_head_count(lines: Seq<Seq<char>>, target: Seq<char>)
    ensures
        ({
            let hits = Set::new(
                |i: int| 0 <= i < lines.len() && crate::text::has(lines[i], target),
            );
            hits.finite() && hits.len() == matching(lines, target)
        }),
    decreases lines.len(),
{
    let hits = Set::new(|i: int| 0 <= i < lines.len() && crate::text::has(lines[i], target));
    if lines.len() == 0 {
        assert(hits =~= Set::empty());
    } else {
        let front = lines.drop_last();
        let n = lines.len() - 1;
        let before = Set::new(|i: int| 0 <= i < front.len() && crate::text::has(front[i], target));
        law_matching_lines_are_a_head_count(front, target);
        assert forall|i: int| 0 <= i < n implies front[i] == lines[i] by {}
        if crate::text::has(lines[n], target) {
            assert(hits =~= before.insert(n));
        } else {
            assert(hits =~= before);
        }
    }
}

/// The wait is over with the last message that was waited for, and with the first
/// one where none was waited for; not before.
pub proof fn law_the_wait_ends_with_the_last_message(counter: EchoCounter)
    ensures
        counter.expected() > 0 ==> counter.complete() == (counter.count() >= counter.expected()),
        counter.expected() == 0 ==> counter.complete() == (counter.count() >= 1),
{
}

} // verus!
