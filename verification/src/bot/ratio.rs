//! The kinds of bots, and the grammar in which their mix is written.
use vstd::prelude::*;
use vstd::slice::slice_subrange;

use crate::text::{chars_of, position, push_decimal, read_unsigned, split_at_each, str_equal, string_of, trimmed};

verus! {

/// What a bot does.
#[derive(Debug, Clone, Copy, PartialEq, Eq, Hash, Structural)]
pub enum BotType {
    /// Chats, and waits for its own messages to come back.
    Normal,
    /// Changes its vote all the time.
    Fickle,
    /// Floods the room with chat.
    Spammer,
    /// Connects and never reads.
    GhostBot,
    /// Votes and is gone.
    Quitter,
}

/// How many bots of each kind there are for one of another, in the order in
/// which they were named.
#[derive(Debug, Clone, PartialEq, Eq)]
pub struct RatioSpec {
    pub entries: Vec<(BotType, u32)>,
}

// ------------------------------------------------------------ specification

/// The name of a kind of bot.
pub open spec fn bot_name(bot: BotType) -> Seq<char> {
    match bot {
        BotType::Normal => "normal"@,
        BotType::Fickle => "fickle"@,
        BotType::Spammer => "spammer"@,
        BotType::GhostBot => "ghost"@,
        BotType::Quitter => "quitter"@,
    }
}

/// The kind of bot by a name.
pub open spec fn bot_named(name: Seq<char>) -> Option<BotType> {
    if name == "normal"@ {
        Some(BotType::Normal)
    } else if name == "fickle"@ {
        Some(BotType::Fickle)
    } else if name == "spammer"@ {
        Some(BotType::Spammer)
    } else if name == "ghost"@ {
        Some(BotType::GhostBot)
    } else if name == "quitter"@ {
        Some(BotType::Quitter)
    } else {
        None
    }
}

/// What is said of a name that no kind of bot has.
pub open spec fn unknown_type_text(name: Seq<char>) -> Seq<char> {
    "유효하지 않은 봇 타입: '"@ + name + "'"@
}

/// What is said of an empty mix.
pub open spec fn empty_text() -> Seq<char> {
    "비율 문자열이 비어 있습니다"@
}

/// What is said of an entry without a colon.
pub open spec fn bad_format_text(part: Seq<char>) -> Seq<char> {
    "잘못된 형식: '"@ + part + "' ('타입:숫자' 형식이어야 합니다)"@
}

/// What is said of a ratio that is not a number.
pub open spec fn bad_number_text(ratio: Seq<char>) -> Seq<char> {
    "비율 값이 유효한 숫자가 아닙니다: '"@ + ratio + "'"@
}

/// What is said of a ratio of zero.
pub open spec fn zero_ratio_text(name: Seq<char>) -> Seq<char> {
    "비율 값은 1 이상이어야 합니다: '"@ + name + ":0'"@
}

/// One entry of a mix, `type:number`: the kind and its ratio, or what is wrong
/// with it.
pub open spec fn parse_entry(raw: Seq<char>) -> Result<(BotType, u32), Seq<char>> {
    let part = crate::text::trim(raw);
    let colon = crate::text::first_index(part, ':');
    if colon >= part.len() {
        Err(bad_format_text(part))
    } else {
        let name = crate::text::trim(part.take(colon));
        let ratio = crate::text::trim(part.skip(colon + 1));
        match bot_named(name) {
            None => Err(unknown_type_text(name)),
            Some(bot) => match crate::text::read_number(ratio, u32::MAX as nat) {
                None => Err(bad_number_text(ratio)),
                Some(n) => if n == 0 {
                    Err(zero_ratio_text(name))
                } else {
                    Ok((bot, n as u32))
                },
            },
        }
    }
}

/// The entries of a mix, or what is wrong with the first that is wrong.
pub open spec fn parse_entries(parts: Seq<Seq<char>>) -> Result<Seq<(BotType, u32)>, Seq<char>>
    decreases parts.len(),
{
    if parts.len() == 0 {
        Ok(Seq::empty())
    } else {
        match parse_entries(parts.drop_last()) {
            Err(text) => Err(text),
            Ok(entries) => match parse_entry(parts.last()) {
                Err(text) => Err(text),
                Ok(entry) => Ok(entries.push(entry)),
            },
        }
    }
}

/// A mix, `type:number,type:number,...`, with white space around each of its
/// parts.
pub open spec fn parse_ratio(s: Seq<char>) -> Result<Seq<(BotType, u32)>, Seq<char>> {
    let mix = crate::text::trim(s);
    if mix.len() == 0 {
        Err(empty_text())
    } else {
        parse_entries(crate::text::split(mix, ','))
    }
}

/// An entry as it is written.
pub open spec fn entry_text(entry: (BotType, u32)) -> Seq<char> {
    bot_name(entry.0) + ":"@ + crate::text::decimal(entry.1 as nat)
}

/// A mix as it is written.
pub open spec fn ratio_text(entries: Seq<(BotType, u32)>) -> Seq<char> {
    crate::text::join(Seq::new(entries.len(), |i: int| entry_text(entries[i])), ","@)
}

// ---------------------------------------------------------------- functions

/// `before`, `middle` and `after` in a row.
fn quoted(before: &str, middle: &[char], after: &str) -> (s: String)
    ensures
        s@ == before@ + middle@ + after@,
{
    let mut s = before.to_owned();
    s.append(string_of(middle).as_str());
    s.append(after);
    s
}

impl BotType {
    /// The kind of bot by a name.
    pub fn from_str(s: &str) -> (r: Result<Self, String>)
        ensures
            match bot_named(s@) {
                Some(bot) => r == Ok::<BotType, String>(bot),
                None => r matches Err(text) && text@ == unknown_type_text(s@),
            },
    {
        if str_equal(s, "normal") {
            Ok(BotType::Normal)
        } else if str_equal(s, "fickle") {
            Ok(BotType::Fickle)
        } else if str_equal(s, "spammer") {
            Ok(BotType::Spammer)
        } else if str_equal(s, "ghost") {
            Ok(BotType::GhostBot)
        } else if str_equal(s, "quitter") {
            Ok(BotType::Quitter)
        } else {
            Err(quoted("유효하지 않은 봇 타입: '", chars_of(s).as_slice(), "'"))
        }
    }

    /// The name of a kind of bot.
    pub fn as_str(&self) -> (s: &'static str)
        ensures
            s@ == bot_name(*self),
    {
        match self {
            BotType::Normal => "normal",
            BotType::Fickle => "fickle",
            BotType::Spammer => "spammer",
            BotType::GhostBot => "ghost",
            BotType::Quitter => "quitter",
        }
    }
}

/// Reads one entry.
fn read_entry(raw: &[char]) -> (r: Result<(BotType, u32), String>)
    ensures
        match parse_entry(raw@) {
            Ok(entry) => r == Ok::<(BotType, u32), String>(entry),
            Err(text) => r matches Err(t) && t@ == text,
        },
{
    let part = trimmed(raw);
    let colon = position(part, ':');
    proof {
        crate::text::lemma_first_index(part@, ':');
    }
    if colon >= part.len() {
        return Err(quoted("잘못된 형식: '", part, "' ('타입:숫자' 형식이어야 합니다)"));
    }
    let name = trimmed(slice_subrange(part, 0, colon));
    let ratio = trimmed(slice_subrange(part, colon + 1, part.len()));
    assert(part@.subrange(0, colon as int) == part@.take(colon as int));
    assert(part@.subrange(colon + 1, part@.len() as int) == part@.skip(colon + 1));
    let bot = match BotType::from_str(string_of(name).as_str()) {
        Ok(bot) => bot,
        Err(text) => {
            return Err(text);
        },
    };
    match read_unsigned(ratio, u32::MAX as u64) {
        None => Err(quoted("비율 값이 유효한 숫자가 아닙니다: '", ratio, "'")),
        Some(n) => if n == 0 {
            Err(quoted("비율 값은 1 이상이어야 합니다: '", name, ":0'"))
        } else {
            Ok((bot, n as u32))
        },
    }
}

impl RatioSpec {
    /// The mix that is run where none is asked for.
    pub const DEFAULT: &'static str = "normal:40,spammer:20,fickle:20,ghost:10,quitter:10";

    /// Reads a mix, such as
    /// `normal:40,spammer:20,fickle:20,ghost:10,quitter:10`.
    pub fn parse(s: &str) -> (r: Result<Self, String>)
        ensures
            match parse_ratio(s@) {
                Ok(entries) => r matches Ok(spec) && spec.entries@ == entries,
                Err(text) => r matches Err(t) && t@ == text,
            },
    {
        let all = chars_of(s);
        let mix = trimmed(all.as_slice());
        if mix.len() == 0 {
            return Err("비율 문자열이 비어 있습니다".to_owned());
        }
        let parts = split_at_each(mix, ',');
        let ghost texts = crate::text::split(mix@, ',');
        let mut entries: Vec<(BotType, u32)> = Vec::new();
        let mut i: usize = 0;
        while i < parts.len()
            invariant
                i <= parts@.len(),
                parts@.len() == texts.len(),
                forall|k: int| 0 <= k < parts@.len() ==> (#[trigger] parts@[k])@ == texts[k],
                parse_entries(texts.take(i as int)) == Ok::<Seq<(BotType, u32)>, Seq<char>>(
                    entries@,
                ),
                parse_ratio(s@) == parse_entries(texts),
            decreases parts@.len() - i,
        {
            proof {
                assert(texts.take(i + 1).drop_last() == texts.take(i as int));
            }
            match read_entry(parts[i].as_slice()) {
                Ok(entry) => entries.push(entry),
                Err(text) => {
                    proof {
                        lemma_first_error_stands(texts, i + 1);
                    }
                    return Err(text);
                },
            }
            i = i + 1;
        }
        assert(texts.take(texts.len() as int) == texts);
        Ok(RatioSpec { entries })
    }

    /// The mix as `parse` reads it.
    pub fn to_string(&self) -> (s: String)
        ensures
            s@ == ratio_text(self.entries@),
    {
        let mut s = String::new();
        let ghost texts = Seq::new(
            self.entries@.len(),
            |i: int| entry_text(self.entries@[i]),
        );
        let mut i: usize = 0;
        while i < self.entries.len()
            invariant
                i <= self.entries@.len(),
                texts == Seq::new(self.entries@.len(), |i: int| entry_text(self.entries@[i])),
                s@ == crate::text::join(texts.take(i as int), ","@),
            decreases self.entries@.len() - i,
        {
            proof {
                assert(texts.take(i + 1).drop_last() == texts.take(i as int));
                assert(texts.take(i + 1).last() == entry_text(self.entries@[i as int]));
            }
            let ghost before = s@;
            if i > 0 {
                s.append(",");
            }
            let (bot, ratio) = self.entries[i];
            s.append(bot.as_str());
            s.append(":");
            push_decimal(&mut s, ratio as u64);
            proof {
                let sep = if i > 0 { ","@ } else { Seq::<char>::empty() };
                assert(s@ =~= before + sep + entry_text(self.entries@[i as int]));
            }
            i = i + 1;
        }
        assert(texts.take(texts.len() as int) == texts);
        s
    }
}

/// An entry that is wrong is not mended by those behind it.
proof fn lemma_first_error_stands(parts: Seq<Seq<char>>, i: int)
    requires
        0 <= i <= parts.len(),
        parse_entries(parts.take(i)) is Err,
    ensures
        parse_entries(parts) == parse_entries(parts.take(i)),
    decreases parts.len() - i,
{
    if i == parts.len() {
        assert(parts.take(i) == parts);
    } else {
        assert(parts.take(i + 1).drop_last() == parts.take(i));
        lemma_first_error_stands(parts, i + 1);
    }
}

// --------------------------------------------------------------------- laws

/// Every kind of bot is found by its name.
pub proof fn law_bot_names_round_trip(bot: BotType)
    ensures
        bot_named(bot_name(bot)) == Some(bot),
{
    reveal_strlit("normal");
    reveal_strlit("fickle");
    reveal_strlit("spammer");
    reveal_strlit("ghost");
    reveal_strlit("quitter");
    match bot {
        BotType::Normal => {},
        BotType::Fickle => {
            assert("fickle"@[0] != "normal"@[0]);
        },
        BotType::Spammer => {
            assert("spammer"@[0] != "normal"@[0]);
            assert("spammer"@[0] != "fickle"@[0]);
        },
        BotType::GhostBot => {
            assert("ghost"@[0] != "normal"@[0]);
            assert("ghost"@[0] != "fickle"@[0]);
            assert("ghost"@[0] != "spammer"@[0]);
        },
        BotType::Quitter => {
            assert("quitter"@[0] != "normal"@[0]);
            assert("quitter"@[0] != "fickle"@[0]);
            assert("quitter"@[0] != "spammer"@[0]);
            assert("quitter"@[0] != "ghost"@[0]);
        },
    }
}

/// The characters of a bot's name are small letters.
proof fn lemma_bot_name_letters(bot: BotType)
    ensures
        bot_name(bot).len() > 0,
        forall|i: int| 0 <= i < bot_name(bot).len() ==> 'a' <= #[trigger] bot_name(bot)[i] <= 'z',
{
    reveal_strlit("normal");
    reveal_strlit("fickle");
    reveal_strlit("spammer");
    reveal_strlit("ghost");
    reveal_strlit("quitter");
}

/// An entry that was written holds neither a comma nor white space.
proof fn lemma_entry_text_plain(entry: (BotType, u32))
    ensures
        entry_text(entry).len() > 0,
        forall|i: int|
            0 <= i < entry_text(entry).len() ==> !crate::text::is_space(
                #[trigger] entry_text(entry)[i],
            ) && entry_text(entry)[i] != ',',
{
    reveal_strlit(":");
    lemma_bot_name_letters(entry.0);
    crate::text::lemma_decimal_digits(entry.1 as nat);
    let name = bot_name(entry.0);
    let digits = crate::text::decimal(entry.1 as nat);
    assert forall|i: int| 0 <= i < entry_text(entry).len() implies !crate::text::is_space(
        #[trigger] entry_text(entry)[i],
    ) && entry_text(entry)[i] != ',' by {
        if i < name.len() {
            assert('a' <= name[i] <= 'z');
        } else if i > name.len() {
            assert(crate::text::is_digit(digits[i - name.len() - 1]));
        }
    }
}

/// An entry that was written is read back.
proof fn lemma_entry_round_trip(entry: (BotType, u32))
    requires
        entry.1 > 0,
    ensures
        parse_entry(entry_text(entry)) == Ok::<(BotType, u32), Seq<char>>(entry),
{
    reveal_strlit(":");
    let part = entry_text(entry);
    let name = bot_name(entry.0);
    let digits = crate::text::decimal(entry.1 as nat);
    lemma_entry_text_plain(entry);
    crate::text::lemma_trim_spaceless(part);
    lemma_bot_name_letters(entry.0);
    assert forall|i: int| 0 <= i < name.len() implies #[trigger] part[i] != ':' by {
        assert(part[i] == name[i]);
    }
    crate::text::lemma_first_index_is(part, ':', name.len() as int);
    assert(part.take(name.len() as int) =~= name);
    assert(part.skip((name.len() + 1) as int) =~= digits);
    assert forall|i: int| 0 <= i < name.len() implies !crate::text::is_space(#[trigger] name[i]) by {
        assert('a' <= name[i] <= 'z');
    }
    crate::text::lemma_trim_spaceless(name);
    crate::text::lemma_decimal_digits(entry.1 as nat);
    assert forall|i: int| 0 <= i < digits.len() implies !crate::text::is_space(
        #[trigger] digits[i],
    ) by {
        assert(crate::text::is_digit(digits[i]));
    }
    crate::text::lemma_trim_spaceless(digits);
    law_bot_names_round_trip(entry.0);
    crate::text::lemma_read_decimal(entry.1 as nat, u32::MAX as nat);
}

proof fn lemma_entries_round_trip(entries: Seq<(BotType, u32)>)
    requires
        forall|i: int| 0 <= i < entries.len() ==> (#[trigger] entries[i]).1 > 0,
    ensures
        parse_entries(Seq::new(entries.len(), |i: int| entry_text(entries[i]))) == Ok::<
            Seq<(BotType, u32)>,
            Seq<char>,
        >(entries),
    decreases entries.len(),
{
    let texts = Seq::new(entries.len(), |i: int| entry_text(entries[i]));
    if entries.len() == 0 {
        assert(entries == Seq::<(BotType, u32)>::empty());
    } else {
        let front = entries.drop_last();
        lemma_entries_round_trip(front);
        assert(texts.drop_last() =~= Seq::new(front.len(), |i: int| entry_text(front[i])));
        lemma_entry_round_trip(entries.last());
        assert(front.push(entries.last()) == entries);
    }
}

/// Joined text holds only characters of its parts and of the separator.
proof fn lemma_join_spaceless(parts: Seq<Seq<char>>, sep: Seq<char>)
    requires
        forall|i: int, k: int|
            0 <= i < parts.len() && 0 <= k < parts[i].len() ==> !crate::text::is_space(
                #[trigger] parts[i][k],
            ),
        forall|k: int| 0 <= k < sep.len() ==> !crate::text::is_space(#[trigger] sep[k]),
    ensures
        forall|k: int|
            0 <= k < crate::text::join(parts, sep).len() ==> !crate::text::is_space(
                #[trigger] crate::text::join(parts, sep)[k],
            ),
    decreases parts.len(),
{
    if parts.len() > 1 {
        let front = parts.drop_last();
        assert forall|i: int, k: int|
            0 <= i < front.len() && 0 <= k < front[i].len() implies !crate::text::is_space(
            #[trigger] front[i][k],
        ) by {
            assert(front[i][k] == parts[i][k]);
        }
        lemma_join_spaceless(front, sep);
        let head = crate::text::join(front, sep);
        let last = parts.last();
        assert forall|k: int| 0 <= k < crate::text::join(parts, sep).len() implies
            !crate::text::is_space(#[trigger] crate::text::join(parts, sep)[k]) by {
            if k < head.len() {
            } else if k < head.len() + sep.len() {
                assert(sep[k - head.len()] == crate::text::join(parts, sep)[k]);
            } else {
                assert(parts[parts.len() - 1][k - head.len() - sep.len()]
                    == crate::text::join(parts, sep)[k]);
            }
        }
    } else if parts.len() == 1 {
        assert forall|k: int| 0 <= k < crate::text::join(parts, sep).len() implies
            !crate::text::is_space(#[trigger] crate::text::join(parts, sep)[k]) by {
            assert(parts[0][k] == crate::text::join(parts, sep)[k]);
        }
    }
}

/// A mix that was written is read back, entry by entry and in order.
pub proof fn law_ratio_round_trips(entries: Seq<(BotType, u32)>)
    requires
        entries.len() > 0,
        forall|i: int| 0 <= i < entries.len() ==> (#[trigger] entries[i]).1 > 0,
    ensures
        parse_ratio(ratio_text(entries)) == Ok::<Seq<(BotType, u32)>, Seq<char>>(entries),
{
    reveal_strlit(",");
    let texts = Seq::new(entries.len(), |i: int| entry_text(entries[i]));
    let mix = ratio_text(entries);
    assert(","@ =~= seq![',']);
    assert forall|i: int| 0 <= i < texts.len() implies !(#[trigger] texts[i]).contains(',') by {
        lemma_entry_text_plain(entries[i]);
    }
    crate::text::lemma_split_join(texts, ',');
    assert forall|i: int, k: int|
        0 <= i < texts.len() && 0 <= k < texts[i].len() implies !crate::text::is_space(
        #[trigger] texts[i][k],
    ) by {
        lemma_entry_text_plain(entries[i]);
    }
    lemma_join_spaceless(texts, ","@);
    crate::text::lemma_trim_spaceless(mix);
    lemma_entries_round_trip(entries);
    if mix.len() == 0 {
        assert(crate::text::split(mix, ',') == seq![Seq::<char>::empty()]);
        assert(texts[0].len() == 0);
        lemma_entry_text_plain(entries[0]);
    }
}

/// Whatever is read, every ratio in it is at least one, and there is an entry
/// for each part between the commas.
pub proof fn law_parsed_ratios_are_positive(parts: Seq<Seq<char>>)
    ensures
        parse_entries(parts) matches Ok(entries) ==> entries.len() == parts.len() && forall|i: int|
            0 <= i < entries.len() ==> (#[trigger] entries[i]).1 > 0,
    decreases parts.len(),
{
    if parts.len() > 0 {
        law_parsed_ratios_are_positive(parts.drop_last());
    }
}

/// One wrong entry is enough for a mix to be rejected: no colon, a name that no
/// kind of bot has, a ratio that is no number, or a ratio of zero.
pub proof fn law_wrong_entries_are_rejected(parts: Seq<Seq<char>>, i: int)
    requires
        0 <= i < parts.len(),
        parse_entry(parts[i]) is Err,
    ensures
        parse_entries(parts) is Err,
    decreases parts.len(),
{
    if i < parts.len() - 1 {
        law_wrong_entries_are_rejected(parts.drop_last(), i);
    }
}

/// Where all entries are right, the mix is those entries, in order; where some are
/// wrong, the first wrong one is what is reported.
pub proof fn law_entries_are_read_from_the_left(parts: Seq<Seq<char>>, i: int)
    ensures
        (forall|k: int| 0 <= k < parts.len() ==> parse_entry(#[trigger] parts[k]) is Ok) ==> {
            &&& parse_entries(parts) matches Ok(entries)
            &&& entries.len() == parts.len()
            &&& forall|k: int|
                0 <= k < parts.len() ==> parse_entry(parts[k]) == Ok::<
                    (BotType, u32),
                    Seq<char>,
                >(#[trigger] entries[k])
        },
        0 <= i < parts.len() && parse_entry(parts[i]) is Err && (forall|k: int|
            0 <= k < i ==> parse_entry(#[trigger] parts[k]) is Ok) ==> parse_entries(parts) == Err::<
            Seq<(BotType, u32)>,
            Seq<char>,
        >(parse_entry(parts[i])->Err_0),
    decreases parts.len(),
{
    if parts.len() > 0 {
        let front = parts.drop_last();
        law_entries_are_read_from_the_left(front, i);
        assert(forall|k: int| 0 <= k < front.len() ==> #[trigger] front[k] == parts[k]);
        assert(parts[parts.len() - 1] == parts.last());
    }
}

/// `s` is free of white space.
pub open spec fn spaceless(s: Seq<char>) -> bool {
    forall|i: int| 0 <= i < s.len() ==> !crate::text::is_space(#[trigger] s[i])
}

/// `s` is nothing but white space.
pub open spec fn blank(s: Seq<char>) -> bool {
    forall|i: int| 0 <= i < s.len() ==> crate::text::is_space(#[trigger] s[i])
}

/// How an entry `name:ratio` is taken apart, with or without white space around
/// its two sides.
proof fn lemma_entry_parts(
    a: Seq<char>,
    name: Seq<char>,
    b: Seq<char>,
    c: Seq<char>,
    ratio: Seq<char>,
    d: Seq<char>,
)
    requires
        blank(a),
        blank(b),
        blank(c),
        blank(d),
        spaceless(name),
        spaceless(ratio),
        name.len() > 0,
        ratio.len() > 0,
        !name.contains(':'),
    ensures
        ({
            let part = crate::text::trim(a + (name + b + seq![':'] + c + ratio) + d);
            let colon = crate::text::first_index(part, ':');
            &&& colon < part.len()
            &&& crate::text::trim(part.take(colon)) == name
            &&& crate::text::trim(part.skip(colon + 1)) == ratio
        }),
{
    let core = name + b + seq![':'] + c + ratio;
    assert(core[0] == name[0]);
    assert(core.last() == ratio[ratio.len() - 1]);
    crate::text::lemma_trim_padded(a, core, d);
    let k = (name + b).len() as int;
    assert forall|i: int| 0 <= i < k implies #[trigger] core[i] != ':' by {
        if i < name.len() {
            assert(core[i] == name[i]);
        } else {
            assert(core[i] == b[i - name.len()]);
        }
    }
    assert(core[k] == ':');
    crate::text::lemma_first_index_is(core, ':', k);
    let none = Seq::<char>::empty();
    assert(core.take(k) =~= none + name + b);
    assert(core.skip(k + 1) =~= c + ratio + none);
    crate::text::lemma_trim_padded(none, name, b);
    crate::text::lemma_trim_padded(c, ratio, none);
}

/// White space around an entry, and around the two sides of its colon, makes no
/// difference.
pub proof fn law_white_space_makes_no_difference(
    a: Seq<char>,
    b: Seq<char>,
    c: Seq<char>,
    d: Seq<char>,
    name: Seq<char>,
    ratio: Seq<char>,
)
    requires
        blank(a),
        blank(b),
        blank(c),
        blank(d),
        spaceless(name),
        spaceless(ratio),
        name.len() > 0,
        ratio.len() > 0,
        !name.contains(':'),
    ensures
        parse_entry(a + (name + b + seq![':'] + c + ratio) + d) == parse_entry(
            name + seq![':'] + ratio,
        ),
{
    let none = Seq::<char>::empty();
    lemma_entry_parts(a, name, b, c, ratio, d);
    lemma_entry_parts(none, name, none, none, ratio, none);
    assert(none + (name + none + seq![':'] + none + ratio) + none =~= name + seq![':'] + ratio);
}

/// An entry names a kind of bot and a number of at least one, and is read as just
/// these. Each way in which it can be wrong has an answer of its own, which quotes
/// what is wrong: a name that no kind has, a ratio that is no number or too large
/// for one, and a ratio of zero.
pub proof fn law_entries_are_judged(name: Seq<char>, ratio: Seq<char>)
    requires
        spaceless(name),
        spaceless(ratio),
        name.len() > 0,
        ratio.len() > 0,
        !name.contains(':'),
    ensures
        ({
            let entry = parse_entry(name + seq![':'] + ratio);
            let n = crate::text::read_number(ratio, u32::MAX as nat);
            let known = name == "normal"@ || name == "fickle"@ || name == "spammer"@ || name
                == "ghost"@ || name == "quitter"@;
            &&& !known ==> entry == Err::<(BotType, u32), Seq<char>>(
                "유효하지 않은 봇 타입: '"@ + name + "'"@,
            )
            &&& known && n is None ==> entry == Err::<(BotType, u32), Seq<char>>(
                "비율 값이 유효한 숫자가 아닙니다: '"@ + ratio + "'"@,
            )
            &&& known && n == Some(0nat) ==> entry == Err::<(BotType, u32), Seq<char>>(
                "비율 값은 1 이상이어야 합니다: '"@ + name + ":0'"@,
            )
            &&& known && n is Some && n->0 > 0 ==> {
                &&& entry matches Ok((bot, r))
                &&& bot_name(bot) == name
                &&& r == n->0
            }
        }),
{
    let none = Seq::<char>::empty();
    lemma_entry_parts(none, name, none, none, ratio, none);
    assert(none + (name + none + seq![':'] + none + ratio) + none =~= name + seq![':'] + ratio);
    law_bot_names_round_trip(BotType::Normal);
    law_bot_names_round_trip(BotType::Fickle);
    law_bot_names_round_trip(BotType::Spammer);
    law_bot_names_round_trip(BotType::GhostBot);
    law_bot_names_round_trip(BotType::Quitter);
}

/// An entry without a colon is reported as it stands.
pub proof fn law_entries_need_a_colon(part: Seq<char>)
    requires
        spaceless(part),
        !part.contains(':'),
    ensures
        parse_entry(part) == Err::<(BotType, u32), Seq<char>>(
            "잘못된 형식: '"@ + part + "' ('타입:숫자' 형식이어야 합니다)"@,
        ),
{
    crate::text::lemma_trim_spaceless(part);
    crate::text::lemma_first_index_is(part, ':', part.len() as int);
}

/// A mix that is nothing but white space is empty, and reported as such.
pub proof fn law_empty_mixes_are_reported(s: Seq<char>)
    requires
        blank(s),
    ensures
        parse_ratio(s) == Err::<Seq<(BotType, u32)>, Seq<char>>("비율 문자열이 비어 있습니다"@),
    decreases s.len(),
{
    lemma_blank_is_trimmed_away(s);
}

proof fn lemma_blank_is_trimmed_away(s: Seq<char>)
    requires
        blank(s),
    ensures
        crate::text::trim_front(s).len() == 0,
    decreases s.len(),
{
    if s.len() > 0 {
        let rest = s.drop_first();
        assert forall|i: int| 0 <= i < rest.len() implies crate::text::is_space(
            #[trigger] rest[i],
        ) by {
            assert(s[i + 1] == rest[i]);
        }
        lemma_blank_is_trimmed_away(rest);
        assert(crate::text::is_space(s[0]));
    }
}

/// A mix is read entry by entry between its commas.
pub proof fn law_mixes_are_read_between_commas(parts: Seq<Seq<char>>)
    requires
        parts.len() > 0,
        forall|i: int|
            0 <= i < parts.len() ==> spaceless(#[trigger] parts[i]) && !parts[i].contains(','),
        parts.len() > 1 || parts[0].len() > 0,
    ensures
        parse_ratio(crate::text::join(parts, seq![','])) == parse_entries(parts),
{
    let mix = crate::text::join(parts, seq![',']);
    assert forall|i: int| 0 <= i < parts.len() implies !(#[trigger] parts[i]).contains(',') by {}
    crate::text::lemma_split_join(parts, ',');
    assert forall|i: int, k: int|
        0 <= i < parts.len() && 0 <= k < parts[i].len() implies !crate::text::is_space(
        #[trigger] parts[i][k],
    ) by {
        assert(spaceless(parts[i]));
    }
    lemma_join_spaceless(parts, seq![',']);
    crate::text::lemma_trim_spaceless(mix);
    if mix.len() == 0 {
        assert(crate::text::split(mix, ',') == seq![Seq::<char>::empty()]);
    }
}

/// An unknown name is quoted as it was given.
pub proof fn law_unknown_names_are_quoted(name: Seq<char>)
    requires
        name != "normal"@,
        name != "fickle"@,
        name != "spammer"@,
        name != "ghost"@,
        name != "quitter"@,
    ensures
        bot_named(name) is None,
        unknown_type_text(name) == "유효하지 않은 봇 타입: '"@ + name + "'"@,
{
}

/// A mix is written entry by entry, each as its name, a colon and its ratio, with a
/// comma between neighbours.
pub proof fn law_mixes_are_written_entry_by_entry(
    entries: Seq<(BotType, u32)>,
    entry: (BotType, u32),
)
    ensures
        entry_text(entry) == bot_name(entry.0) + ":"@ + crate::text::decimal(entry.1 as nat),
        ratio_text(Seq::empty()).len() == 0,
        entries.len() == 0 ==> ratio_text(entries.push(entry)) == entry_text(entry),
        entries.len() > 0 ==> ratio_text(entries.push(entry)) == ratio_text(entries) + ","@
            + entry_text(entry),
{
    let all = entries.push(entry);
    let texts = Seq::new(all.len(), |i: int| entry_text(all[i]));
    assert(texts.drop_last() =~= Seq::new(entries.len(), |i: int| entry_text(entries[i])));
    assert(texts.last() == entry_text(entry));
}

/// The five kinds of bots go by these names.
pub proof fn law_bots_go_by_their_names(bot: BotType)
    ensures
        bot_name(bot) == match bot {
            BotType::Normal => "normal"@,
            BotType::Fickle => "fickle"@,
            BotType::Spammer => "spammer"@,
            BotType::GhostBot => "ghost"@,
            BotType::Quitter => "quitter"@,
        },
{
}

} // verus!
