//! Characters and decimal numbers: the small vocabulary that the ratio
//! grammar, the bots' message tags and the terminal client are written in.
//!
//! Text is worked on as a sequence of characters, which is also how a string
//! appears in contracts.
use vstd::prelude::*;
use vstd::slice::slice_subrange;

verus! {

// ---------------------------------------------------------------- std items

/// `String::push` appends one character.
pub assume_specification[ String::push ](s: &mut String, c: char)
    ensures
        final(s)@ == old(s)@.push(c),
;

/// `String::pop` takes the last character off and returns it. An empty string
/// stays as it is, and `None` comes back.
pub assume_specification[ String::pop ](s: &mut String) -> (r: Option<char>)
    ensures
        old(s)@.len() == 0 ==> r is None && final(s)@ == old(s)@,
        old(s)@.len() > 0 ==> r == Some(old(s)@.last()) && final(s)@ == old(s)@.drop_last(),
;

// ------------------------------------------------------------ specification

/// The characters with the Unicode property `White_Space`.
pub open spec fn is_space(c: char) -> bool {
    ||| '\u{9}' <= c <= '\u{d}'
    ||| c == '\u{20}'
    ||| c == '\u{85}'
    ||| c == '\u{a0}'
    ||| c == '\u{1680}'
    ||| '\u{2000}' <= c <= '\u{200a}'
    ||| c == '\u{2028}'
    ||| c == '\u{2029}'
    ||| c == '\u{202f}'
    ||| c == '\u{205f}'
    ||| c == '\u{3000}'
}

/// `s` without its leading white space.
pub open spec fn trim_front(s: Seq<char>) -> Seq<char>
    decreases s.len(),
{
    if s.len() > 0 && is_space(s[0]) {
        trim_front(s.drop_first())
    } else {
        s
    }
}

/// `s` without its trailing white space.
pub open spec fn trim_back(s: Seq<char>) -> Seq<char>
    decreases s.len(),
{
    if s.len() > 0 && is_space(s.last()) {
        trim_back(s.drop_last())
    } else {
        s
    }
}

/// `s` without the white space at both ends.
pub open spec fn trim(s: Seq<char>) -> Seq<char> {
    trim_back(trim_front(s))
}

/// The position of the first `c`, or the length of `s` where there is none.
pub open spec fn first_index(s: Seq<char>, c: char) -> int
    decreases s.len(),
{
    if s.len() == 0 || s[0] == c {
        0
    } else {
        1 + first_index(s.drop_first(), c)
    }
}

/// The parts of `s` between the occurrences of `sep`: one more than there are
/// separators.
pub open spec fn split(s: Seq<char>, sep: char) -> Seq<Seq<char>>
    decreases s.len(),
{
    if s.len() == 0 {
        seq![Seq::empty()]
    } else {
        let parts = split(s.drop_last(), sep);
        if s.last() == sep {
            parts.push(Seq::empty())
        } else {
            parts.drop_last().push(parts.last().push(s.last()))
        }
    }
}

/// `parts`, one after the other, with `sep` between neighbours.
pub open spec fn join(parts: Seq<Seq<char>>, sep: Seq<char>) -> Seq<char>
    decreases parts.len(),
{
    if parts.len() == 0 {
        Seq::empty()
    } else if parts.len() == 1 {
        parts[0]
    } else {
        join(parts.drop_last(), sep) + sep + parts.last()
    }
}

/// `needle` stands in `s` at position `i`.
pub open spec fn occurs_at(s: Seq<char>, needle: Seq<char>, i: int) -> bool {
    0 <= i && i + needle.len() <= s.len() && s.subrange(i, i + needle.len()) == needle
}

/// `needle` stands somewhere in `s`.
pub open spec fn has(s: Seq<char>, needle: Seq<char>) -> bool {
    exists|i: int| occurs_at(s, needle, i)
}

/// The first position, from `i` on, at which `needle` stands in `s`.
pub open spec fn find_from(s: Seq<char>, needle: Seq<char>, i: int) -> Option<int>
    decreases s.len() + 1 - i,
{
    if i < 0 || i + needle.len() > s.len() {
        None
    } else if occurs_at(s, needle, i) {
        Some(i)
    } else {
        find_from(s, needle, i + 1)
    }
}

/// An ASCII decimal digit.
pub open spec fn is_digit(c: char) -> bool {
    '0' <= c <= '9'
}

/// The number that a digit stands for.
pub open spec fn digit_value(c: char) -> nat {
    (c as int - '0' as int) as nat
}

/// The digit that stands for `d`.
pub open spec fn digit_char(d: nat) -> char
    recommends
        d < 10,
{
    ('0' as int + d) as char
}

pub open spec fn all_digits(s: Seq<char>) -> bool {
    forall|i: int| 0 <= i < s.len() ==> is_digit(#[trigger] s[i])
}

/// The number of leading digits of `s`.
pub open spec fn digit_run(s: Seq<char>) -> int
    decreases s.len(),
{
    if s.len() > 0 && is_digit(s[0]) {
        1 + digit_run(s.drop_first())
    } else {
        0
    }
}

/// The number that a sequence of digits writes in base ten.
pub open spec fn number(s: Seq<char>) -> nat
    decreases s.len(),
{
    if s.len() == 0 {
        0
    } else {
        number(s.drop_last()) * 10 + digit_value(s.last())
    }
}

/// `s` read as an unsigned number of at most `max`: an optional `+`, then at
/// least one digit and nothing else.
pub open spec fn read_number(s: Seq<char>, max: nat) -> Option<nat> {
    let digits = if s.len() > 1 && s[0] == '+' {
        s.drop_first()
    } else {
        s
    };
    if digits.len() > 0 && all_digits(digits) && number(digits) <= max {
        Some(number(digits))
    } else {
        None
    }
}

/// `n` written in base ten, without leading zeros.
pub open spec fn decimal(n: nat) -> Seq<char>
    decreases n,
{
    if n < 10 {
        seq![digit_char(n)]
    } else {
        decimal(n / 10).push(digit_char(n % 10))
    }
}

// ------------------------------------------------------------------- lemmas

/// Text without white space is its own trimming.
pub proof fn lemma_trim_spaceless(s: Seq<char>)
    requires
        forall|i: int| 0 <= i < s.len() ==> !is_space(#[trigger] s[i]),
    ensures
        trim(s) == s,
{
}

/// White space in front of a text, and behind it, is what trimming takes off.
pub proof fn lemma_trim_padded(before: Seq<char>, s: Seq<char>, after: Seq<char>)
    requires
        forall|i: int| 0 <= i < before.len() ==> is_space(#[trigger] before[i]),
        forall|i: int| 0 <= i < after.len() ==> is_space(#[trigger] after[i]),
        s.len() > 0,
        !is_space(s[0]),
        !is_space(s.last()),
    ensures
        trim(before + s + after) == s,
    decreases before.len() + after.len(),
{
    let all = before + s + after;
    if before.len() > 0 {
        let rest = before.drop_first();
        assert forall|i: int| 0 <= i < rest.len() implies is_space(#[trigger] rest[i]) by {
            assert(before[i + 1] == rest[i]);
        }
        lemma_trim_padded(rest, s, after);
        assert(all[0] == before[0]);
        assert(all.drop_first() =~= rest + s + after);
    } else {
        assert(all =~= s + after);
        assert(all[0] == s[0]);
        assert(trim_front(all) == all);
        lemma_trim_back_padded(s, after);
    }
}

proof fn lemma_trim_back_padded(s: Seq<char>, after: Seq<char>)
    requires
        forall|i: int| 0 <= i < after.len() ==> is_space(#[trigger] after[i]),
        s.len() > 0,
        !is_space(s.last()),
    ensures
        trim_back(s + after) == s,
    decreases after.len(),
{
    let all = s + after;
    if after.len() > 0 {
        assert(all.last() == after.last());
        assert(is_space(after[after.len() - 1]));
        assert(all.drop_last() =~= s + after.drop_last());
        lemma_trim_back_padded(s, after.drop_last());
    } else {
        assert(all =~= s);
    }
}

/// Trimming takes off nothing but white space.
pub proof fn lemma_trim_keeps(s: Seq<char>, k: int)
    requires
        0 <= k < s.len(),
        !is_space(s[k]),
    ensures
        exists|m: int| 0 <= m < trim(s).len() && #[trigger] trim(s)[m] == s[k],
    decreases s.len(),
{
    if is_space(s[0]) {
        assert(s.drop_first()[k - 1] == s[k]);
        lemma_trim_keeps(s.drop_first(), k - 1);
        assert(trim(s) == trim(s.drop_first()));
        let m = choose|m: int|
            0 <= m < trim(s.drop_first()).len() && #[trigger] trim(s.drop_first())[m]
                == s.drop_first()[k - 1];
        assert(trim(s)[m] == s[k]);
    } else {
        assert(trim_front(s) == s);
        lemma_trim_back_keeps(s, k);
        let m = choose|m: int|
            0 <= m < trim_back(s).len() && #[trigger] trim_back(s)[m] == s[k];
        assert(trim(s)[m] == s[k]);
    }
}

proof fn lemma_trim_back_keeps(s: Seq<char>, k: int)
    requires
        0 <= k < s.len(),
        !is_space(s[k]),
    ensures
        exists|m: int| 0 <= m < trim_back(s).len() && #[trigger] trim_back(s)[m] == s[k],
    decreases s.len(),
{
    if is_space(s.last()) {
        assert(s.drop_last()[k] == s[k]);
        lemma_trim_back_keeps(s.drop_last(), k);
        assert(trim_back(s) == trim_back(s.drop_last()));
        let m = choose|m: int|
            0 <= m < trim_back(s.drop_last()).len() && #[trigger] trim_back(s.drop_last())[m]
                == s.drop_last()[k];
        assert(trim_back(s)[m] == s[k]);
    } else {
        assert(trim_back(s)[k] == s[k]);
    }
}

/// What `decimal` writes is all digits.
pub proof fn lemma_decimal_digits(n: nat)
    ensures
        decimal(n).len() > 0,
        all_digits(decimal(n)),
    decreases n,
{
    if n >= 10 {
        lemma_decimal_digits(n / 10);
    }
}

/// Reading back what `decimal` wrote gives the number again.
pub proof fn lemma_decimal_number(n: nat)
    ensures
        number(decimal(n)) == n,
    decreases n,
{
    if n >= 10 {
        lemma_decimal_number(n / 10);
        assert(decimal(n).drop_last() == decimal(n / 10));
    } else {
        assert(decimal(n).drop_last() == Seq::<char>::empty());
        assert(number(decimal(n).drop_last()) == 0);
    }
}

/// Writing a number that fits and reading it back gives the number again.
pub proof fn lemma_read_decimal(n: nat, max: nat)
    requires
        n <= max,
    ensures
        read_number(decimal(n), max) == Some(n),
{
    lemma_decimal_digits(n);
    lemma_decimal_number(n);
    assert(is_digit(decimal(n)[0]));
}

/// Two numbers that are written alike are equal.
pub proof fn lemma_decimal_injective(a: nat, b: nat)
    requires
        decimal(a) == decimal(b),
    ensures
        a == b,
{
    lemma_decimal_number(a);
    lemma_decimal_number(b);
}

/// `first_index` is a position of `c`, and the first one.
pub proof fn lemma_first_index(s: Seq<char>, c: char)
    ensures
        0 <= first_index(s, c) <= s.len(),
        first_index(s, c) < s.len() ==> s[first_index(s, c)] == c,
        forall|i: int| 0 <= i < first_index(s, c) ==> #[trigger] s[i] != c,
    decreases s.len(),
{
    if s.len() > 0 && s[0] != c {
        lemma_first_index(s.drop_first(), c);
        assert forall|i: int| 0 <= i < first_index(s, c) implies #[trigger] s[i] != c by {
            if i > 0 {
                assert(s.drop_first()[i - 1] == s[i]);
            }
        }
    }
}

/// A position of `c` that no other precedes is `first_index`.
pub proof fn lemma_first_index_is(s: Seq<char>, c: char, k: int)
    requires
        0 <= k <= s.len(),
        k < s.len() ==> s[k] == c,
        forall|i: int| 0 <= i < k ==> #[trigger] s[i] != c,
    ensures
        first_index(s, c) == k,
{
    lemma_first_index(s, c);
    let f = first_index(s, c);
    if f < k {
        assert(s[f] != c);
    } else if k < f {
        assert(s[k] != c);
    }
}

/// `digit_run` counts digits, and stops only at a character that is none.
pub proof fn lemma_digit_run(s: Seq<char>)
    ensures
        0 <= digit_run(s) <= s.len(),
        digit_run(s) < s.len() ==> !is_digit(s[digit_run(s)]),
        forall|i: int| 0 <= i < digit_run(s) ==> is_digit(#[trigger] s[i]),
    decreases s.len(),
{
    if s.len() > 0 && is_digit(s[0]) {
        lemma_digit_run(s.drop_first());
        assert forall|i: int| 0 <= i < digit_run(s) implies is_digit(#[trigger] s[i]) by {
            if i > 0 {
                assert(s.drop_first()[i - 1] == s[i]);
            }
        }
    }
}

/// A run of digits that ends at a character that is none is `digit_run`.
pub proof fn lemma_digit_run_is(s: Seq<char>, k: int)
    requires
        0 <= k <= s.len(),
        k < s.len() ==> !is_digit(s[k]),
        forall|i: int| 0 <= i < k ==> is_digit(#[trigger] s[i]),
    ensures
        digit_run(s) == k,
{
    lemma_digit_run(s);
    let f = digit_run(s);
    if f < k {
        assert(is_digit(s[f]));
    } else if k < f {
        assert(is_digit(s[k]));
    }
}

/// `find_from` gives the first occurrence, where there is one.
pub proof fn lemma_find_from(s: Seq<char>, needle: Seq<char>, i: int)
    requires
        0 <= i,
    ensures
        find_from(s, needle, i) matches Some(k) ==> {
            &&& i <= k
            &&& occurs_at(s, needle, k)
            &&& forall|j: int| i <= j < k ==> !occurs_at(s, needle, j)
        },
        find_from(s, needle, i) is None ==> forall|j: int| i <= j ==> !occurs_at(s, needle, j),
    decreases s.len() + 1 - i,
{
    if i + needle.len() <= s.len() && !occurs_at(s, needle, i) {
        lemma_find_from(s, needle, i + 1);
    }
}

/// Splitting never gives an empty list, and no part holds the separator.
pub proof fn lemma_split_parts(s: Seq<char>, sep: char)
    ensures
        split(s, sep).len() > 0,
        forall|i: int| 0 <= i < split(s, sep).len() ==> !(#[trigger] split(s, sep)[i]).contains(sep),
    decreases s.len(),
{
    if s.len() > 0 {
        lemma_split_parts(s.drop_last(), sep);
        let parts = split(s.drop_last(), sep);
        if s.last() != sep {
            let grown = parts.last().push(s.last());
            assert(!parts.last().contains(sep));
            assert forall|k: int| 0 <= k < grown.len() implies grown[k] != sep by {
                if k < parts.last().len() {
                    assert(parts.last()[k] == grown[k]);
                }
            }
        }
    }
}

/// Splitting text that goes on without a separator only makes the last part
/// longer.
pub proof fn lemma_split_append(s: Seq<char>, t: Seq<char>, sep: char)
    requires
        !t.contains(sep),
    ensures
        split(s + t, sep) == split(s, sep).drop_last().push(split(s, sep).last() + t),
    decreases t.len(),
{
    lemma_split_parts(s, sep);
    if t.len() == 0 {
        assert(s + t == s);
        assert(split(s, sep).last() + t == split(s, sep).last());
        assert(split(s, sep).drop_last().push(split(s, sep).last()) == split(s, sep));
    } else {
        let u = t.drop_last();
        assert(!u.contains(sep)) by {
            if u.contains(sep) {
                let k = choose|k: int| 0 <= k < u.len() && u[k] == sep;
                assert(t[k] == sep);
            }
        }
        lemma_split_append(s, u, sep);
        assert((s + t).drop_last() == s + u);
        assert((s + t).last() == t.last());
        assert(t[t.len() - 1] != sep);
        let before = split(s + u, sep);
        assert(before.last().push(t.last()) == split(s, sep).last() + t);
        assert(before.drop_last() == split(s, sep).drop_last());
    }
}

/// Splitting undoes joining, where no part holds the separator.
pub proof fn lemma_split_join(parts: Seq<Seq<char>>, sep: char)
    requires
        parts.len() > 0,
        forall|i: int| 0 <= i < parts.len() ==> !(#[trigger] parts[i]).contains(sep),
    ensures
        split(join(parts, seq![sep]), sep) == parts,
    decreases parts.len(),
{
    let empty = Seq::<char>::empty();
    if parts.len() == 1 {
        lemma_split_append(empty, parts[0], sep);
        assert(empty + parts[0] == parts[0]);
        assert(split(empty, sep) == seq![empty]);
        assert(split(parts[0], sep) == parts);
    } else {
        let front = parts.drop_last();
        lemma_split_join(front, sep);
        let head = join(front, seq![sep]) + seq![sep];
        assert(head.drop_last() == join(front, seq![sep]));
        assert(split(head, sep) == front.push(empty));
        lemma_split_append(head, parts.last(), sep);
        assert(front.push(empty).drop_last() == front);
        assert(front.push(empty).last() + parts.last() == parts.last());
        assert(front.push(parts.last()) == parts);
    }
}

// ---------------------------------------------------------------- functions

/// The characters of a string.
pub fn chars_of(s: &str) -> (v: Vec<char>)
    ensures
        v@ == s@,
{
    let mut v: Vec<char> = Vec::new();
    for c in it: s.chars()
        invariant
            v@ == it.seq().take(it.index() as int),
            it.seq() == s@,
    {
        v.push(c);
    }
    assert(s@.take(s@.len() as int) == s@);
    v
}

/// A string of the given characters.
pub fn string_of(v: &[char]) -> (s: String)
    ensures
        s@ == v@,
{
    let mut s = String::new();
    let mut i: usize = 0;
    while i < v.len()
        invariant
            i <= v@.len(),
            s@ == v@.take(i as int),
        decreases v@.len() - i,
    {
        s.push(v[i]);
        i = i + 1;
    }
    assert(v@.take(v@.len() as int) == v@);
    s
}

/// Whether two strings are the same.
pub fn str_equal(a: &str, b: &str) -> (r: bool)
    ensures
        r == (a@ == b@),
{
    a.to_owned() == b.to_owned()
}

/// Whether a character is white space.
pub fn is_whitespace(c: char) -> (r: bool)
    ensures
        r == is_space(c),
{
    ('\u{9}' <= c && c <= '\u{d}') || c == '\u{20}' || c == '\u{85}' || c == '\u{a0}' || c
        == '\u{1680}' || ('\u{2000}' <= c && c <= '\u{200a}') || c == '\u{2028}' || c == '\u{2029}'
        || c == '\u{202f}' || c == '\u{205f}' || c == '\u{3000}'
}

/// The text without the white space at both ends.
pub fn trimmed(v: &[char]) -> (r: &[char])
    ensures
        r@ == trim(v@),
{
    let mut start: usize = 0;
    assert(v@.skip(0) == v@);
    while start < v.len() && is_whitespace(v[start])
        invariant
            start <= v@.len(),
            trim_front(v@) == trim_front(v@.skip(start as int)),
        decreases v@.len() - start,
    {
        assert(v@.skip(start as int).drop_first() == v@.skip(start + 1));
        start = start + 1;
    }
    let mut end: usize = v.len();
    assert(v@.skip(start as int) == v@.subrange(start as int, end as int));
    while start < end && is_whitespace(v[end - 1])
        invariant
            start <= end <= v@.len(),
            trim(v@) == trim_back(v@.subrange(start as int, end as int)),
        decreases end - start,
    {
        assert(v@.subrange(start as int, end as int).drop_last() == v@.subrange(
            start as int,
            end - 1,
        ));
        end = end - 1;
    }
    slice_subrange(v, start, end)
}

/// The position of the first `c`, or the length where there is none.
pub fn position(v: &[char], c: char) -> (k: usize)
    ensures
        k == first_index(v@, c),
{
    let mut k: usize = 0;
    while k < v.len() && v[k] != c
        invariant
            k <= v@.len(),
            forall|i: int| 0 <= i < k ==> #[trigger] v@[i] != c,
        decreases v@.len() - k,
    {
        k = k + 1;
    }
    proof {
        lemma_first_index_is(v@, c, k as int);
    }
    k
}

/// Whether `needle` stands in `v` at position `i`.
fn stands_at(v: &[char], needle: &[char], i: usize) -> (r: bool)
    requires
        i + needle@.len() <= v@.len(),
    ensures
        r == occurs_at(v@, needle@, i as int),
{
    let total: usize = v.len();
    let mut k: usize = 0;
    while k < needle.len()
        invariant
            k <= needle@.len(),
            total == v@.len(),
            i + needle@.len() <= v@.len(),
            forall|j: int| 0 <= j < k ==> v@[i + j] == needle@[j],
        decreases needle@.len() - k,
    {
        if v[i + k] != needle[k] {
            assert(v@.subrange(i as int, i + needle@.len())[k as int] != needle@[k as int]);
            return false;
        }
        k = k + 1;
    }
    assert(v@.subrange(i as int, i + needle@.len()) == needle@);
    true
}

/// The first position at which `needle` stands in `v`.
pub fn find(v: &[char], needle: &[char]) -> (r: Option<usize>)
    ensures
        r is Some == find_from(v@, needle@, 0) is Some,
        r matches Some(k) ==> find_from(v@, needle@, 0) == Some(k as int) && k + needle@.len()
            <= v@.len(),
{
    let mut i: usize = 0;
    while i <= v.len() && needle.len() <= v.len() - i
        invariant
            i <= v@.len() + 1,
            find_from(v@, needle@, 0) == find_from(v@, needle@, i as int),
        decreases v@.len() + 1 - i,
    {
        if stands_at(v, needle, i) {
            return Some(i);
        }
        if i == v.len() {
            assert(find_from(v@, needle@, i + 1) is None);
            return None;
        }
        i = i + 1;
    }
    None
}

/// Whether `needle` stands somewhere in `v`.
pub fn contains(v: &[char], needle: &[char]) -> (r: bool)
    ensures
        r == has(v@, needle@),
{
    proof {
        lemma_find_from(v@, needle@, 0);
    }
    find(v, needle).is_some()
}

/// Whether a character is an ASCII decimal digit.
pub fn is_ascii_digit(c: char) -> (r: bool)
    ensures
        r == is_digit(c),
{
    '0' <= c && c <= '9'
}

/// The number of leading digits.
pub fn leading_digits(v: &[char]) -> (k: usize)
    ensures
        k == digit_run(v@),
        k <= v@.len(),
{
    let mut k: usize = 0;
    while k < v.len() && is_ascii_digit(v[k])
        invariant
            k <= v@.len(),
            forall|i: int| 0 <= i < k ==> is_digit(#[trigger] v@[i]),
        decreases v@.len() - k,
    {
        k = k + 1;
    }
    proof {
        lemma_digit_run_is(v@, k as int);
    }
    k
}

/// Reading more digits never makes the number smaller.
proof fn lemma_number_monotone(s: Seq<char>, i: int)
    requires
        0 <= i <= s.len(),
    ensures
        number(s.take(i)) <= number(s),
    decreases s.len() - i,
{
    if i == s.len() {
        assert(s.take(i) == s);
    } else {
        lemma_number_monotone(s, i + 1);
        assert(s.take(i + 1).drop_last() == s.take(i));
    }
}

/// Reads an unsigned number of at most `max`, as the numeric types of std do.
pub fn read_unsigned(v: &[char], max: u64) -> (r: Option<u64>)
    ensures
        r is Some == read_number(v@, max as nat) is Some,
        r matches Some(n) ==> read_number(v@, max as nat) == Some(n as nat) && n <= max,
{
    let digits = if v.len() > 1 && v[0] == '+' {
        slice_subrange(v, 1, v.len())
    } else {
        v
    };
    let ghost text = if v@.len() > 1 && v@[0] == '+' {
        v@.drop_first()
    } else {
        v@
    };
    assert(digits@ == text);
    if digits.len() == 0 {
        return None;
    }
    let mut n: u64 = 0;
    let mut i: usize = 0;
    assert(digits@.take(0) == Seq::<char>::empty());
    while i < digits.len()
        invariant
            i <= digits@.len(),
            forall|k: int| 0 <= k < i ==> is_digit(#[trigger] digits@[k]),
            n == number(digits@.take(i as int)),
            n <= max,
            digits@ == text,
            text == if v@.len() > 1 && v@[0] == '+' {
                v@.drop_first()
            } else {
                v@
            },
        decreases digits@.len() - i,
    {
        let c = digits[i];
        if !is_ascii_digit(c) {
            assert(!is_digit(text[i as int]));
            return None;
        }
        let d: u64 = (c as u32 - '0' as u32) as u64;
        proof {
            assert(digits@.take(i + 1).drop_last() == digits@.take(i as int));
            assert(number(digits@.take(i + 1)) == n * 10 + d);
            lemma_number_monotone(digits@, i + 1);
        }
        if d > max || n > (max - d) / 10 {
            return None;
        }
        n = n * 10 + d;
        i = i + 1;
    }
    assert(digits@.take(digits@.len() as int) == digits@);
    Some(n)
}

/// Appends `n`, written in base ten.
pub fn push_decimal(s: &mut String, n: u64)
    ensures
        final(s)@ == old(s)@ + decimal(n as nat),
    decreases n,
{
    if n >= 10 {
        push_decimal(s, n / 10);
    }
    let d: u8 = (n % 10) as u8;
    let c: char = (48u8 + d) as char;
    assert(c == digit_char((n % 10) as nat));
    s.push(c);
    assert(s@ == old(s)@ + decimal(n as nat));
}

/// The parts of the text between the separators.
pub fn split_at_each(v: &[char], sep: char) -> (r: Vec<Vec<char>>)
    ensures
        r@.len() == split(v@, sep).len(),
        forall|i: int| 0 <= i < r@.len() ==> (#[trigger] r@[i])@ == split(v@, sep)[i],
{
    let mut done: Vec<Vec<char>> = Vec::new();
    let mut part: Vec<char> = Vec::new();
    let mut i: usize = 0;
    proof {
        lemma_split_parts(v@.take(0), sep);
    }
    while i < v.len()
        invariant
            i <= v@.len(),
            split(v@.take(i as int), sep).len() == done@.len() + 1,
            split(v@.take(i as int), sep).last() == part@,
            forall|k: int|
                0 <= k < done@.len() ==> (#[trigger] done@[k])@ == split(v@.take(i as int), sep)[k],
        decreases v@.len() - i,
    {
        let c = v[i];
        assert(v@.take(i + 1).drop_last() == v@.take(i as int));
        if c == sep {
            done.push(part);
            part = Vec::new();
        } else {
            part.push(c);
        }
        i = i + 1;
    }
    assert(v@.take(v@.len() as int) == v@);
    done.push(part);
    done
}

// --------------------------------------------------------------------- laws

/// White space is a tab, the line breaks, the blank, and the other characters that
/// Unicode lists under `White_Space`, and nothing else.
pub proof fn law_white_space(c: char)
    ensures
        is_space(c) == ({
            let u = c as u32;
            ||| u == 0x09 || u == 0x0a || u == 0x0b || u == 0x0c || u == 0x0d
            ||| u == 0x20 || u == 0x85 || u == 0xa0 || u == 0x1680
            ||| 0x2000 <= u <= 0x200a
            ||| u == 0x2028 || u == 0x2029 || u == 0x202f || u == 0x205f || u == 0x3000
        }),
{
}

/// A text stands in another exactly where that is the text with something, or
/// nothing, in front of it and behind it.
pub proof fn law_standing_in_a_text(before: Seq<char>, needle: Seq<char>, after: Seq<char>)
    ensures
        has(before + needle + after, needle),
        occurs_at(before + needle + after, needle, before.len() as int),
        forall|s: Seq<char>|
            #[trigger] has(s, needle) ==> exists|a: Seq<char>, b: Seq<char>|
                s == #[trigger] (a + needle + b),
{
    let all = before + needle + after;
    let at = before.len() as int;
    assert(all.subrange(at, at + needle.len()) =~= needle);
    assert(occurs_at(all, needle, at));
    assert forall|s: Seq<char>| #[trigger] has(s, needle) implies exists|
        a: Seq<char>,
        b: Seq<char>,
    | s == #[trigger] (a + needle + b) by {
        let i = choose|i: int| occurs_at(s, needle, i);
        let a = s.take(i);
        let b = s.skip(i + needle.len());
        assert(s =~= a + needle + b);
    }
}

/// A number is written without zeros in front, in digits that give it back in base
/// ten: all but the last digit are the tenth of it, and the last is the rest.
pub proof fn law_numbers_are_written_in_base_ten(n: nat)
    ensures
        decimal(n).len() > 0,
        n > 0 ==> decimal(n)[0] != '0',
        decimal(n).last() as int == '0' as int + n % 10,
        n >= 10 ==> decimal(n).drop_last() == decimal(n / 10),
        n < 10 ==> decimal(n).len() == 1,
    decreases n,
{
    if n >= 10 {
        law_numbers_are_written_in_base_ten(n / 10);
        assert(decimal(n).drop_last() =~= decimal(n / 10));
        assert(decimal(n)[0] == decimal(n / 10)[0]);
    }
}

/// Digits are read as a number, with or without a plus in front, as far as it is
/// not too large. Anything else in them, or nothing at all, is no number.
pub proof fn law_only_digits_are_numbers(s: Seq<char>, max: nat)
    ensures
        s.len() == 0 ==> read_number(s, max) is None,
        s.len() > 0 && all_digits(s) ==> read_number(s, max) == if number(s) <= max {
            Some(number(s))
        } else {
            None
        },
        s.len() > 0 && all_digits(s) ==> read_number(seq!['+'] + s, max) == read_number(s, max),
        (exists|k: int| 0 < k < s.len() && !is_digit(#[trigger] s[k])) ==> read_number(s, max)
            is None,
        s.len() > 0 && !is_digit(s[0]) && s[0] != '+' ==> read_number(s, max) is None,
{
    if s.len() > 0 && all_digits(s) {
        assert(is_digit(s[0]));
        assert((seq!['+'] + s).drop_first() =~= s);
    }
    if exists|k: int| 0 < k < s.len() && !is_digit(#[trigger] s[k]) {
        let k = choose|k: int| 0 < k < s.len() && !is_digit(#[trigger] s[k]);
        assert(s.len() > 1);
        assert(s.drop_first()[k - 1] == s[k]);
    }
}

} // verus!
