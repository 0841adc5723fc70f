//! What the operations on texts promise.

use vstd::prelude::*;
use crate::text;

verus! {

// ---------------------------------------------------------------------------
// Trimming
// ---------------------------------------------------------------------------

proof fn lemma_trim_end(s: Seq<char>) -> (n: int)
    ensures
        0 <= n <= s.len(),
        text::trim_end(s) == s.take(n),
        n > 0 ==> !text::white(s[n - 1]),
        forall|i: int| n <= i < s.len() ==> text::white(#[trigger] s[i]),
    decreases s.len(),
{
    if s.len() > 0 && text::white(s.last()) {
        let n = lemma_trim_end(s.drop_last());
        assert(s.drop_last().take(n) =~= s.take(n));
        assert forall|i: int| n <= i < s.len() implies text::white(#[trigger] s[i]) by {
            if i < s.len() - 1 {
                assert(s.drop_last()[i] == s[i]);
            }
        }
        n
    } else {
        assert(s.take(s.len() as int) =~= s);
        s.len() as int
    }
}

proof fn lemma_trim_start(s: Seq<char>) -> (n: int)
    ensures
        0 <= n <= s.len(),
        text::trim_start(s) == s.skip(n),
        n < s.len() ==> !text::white(s[n]),
        forall|i: int| 0 <= i < n ==> text::white(#[trigger] s[i]),
    decreases s.len(),
{
    if s.len() > 0 && text::white(s[0]) {
        let n = lemma_trim_start(s.drop_first());
        assert(s.drop_first().skip(n) =~= s.skip(n + 1));
        assert forall|i: int| 0 <= i < n + 1 implies text::white(#[trigger] s[i]) by {
            if i > 0 {
                assert(s.drop_first()[i - 1] == s[i]);
            }
        }
        n + 1
    } else {
        assert(s.skip(0) =~= s);
        0
    }
}

/// Trimming takes white space off both ends of a text and nothing else: what is left stands in
/// the text between white space, and neither begins nor ends with any.
pub proof fn lemma_trimmed(s: Seq<char>) -> (ends: (int, int))
    ensures
        0 <= ends.0 <= ends.1 <= s.len(),
        text::trimmed(s) == s.subrange(ends.0, ends.1),
        forall|i: int|
            0 <= i < s.len() && !(ends.0 <= i < ends.1) ==> text::white(#[trigger] s[i]),
        ends.0 < ends.1 ==> !text::white(s[ends.0]) && !text::white(s[ends.1 - 1]),
{
    let from = lemma_trim_start(s);
    let rest = s.skip(from);
    let n = lemma_trim_end(rest);
    assert(rest.take(n) =~= s.subrange(from, from + n));
    assert forall|i: int| 0 <= i < s.len() && !(from <= i < from + n) implies text::white(
        #[trigger] s[i],
    ) by {
        if i >= from {
            assert(rest[i - from] == s[i]);
        }
    }
    if n > 0 {
        assert(rest[n - 1] == s[from + n - 1]);
    }
    (from, from + n)
}

/// White space is the blank, the tab, what breaks a line or a page, and the wide blanks of
/// Unicode; no letter or digit is.
pub proof fn lemma_white(c: char)
    ensures
        c <= '\u{7f}' ==> text::white(c) == (c == ' ' || c == '\t' || c == '\n' || c == '\u{b}'
            || c == '\u{c}' || c == '\r'),
        text::alnum(c) ==> !text::white(c),
        text::alnum(c) <==> ('a' <= c <= 'z') || ('A' <= c <= 'Z') || ('0' <= c <= '9'),
{
}

/// Lower case moves the letters from A to Z and leaves the rest, at its place.
pub proof fn lemma_ascii_lower(s: Seq<char>, i: int)
    requires
        0 <= i < s.len(),
    ensures
        text::ascii_lower(s).len() == s.len(),
        'A' <= s[i] <= 'Z' ==> text::ascii_lower(s)[i] as u32 == s[i] as u32 + 32,
        !('A' <= s[i] <= 'Z') ==> text::ascii_lower(s)[i] == s[i],
{
}

// ---------------------------------------------------------------------------
// Searching
// ---------------------------------------------------------------------------

/// A text holds a pattern exactly where it is something, the pattern and something; it begins
/// with it where it is the pattern and something, and ends with it where it is something and
/// the pattern.
pub proof fn lemma_holds(before: Seq<char>, pattern: Seq<char>, after: Seq<char>, s: Seq<char>)
    ensures
        text::occurs(before + pattern + after, pattern),
        text::begins(pattern + after, pattern),
        text::ends(before + pattern, pattern),
        text::occurs(s, pattern) ==> exists|a: Seq<char>, b: Seq<char>| s == #[trigger] (a + pattern + b),
        text::begins(s, pattern) ==> s == pattern + s.skip(pattern.len() as int),
        text::ends(s, pattern) ==> s == s.take(s.len() - pattern.len()) + pattern,
{
    let n = before.len() as int;
    let whole = before + pattern + after;
    assert(whole.subrange(n, n + pattern.len()) =~= pattern);
    assert(text::occurs_at(whole, pattern, n));
    assert((pattern + after).subrange(0, pattern.len() as int) =~= pattern);
    assert((before + pattern).subrange(n, n + pattern.len()) =~= pattern);
    if text::occurs(s, pattern) {
        let i = choose|i: int| text::occurs_at(s, pattern, i);
        let a = s.take(i);
        let b = s.skip(i + pattern.len());
        assert(a + s.subrange(i, i + pattern.len()) + b =~= s);
        assert(s == a + pattern + b);
    }
    if text::begins(s, pattern) {
        assert(s.subrange(0, pattern.len() as int) + s.skip(pattern.len() as int) =~= s);
    }
    if text::ends(s, pattern) {
        let k = s.len() - pattern.len();
        assert(s.take(k) + s.subrange(k, k + pattern.len()) =~= s);
    }
}

/// What is left of a text without a beginning or an end is the rest of it.
pub proof fn lemma_stripped(
    s: &str,
    pattern: &str,
    front: Option<String>,
    back: Option<String>,
)
    requires
        call_ensures(text::strip_prefix, (s, pattern), front),
        call_ensures(text::strip_suffix, (s, pattern), back),
    ensures
        front matches Some(r) ==> s@ == pattern@ + r@,
        back matches Some(r) ==> s@ == r@ + pattern@,
        front is None ==> forall|r: Seq<char>| s@ != #[trigger] (pattern@ + r),
        back is None ==> forall|r: Seq<char>| s@ != #[trigger] (r + pattern@),
{
    lemma_holds(Seq::empty(), pattern@, Seq::empty(), s@);
    assert forall|r: Seq<char>| front is None implies s@ != #[trigger] (pattern@ + r) by {
        lemma_holds(Seq::empty(), pattern@, r, s@);
    }
    assert forall|r: Seq<char>| back is None implies s@ != #[trigger] (r + pattern@) by {
        lemma_holds(r, pattern@, Seq::empty(), s@);
    }
}

/// A text that does not hold a pattern stays as it is when the pattern is replaced.
pub proof fn lemma_nothing_to_replace(s: Seq<char>, from: Seq<char>, to: Seq<char>)
    requires
        !text::occurs(s, from),
    ensures
        text::replaced(s, from, to) == s,
    decreases s.len(),
{
    if s.len() > 0 {
        let rest = s.drop_first();
        if text::occurs(rest, from) {
            let i = choose|i: int| text::occurs_at(rest, from, i);
            assert(s.subrange(i + 1, i + 1 + from.len()) =~= rest.subrange(i, i + from.len()));
            assert(text::occurs_at(s, from, i + 1));
        }
        lemma_nothing_to_replace(rest, from, to);
        if text::begins(s, from) {
            assert(text::occurs_at(s, from, 0));
        }
        assert(seq![s[0]] + rest =~= s);
    }
}

/// The first place at which a pattern stands is replaced, what stands before it stays, and
/// what follows is treated likewise.
pub proof fn lemma_first_is_replaced(
    before: Seq<char>,
    from: Seq<char>,
    to: Seq<char>,
    after: Seq<char>,
)
    requires
        from.len() > 0,
        forall|i: int| 0 <= i < before.len() ==> !text::occurs_at(before + from + after, from, i),
    ensures
        text::replaced(before + from + after, from, to) == before + to + text::replaced(
            after,
            from,
            to,
        ),
    decreases before.len(),
{
    let s = before + from + after;
    if before.len() == 0 {
        assert(s =~= from + after);
        lemma_holds(before, from, after, s);
        assert(s.skip(from.len() as int) =~= after);
        assert(before + to =~= to);
    } else {
        let less = before.drop_first();
        assert(s.drop_first() =~= less + from + after);
        assert forall|i: int| 0 <= i < less.len() implies !text::occurs_at(
            less + from + after,
            from,
            i,
        ) by {
            if text::occurs_at(less + from + after, from, i) {
                assert(s.subrange(i + 1, i + 1 + from.len()) =~= (less + from + after).subrange(
                    i,
                    i + from.len(),
                ));
                assert(text::occurs_at(s, from, i + 1));
            }
        }
        lemma_first_is_replaced(less, from, to, after);
        assert(!text::occurs_at(s, from, 0));
        let rest = text::replaced(after, from, to);
        assert(seq![s[0]] + (less + to + rest) =~= before + to + rest);
    }
}

// ---------------------------------------------------------------------------
// Splitting and joining
// ---------------------------------------------------------------------------

/// The parts of a text hold no separator, and put together with the separator between them
/// they are the text.
pub proof fn lemma_split_and_joined(s: Seq<char>, separator: char)
    ensures
        text::joined(text::split_on(s, separator), seq![separator]) == s,
        forall|i: int|
            0 <= i < text::split_on(s, separator).len() ==> !(#[trigger] text::split_on(
                s,
                separator,
            )[i]).contains(separator),
    decreases s.len(),
{
    let parts = text::split_on(s, separator);
    if s.len() > 0 {
        let rest = s.drop_last();
        let before = text::split_on(rest, separator);
        text::lemma_split_on_nonempty(rest, separator);
        lemma_split_and_joined(rest, separator);
        if s.last() == separator {
            assert(parts.drop_last() =~= before);
            assert(rest + seq![separator] + Seq::<char>::empty() =~= s);
        } else {
            let grown = before.last().push(s.last());
            assert(parts.drop_last() =~= before.drop_last());
            assert(parts.last() == grown);
            if before.len() == 1 {
                assert(before.last() == rest);
                assert(rest.push(s.last()) =~= s);
            } else {
                let head = text::joined(before.drop_last(), seq![separator]);
                assert(head + seq![separator] + before.last() == rest);
                assert(head + seq![separator] + grown =~= rest.push(s.last()));
                assert(rest.push(s.last()) =~= s);
            }
        }
        assert forall|i: int| 0 <= i < parts.len() implies !(#[trigger] parts[i]).contains(
            separator,
        ) by {
            if i < before.len() - 1 {
                assert(parts[i] == before[i]);
            } else if s.last() == separator {
                if i < before.len() {
                    assert(parts[i] == before[i]);
                }
            } else {
                let last = before[before.len() - 1];
                assert(!last.contains(separator));
                assert forall|k: int| 0 <= k < parts[i].len() implies #[trigger] parts[i][k]
                    != separator by {
                    if k < last.len() {
                        assert(last[k] == parts[i][k]);
                    }
                }
            }
        }
    }
}

/// Texts are put together in order, each whole, with the separator between each two.
pub proof fn lemma_joined(parts: Seq<Seq<char>>, last: Seq<char>, separator: Seq<char>)
    ensures
        text::joined(Seq::empty(), separator).len() == 0,
        text::joined(seq![last], separator) == last,
        parts.len() > 0 ==> text::joined(parts.push(last), separator) == text::joined(
            parts,
            separator,
        ) + separator + last,
{
    if parts.len() > 0 {
        assert(parts.push(last).drop_last() =~= parts);
    }
}

/// A run of characters between white space is a word, and white space makes none.
pub proof fn lemma_words(before: Seq<char>, gap: char, word: Seq<char>)
    requires
        text::white(gap),
        word.len() > 0,
        forall|i: int| 0 <= i < word.len() ==> !text::white(#[trigger] word[i]),
    ensures
        text::words(Seq::empty()).len() == 0,
        text::words(before.push(gap)) == text::words(before),
        text::words(word) == seq![word],
        text::words(before.push(gap) + word) == text::words(before).push(word),
    decreases word.len(),
{
    assert(before.push(gap).drop_last() =~= before);
    let head = before.push(gap);
    let s = head + word;
    let less = word.drop_last();
    assert(s.drop_last() =~= head + less);
    assert(s.last() == word.last());
    assert(!text::white(word[word.len() - 1]));
    if word.len() == 1 {
        assert(less =~= Seq::empty());
        assert(head + less =~= head);
        assert(s[s.len() - 2] == gap);
        assert(word =~= seq![word.last()]);
        assert(text::words(less) =~= Seq::<Seq<char>>::empty());
        assert(text::words(word) == text::words(less).push(seq![word.last()]));
        assert(text::words(word) =~= seq![word]);
        assert(text::words(s) == text::words(head).push(seq![word.last()]));
        assert(text::words(s) =~= text::words(before).push(word));
    } else {
        assert forall|i: int| 0 <= i < less.len() implies !text::white(#[trigger] less[i]) by {
            assert(less[i] == word[i]);
        }
        lemma_words(before, gap, less);
        assert(!text::white(word[word.len() - 2]));
        assert(s[s.len() - 2] == word[word.len() - 2]);
        assert(less.push(word.last()) =~= word);
        let so_far = text::words(before).push(less);
        assert(so_far.drop_last() =~= text::words(before));
        assert(seq![less].drop_last() =~= Seq::<Seq<char>>::empty());
        assert(text::words(word) == seq![less].drop_last().push(
            seq![less].last().push(word.last()),
        ));
        assert(text::words(s) == so_far.drop_last().push(so_far.last().push(word.last())));
        assert(text::words(word) =~= seq![word]);
        assert(text::words(s) =~= text::words(before).push(word));
    }
}

/// What stands before a line break is a line, without the carriage return where there is one;
/// what follows the last line break is a line unless it is empty.
pub proof fn lemma_lines(before: Seq<char>, line: Seq<char>)
    requires
        !line.contains('\n'),
    ensures
        text::lines(Seq::empty()).len() == 0,
        line.len() > 0 ==> text::lines(line) == seq![line],
        line.len() > 0 ==> text::lines(before.push('\n') + line) == text::lines(
            before.push('\n'),
        ).push(line),
        text::lines(before.push('\n') + line.push('\n')) == text::lines(before.push('\n')).push(
            if line.len() > 0 && line.last() == '\r' {
                line.drop_last()
            } else {
                line
            },
        ),
{
    let head = text::split_on(before, '\n');
    text::lemma_split_on_nonempty(before, '\n');
    let start = before.push('\n');
    // The parts of the beginning.
    assert(start.drop_last() =~= before);
    let parts0 = text::split_on(start, '\n');
    assert(parts0 == head.push(Seq::empty()));
    let whole0 = Seq::new((parts0.len() - 1) as nat, |i: int| text::chomp(parts0[i]));
    assert(text::lines(start) == whole0);
    // With an open line behind it.
    text::lemma_split_last(before, line, '\n');
    let parts1 = text::split_on(start + line, '\n');
    assert(parts1 == head.push(line));
    let whole1 = Seq::new((parts1.len() - 1) as nat, |i: int| text::chomp(parts1[i]));
    assert(whole1 =~= whole0);
    // With a closed line behind it.
    assert(start + line.push('\n') =~= (start + line).push('\n'));
    assert((start + line).push('\n').drop_last() =~= start + line);
    let parts2 = text::split_on(start + line.push('\n'), '\n');
    assert(parts2 == parts1.push(Seq::empty()));
    let whole2 = Seq::new((parts2.len() - 1) as nat, |i: int| text::chomp(parts2[i]));
    assert(whole2 =~= whole0.push(text::chomp(line)));
    assert(text::lines(start + line.push('\n')) == whole2);
    // Alone.
    lemma_unsplit(line, '\n');
    let alone = text::split_on(line, '\n');
    assert(Seq::new((alone.len() - 1) as nat, |i: int| text::chomp(alone[i])).push(line)
        =~= seq![line]);
    let none = text::split_on(Seq::<char>::empty(), '\n');
    assert(none =~= seq![Seq::<char>::empty()]);
}

proof fn lemma_unsplit(s: Seq<char>, separator: char)
    requires
        !s.contains(separator),
    ensures
        text::split_on(s, separator) == seq![s],
    decreases s.len(),
{
    if s.len() == 0 {
        assert(s =~= Seq::empty());
    } else {
        let rest = s.drop_last();
        assert forall|k: int| 0 <= k < rest.len() implies #[trigger] rest[k] != separator by {
            assert(rest[k] == s[k]);
        }
        lemma_unsplit(rest, separator);
        assert(s.last() == s[s.len() - 1]);
        assert(rest.push(s.last()) =~= s);
        assert(text::split_on(s, separator) =~= seq![s]);
    }
}

// ---------------------------------------------------------------------------
// Numbers
// ---------------------------------------------------------------------------

/// The digits of a number are those of its tens and then that of its units; they are digits,
/// and only zero begins with one.
pub proof fn lemma_digits(n: nat)
    ensures
        n >= 10 ==> text::decimal(n) == text::decimal(n / 10) + text::decimal(n % 10),
        n < 10 ==> text::decimal(n) == seq![((48 + n) as u8) as char],
        forall|i: int|
            0 <= i < text::decimal(n).len() ==> '0' <= #[trigger] text::decimal(n)[i] <= '9',
        n > 0 ==> text::decimal(n)[0] != '0',
    decreases n,
{
    if n >= 10 {
        lemma_digits(n / 10);
        assert(text::decimal(n / 10).push(text::digit(n % 10)) =~= text::decimal(n / 10)
            + text::decimal(n % 10));
    }
}

/// The digits of a number are read as the number, with a plus sign or without, where it is not
/// too large; and two numbers never have the same digits.
pub proof fn lemma_numbers_are_read(n: nat, m: nat)
    ensures
        n <= u16::MAX ==> text::short_number(text::decimal(n)) == Some(n as u16),
        n <= u16::MAX ==> text::short_number(seq!['+'] + text::decimal(n)) == Some(n as u16),
        n > u16::MAX ==> text::short_number(text::decimal(n)) is None,
        n <= u64::MAX ==> text::long_number(text::decimal(n)) == Some(n as u64),
        n > u64::MAX ==> text::long_number(text::decimal(n)) is None,
        text::decimal(n) == text::decimal(m) ==> n == m,
{
    lemma_digits(n);
    text::lemma_decimal(n);
    text::lemma_decimal(m);
    lemma_some_digits(n);
    assert(text::decimal(n)[0] != '+');
    assert((seq!['+'] + text::decimal(n)).drop_first() =~= text::decimal(n));
}

proof fn lemma_some_digits(n: nat)
    ensures
        text::decimal(n).len() > 0,
    decreases n,
{
}

/// What is empty, or holds anything but digits behind one plus sign, is no number.
pub proof fn lemma_no_number(s: Seq<char>, i: int)
    requires
        s.len() == 0 || (0 <= i < s.len() && !('0' <= s[i] <= '9') && !(i == 0 && s[0] == '+')),
    ensures
        text::short_number(s) is None,
        text::long_number(s) is None,
{
    if s.len() > 0 {
        if s[0] == '+' {
            assert(s.drop_first()[i - 1] == s[i]);
        }
    }
}

// ---------------------------------------------------------------------------
// Sizes
// ---------------------------------------------------------------------------

proof fn lemma_bytes(c: char, rest: Seq<char>)
    ensures
        text::byte_count(seq![c] + rest) == text::byte_count(seq![c]) + text::byte_count(rest),
{
    let s = seq![c] + rest;
    assert(s.drop_first() =~= rest);
    assert(seq![c].drop_first() =~= Seq::<char>::empty());
    reveal_with_fuel(vstd::utf8::encode_utf8, 3);
}

proof fn lemma_fits(s: Seq<char>, max: nat)
    ensures
        ({
            let n = text::fitting(s, max) as int;
            &&& n <= s.len()
            &&& text::byte_count(s.take(n)) <= max
            &&& n < s.len() ==> text::byte_count(s.take(n + 1)) > max
        }),
    decreases s.len(),
{
    let n = text::fitting(s, max) as int;
    assert(text::byte_count(Seq::<char>::empty()) == 0) by {
        reveal_with_fuel(vstd::utf8::encode_utf8, 1);
    }
    if s.len() == 0 || text::byte_count(seq![s[0]]) > max {
        assert(s.take(0) =~= Seq::empty());
        if s.len() > 0 {
            assert(s.take(1) =~= seq![s[0]]);
        }
    } else {
        let rest = s.drop_first();
        let left = (max - text::byte_count(seq![s[0]])) as nat;
        let k = text::fitting(rest, left) as int;
        lemma_fits(rest, left);
        lemma_bytes(s[0], rest.take(k));
        assert(seq![s[0]] + rest.take(k) =~= s.take(n));
        if n < s.len() {
            lemma_bytes(s[0], rest.take(k + 1));
            assert(seq![s[0]] + rest.take(k + 1) =~= s.take(n + 1));
        }
    }
}

/// A text that is too long is cut after as many whole characters as fit, and an ellipsis says
/// so; a text that is not too long stays as it is.
pub proof fn lemma_clipped(s: Seq<char>, max: nat)
    ensures
        text::byte_count(s) <= max ==> text::clipped(s, max) == s,
        text::byte_count(s) > max ==> exists|n: int|
            0 <= n < s.len() && text::clipped(s, max) == #[trigger] s.take(n).push('\u{2026}')
                && text::byte_count(s.take(n)) <= max && text::byte_count(s.take(n + 1)) > max,
{
    if text::byte_count(s) > max {
        let n = text::fitting(s, max) as int;
        lemma_fits(s, max);
        reveal_strlit("\u{2026}");
        assert(s.take(n) + "\u{2026}"@ =~= s.take(n).push('\u{2026}'));
        if n == s.len() {
            assert(s.take(n) =~= s);
        }
    }
}

} // verus!
