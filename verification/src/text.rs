//! Text as sequences of characters.
//!
//! Strings are modelled by their characters. The functions here are the small
//! text operations that the rest of the crate is written with.

use vstd::prelude::*;

verus! {

/// `String::push` appends one character to the text.
pub assume_specification[ String::push ](s: &mut String, c: char)
    ensures
        final(s)@ == old(s)@.push(c),
;

/// The characters of a text, one vector entry each.
pub fn chars_of(text: &str) -> (chars: Vec<char>)
    ensures
        chars@ == text@,
{
    broadcast use vstd::string::axiom_spec_iter;
    let mut chars: Vec<char> = Vec::new();
    for c in it: text.chars()
        invariant
            it.seq() == text@,
            chars@ == text@.take(it.index() as int),
    {
        assert(text@.take(it.index() as int).push(c) =~= text@.take(it.index() + 1));
        chars.push(c);
    }
    assert(text@.take(text@.len() as int) =~= text@);
    chars
}

/// The text made of `chars[from..to]`.
pub fn text_between(chars: &Vec<char>, from: usize, to: usize) -> (text: String)
    requires
        from <= to <= chars.len(),
    ensures
        text@ == chars@.subrange(from as int, to as int),
{
    let mut text = String::new();
    let mut i: usize = from;
    while i < to
        invariant
            from <= i <= to <= chars.len(),
            text@ == chars@.subrange(from as int, i as int),
        decreases to - i,
    {
        assert(chars@.subrange(from as int, i as int).push(chars@[i as int])
            =~= chars@.subrange(from as int, i + 1));
        text.push(chars[i]);
        i += 1;
    }
    text
}

/// The text made of all of `chars`.
pub fn text_of(chars: &Vec<char>) -> (text: String)
    ensures
        text@ == chars@,
{
    let text = text_between(chars, 0, chars.len());
    assert(chars@.subrange(0, chars@.len() as int) =~= chars@);
    text
}

/// Whether two texts hold the same characters.
pub fn same_text(a: &str, b: &str) -> (same: bool)
    ensures
        same == (a@ == b@),
{
    let left = chars_of(a);
    let right = chars_of(b);
    if left.len() != right.len() {
        return false;
    }
    let mut i: usize = 0;
    while i < left.len()
        invariant
            left@ == a@,
            right@ == b@,
            i <= left.len() == right.len(),
            forall|k: int| 0 <= k < i ==> left@[k] == right@[k],
        decreases left.len() - i,
    {
        if left[i] != right[i] {
            return false;
        }
        i += 1;
    }
    assert(a@ =~= b@);
    true
}

// ---------------------------------------------------------------------------
// Lists of texts
// ---------------------------------------------------------------------------

/// The contents of a list of strings.
pub open spec fn views(texts: Seq<String>) -> Seq<Seq<char>> {
    Seq::new(texts.len(), |i: int| texts[i]@)
}

/// Appending a string appends its characters to the contents.
pub proof fn lemma_views_push(texts: Seq<String>, text: String)
    ensures
        views(texts.push(text)) == views(texts).push(text@),
{
    assert(views(texts.push(text)) =~= views(texts).push(text@));
}

/// Copies a list of strings.
pub fn copy_texts(texts: &Vec<String>) -> (copy: Vec<String>)
    ensures
        views(copy@) == views(texts@),
        copy.len() == texts.len(),
{
    let mut copy: Vec<String> = Vec::new();
    let mut i: usize = 0;
    while i < texts.len()
        invariant
            i <= texts.len(),
            copy.len() == i,
            views(copy@) == views(texts@).take(i as int),
        decreases texts.len() - i,
    {
        copy.push(texts[i].clone());
        i += 1;
        assert(views(copy@) =~= views(texts@).take(i as int));
    }
    assert(views(copy@) =~= views(texts@));
    copy
}

/// The optional text as characters.
pub open spec fn opt_view(text: Option<String>) -> Option<Seq<char>> {
    match text {
        Some(t) => Some(t@),
        None => None,
    }
}

/// Copies an optional text.
pub fn copy_opt(text: &Option<String>) -> (copy: Option<String>)
    ensures
        opt_view(copy) == opt_view(*text),
{
    match text {
        Some(t) => Some(t.clone()),
        None => None,
    }
}

/// Whether `needle` is one of `texts`.
pub fn has_text(texts: &Vec<String>, needle: &str) -> (found: bool)
    ensures
        found == views(texts@).contains(needle@),
{
    let mut i: usize = 0;
    while i < texts.len()
        invariant
            i <= texts.len(),
            forall|k: int| 0 <= k < i ==> texts@[k]@ != needle@,
        decreases texts.len() - i,
    {
        if same_text(texts[i].as_str(), needle) {
            assert(views(texts@)[i as int] == needle@);
            return true;
        }
        i += 1;
    }
    assert forall|k: int| 0 <= k < texts.len() implies views(texts@)[k] != needle@ by {}
    false
}

// ---------------------------------------------------------------------------
// Characters
// ---------------------------------------------------------------------------

/// The characters with the Unicode property `White_Space`.
pub open spec fn white(c: char) -> bool {
    let n = c as u32;
    ||| 0x09 <= n <= 0x0d
    ||| n == 0x20
    ||| n == 0x85
    ||| n == 0xa0
    ||| n == 0x1680
    ||| 0x2000 <= n <= 0x200a
    ||| n == 0x2028
    ||| n == 0x2029
    ||| n == 0x202f
    ||| n == 0x205f
    ||| n == 0x3000
}

/// Whether a character is white space.
pub fn is_white(c: char) -> (r: bool)
    ensures
        r == white(c),
{
    let n: u32 = c as u32;
    (0x09 <= n && n <= 0x0d) || n == 0x20 || n == 0x85 || n == 0xa0 || n == 0x1680 || (0x2000 <= n
        && n <= 0x200a) || n == 0x2028 || n == 0x2029 || n == 0x202f || n == 0x205f || n == 0x3000
}

/// The ASCII letters and digits.
pub open spec fn alnum(c: char) -> bool {
    ||| 'a' <= c <= 'z'
    ||| 'A' <= c <= 'Z'
    ||| '0' <= c <= '9'
}

/// Whether a character is an ASCII letter or digit.
pub fn is_alnum(c: char) -> (r: bool)
    ensures
        r == alnum(c),
{
    ('a' <= c && c <= 'z') || ('A' <= c && c <= 'Z') || ('0' <= c && c <= '9')
}

/// The ASCII lower case of a character: `A` to `Z` move, the others stay.
pub open spec fn ascii_lower_char(c: char) -> char {
    if 'A' <= c <= 'Z' {
        ((c as u32 + 32) as u8) as char
    } else {
        c
    }
}

/// The ASCII lower case of a text.
pub open spec fn ascii_lower(text: Seq<char>) -> Seq<char> {
    Seq::new(text.len(), |i: int| ascii_lower_char(text[i]))
}

/// The ASCII lower case of a text.
pub fn to_ascii_lower(text: &str) -> (lower: String)
    ensures
        lower@ == ascii_lower(text@),
{
    let chars = chars_of(text);
    let mut lower = String::new();
    let mut i: usize = 0;
    while i < chars.len()
        invariant
            chars@ == text@,
            i <= chars.len(),
            lower@ == ascii_lower(text@).take(i as int),
        decreases chars.len() - i,
    {
        let c = chars[i];
        if 'A' <= c && c <= 'Z' {
            let code: u8 = (c as u32 + 32) as u8;
            lower.push(code as char);
        } else {
            lower.push(c);
        }
        i += 1;
        assert(lower@ =~= ascii_lower(text@).take(i as int));
    }
    assert(lower@ =~= ascii_lower(text@));
    lower
}

/// The Unicode lower case of a text.
pub uninterp spec fn lowercase(text: Seq<char>) -> Seq<char>;

/// Whether a text is ASCII.
pub open spec fn ascii(text: Seq<char>) -> bool {
    forall|i: int| 0 <= i < text.len() ==> #[trigger] text[i] <= '\u{7f}'
}

/// `str::to_lowercase`: the Unicode lower case of the text, which depends on
/// the text alone. Of a text in ASCII it is the one in which each letter from A to Z is
/// the small one. Of other texts nothing else is claimed.
#[verifier::external_body]
pub(crate) fn to_lower(text: &str) -> (lower: String)
    ensures
        lower@ == lowercase(text@),
        ascii(text@) ==> lower@ == ascii_lower(text@),
{
    text.to_lowercase()
}

// ---------------------------------------------------------------------------
// Trimming
// ---------------------------------------------------------------------------

/// The text without its leading white space.
pub open spec fn trim_start(text: Seq<char>) -> Seq<char>
    decreases text.len(),
{
    if text.len() > 0 && white(text[0]) {
        trim_start(text.drop_first())
    } else {
        text
    }
}

/// The text without its trailing white space.
pub open spec fn trim_end(text: Seq<char>) -> Seq<char>
    decreases text.len(),
{
    if text.len() > 0 && white(text.last()) {
        trim_end(text.drop_last())
    } else {
        text
    }
}

/// The text without the white space on both sides.
pub open spec fn trimmed(text: Seq<char>) -> Seq<char> {
    trim_end(trim_start(text))
}

/// A text has no non-white character exactly when nothing is left of it.
pub proof fn lemma_trimmed_empty(text: Seq<char>)
    ensures
        trimmed(text).len() == 0 <==> (forall|i: int|
            0 <= i < text.len() ==> white(#[trigger] text[i])),
    decreases text.len(),
{
    if text.len() > 0 && white(text[0]) {
        let rest = text.drop_first();
        lemma_trimmed_empty(rest);
        assert(forall|i: int| 0 <= i < rest.len() ==> rest[i] == #[trigger] text[i + 1]);
        assert forall|i: int| 0 <= i < text.len() && trimmed(text).len() == 0 implies white(
            #[trigger] text[i],
        ) by {
            if i > 0 {
                assert(white(rest[i - 1]));
            }
        }
        if forall|i: int| 0 <= i < text.len() ==> white(#[trigger] text[i]) {
            assert forall|i: int| 0 <= i < rest.len() implies white(#[trigger] rest[i]) by {
                assert(white(text[i + 1]));
            }
        }
    } else if text.len() > 0 {
        lemma_trim_end_keeps_first(text);
        assert(!white(text[0]));
    }
}

proof fn lemma_trim_end_keeps_first(text: Seq<char>)
    requires
        text.len() > 0,
        !white(text[0]),
    ensures
        trim_end(text).len() > 0,
        trim_end(text)[0] == text[0],
    decreases text.len(),
{
    if white(text.last()) {
        lemma_trim_end_keeps_first(text.drop_last());
    }
}

proof fn lemma_trimmed_ends(text: Seq<char>)
    ensures
        trimmed(text).len() > 0 ==> !white(trimmed(text)[0]) && !white(trimmed(text).last()),
{
    lemma_start_is_not_white(text);
    let t = trim_start(text);
    lemma_end_is_not_white(t);
    if t.len() > 0 {
        lemma_trim_end_keeps_first(t);
    }
}

proof fn lemma_start_is_not_white(text: Seq<char>)
    ensures
        trim_start(text).len() > 0 ==> !white(trim_start(text)[0]),
    decreases text.len(),
{
    if text.len() > 0 && white(text[0]) {
        lemma_start_is_not_white(text.drop_first());
    }
}

proof fn lemma_end_is_not_white(text: Seq<char>)
    ensures
        trim_end(text).len() > 0 ==> !white(trim_end(text).last()),
    decreases text.len(),
{
    if text.len() > 0 && white(text.last()) {
        lemma_end_is_not_white(text.drop_last());
    }
}

/// A text without white space around it stays as it is.
pub proof fn lemma_trimmed_once(text: Seq<char>)
    ensures
        trimmed(trimmed(text)) == trimmed(text),
{
    lemma_trimmed_ends(text);
}

/// The ASCII upper case of a character.
pub open spec fn ascii_upper_char(c: char) -> char {
    if 'a' <= c <= 'z' {
        ((c as u32 - 32) as u32) as char
    } else {
        c
    }
}

/// The ASCII upper case of a text.
pub open spec fn ascii_upper(text: Seq<char>) -> Seq<char> {
    Seq::new(text.len(), |i: int| ascii_upper_char(text[i]))
}

proof fn lemma_upper_char(c: char)
    ensures
        white(ascii_upper_char(c)) == white(c),
        ascii_lower_char(ascii_upper_char(c)) == ascii_lower_char(c),
        c <= '\u{7f}' ==> ascii_upper_char(c) <= '\u{7f}',
{
}

proof fn lemma_start_in_upper_case(text: Seq<char>)
    ensures
        trim_start(ascii_upper(text)) == ascii_upper(trim_start(text)),
    decreases text.len(),
{
    if text.len() > 0 {
        lemma_upper_char(text[0]);
        assert(ascii_upper(text).drop_first() =~= ascii_upper(text.drop_first()));
        if white(text[0]) {
            lemma_start_in_upper_case(text.drop_first());
        }
    }
}

proof fn lemma_end_in_upper_case(text: Seq<char>)
    ensures
        trim_end(ascii_upper(text)) == ascii_upper(trim_end(text)),
    decreases text.len(),
{
    if text.len() > 0 {
        lemma_upper_char(text.last());
        assert(ascii_upper(text).drop_last() =~= ascii_upper(text.drop_last()));
        if white(text.last()) {
            lemma_end_in_upper_case(text.drop_last());
        }
    }
}

/// Upper case leaves white space, lower case and ASCII as they are.
pub proof fn lemma_upper_case(text: Seq<char>)
    ensures
        trimmed(ascii_upper(text)) == ascii_upper(trimmed(text)),
        ascii_lower(ascii_upper(text)) == ascii_lower(text),
        ascii(text) ==> ascii(ascii_upper(text)),
{
    lemma_start_in_upper_case(text);
    lemma_end_in_upper_case(trim_start(text));
    assert forall|i: int| 0 <= i < text.len() implies #[trigger] ascii_lower(ascii_upper(text))[i]
        == ascii_lower(text)[i] by {
        lemma_upper_char(text[i]);
    }
    assert(ascii_lower(ascii_upper(text)) =~= ascii_lower(text));
    assert forall|i: int| 0 <= i < text.len() && ascii(text) implies #[trigger] ascii_upper(
        text,
    )[i] <= '\u{7f}' by {
        lemma_upper_char(text[i]);
    }
}

proof fn lemma_start_is_ascii(text: Seq<char>)
    requires
        ascii(text),
    ensures
        ascii(trim_start(text)),
    decreases text.len(),
{
    if text.len() > 0 && white(text[0]) {
        assert forall|i: int| 0 <= i < text.len() - 1 implies #[trigger] text.drop_first()[i]
            <= '\u{7f}' by {
            assert(text.drop_first()[i] == text[i + 1]);
        }
        lemma_start_is_ascii(text.drop_first());
    }
}

proof fn lemma_end_is_ascii(text: Seq<char>)
    requires
        ascii(text),
    ensures
        ascii(trim_end(text)),
    decreases text.len(),
{
    if text.len() > 0 && white(text.last()) {
        assert forall|i: int| 0 <= i < text.len() - 1 implies #[trigger] text.drop_last()[i]
            <= '\u{7f}' by {
            assert(text.drop_last()[i] == text[i]);
        }
        lemma_end_is_ascii(text.drop_last());
    }
}

/// What is left of a text in ASCII is ASCII.
pub proof fn lemma_trimmed_ascii(text: Seq<char>)
    requires
        ascii(text),
    ensures
        ascii(trimmed(text)),
{
    lemma_start_is_ascii(text);
    lemma_end_is_ascii(trim_start(text));
}

/// The text without the white space on both sides.
pub fn trim(text: &str) -> (result: String)
    ensures
        result@ == trimmed(text@),
{
    let chars = chars_of(text);
    let mut from: usize = 0;
    assert(chars@.skip(0) =~= chars@);
    while from < chars.len() && is_white(chars[from])
        invariant
            from <= chars.len(),
            chars@ == text@,
            trim_start(text@) == trim_start(chars@.skip(from as int)),
        decreases chars.len() - from,
    {
        assert(chars@.skip(from as int).drop_first() =~= chars@.skip(from + 1));
        from += 1;
    }
    assert(trim_start(chars@.skip(from as int)) == chars@.skip(from as int));
    let mut to: usize = chars.len();
    assert(chars@.skip(from as int) =~= chars@.subrange(from as int, to as int));
    while from < to && is_white(chars[to - 1])
        invariant
            from <= to <= chars.len(),
            chars@ == text@,
            trimmed(text@) == trim_end(chars@.subrange(from as int, to as int)),
        decreases to - from,
    {
        assert(chars@.subrange(from as int, to as int).drop_last() =~= chars@.subrange(
            from as int,
            to - 1,
        ));
        to -= 1;
    }
    text_between(&chars, from, to)
}

// ---------------------------------------------------------------------------
// Searching
// ---------------------------------------------------------------------------

/// Whether `pattern` stands in `text` at position `i`.
pub open spec fn occurs_at(text: Seq<char>, pattern: Seq<char>, i: int) -> bool {
    0 <= i && i + pattern.len() <= text.len() && text.subrange(i, i + pattern.len()) == pattern
}

/// Whether `pattern` stands somewhere in `text`.
pub open spec fn occurs(text: Seq<char>, pattern: Seq<char>) -> bool {
    exists|i: int| occurs_at(text, pattern, i)
}

/// Whether `text` begins with `pattern`.
pub open spec fn begins(text: Seq<char>, pattern: Seq<char>) -> bool {
    occurs_at(text, pattern, 0)
}

/// Whether `text` ends with `pattern`.
pub open spec fn ends(text: Seq<char>, pattern: Seq<char>) -> bool {
    occurs_at(text, pattern, text.len() - pattern.len())
}

/// Whether `pattern` stands in `text` at position `at`.
pub fn stands_at(text: &Vec<char>, pattern: &Vec<char>, at: usize) -> (r: bool)
    ensures
        r == occurs_at(text@, pattern@, at as int),
{
    if at > text.len() || pattern.len() > text.len() - at {
        return false;
    }
    let mut k: usize = 0;
    while k < pattern.len()
        invariant
            k <= pattern.len(),
            at + pattern.len() <= text.len(),
            forall|j: int| 0 <= j < k ==> text@[at + j] == pattern@[j],
        decreases pattern.len() - k,
    {
        if text[at + k] != pattern[k] {
            assert(text@.subrange(at as int, at + pattern@.len())[k as int] != pattern@[k as int]);
            return false;
        }
        k += 1;
    }
    assert(text@.subrange(at as int, at + pattern@.len()) =~= pattern@);
    true
}

/// Whether `pattern` stands somewhere in `text`.
pub fn contains(text: &str, pattern: &str) -> (r: bool)
    ensures
        r == occurs(text@, pattern@),
{
    let chars = chars_of(text);
    let wanted = chars_of(pattern);
    let mut i: usize = 0;
    loop
        invariant
            chars@ == text@,
            wanted@ == pattern@,
            i <= chars.len(),
            forall|k: int| 0 <= k < i ==> !occurs_at(text@, pattern@, k),
        decreases chars.len() - i,
    {
        if stands_at(&chars, &wanted, i) {
            return true;
        }
        if i == chars.len() {
            return false;
        }
        i += 1;
    }
}

/// Whether `text` begins with `pattern`.
pub fn starts_with(text: &str, pattern: &str) -> (r: bool)
    ensures
        r == begins(text@, pattern@),
{
    stands_at(&chars_of(text), &chars_of(pattern), 0)
}

/// What follows `pattern` at the beginning of `text`, if it begins with it.
pub fn strip_prefix(text: &str, pattern: &str) -> (rest: Option<String>)
    ensures
        match rest {
            Some(r) => begins(text@, pattern@) && r@ == text@.skip(pattern@.len() as int),
            None => !begins(text@, pattern@),
        },
{
    let chars = chars_of(text);
    let wanted = chars_of(pattern);
    if stands_at(&chars, &wanted, 0) {
        let rest = text_between(&chars, wanted.len(), chars.len());
        assert(rest@ =~= text@.skip(pattern@.len() as int));
        Some(rest)
    } else {
        None
    }
}

/// What precedes `pattern` at the end of `text`, if it ends with it.
pub fn strip_suffix(text: &str, pattern: &str) -> (rest: Option<String>)
    ensures
        match rest {
            Some(r) => ends(text@, pattern@) && r@ == text@.take(text@.len() - pattern@.len()),
            None => !ends(text@, pattern@),
        },
{
    let chars = chars_of(text);
    let wanted = chars_of(pattern);
    if wanted.len() <= chars.len() && stands_at(&chars, &wanted, chars.len() - wanted.len()) {
        let rest = text_between(&chars, 0, chars.len() - wanted.len());
        assert(rest@ =~= text@.take(text@.len() - pattern@.len()));
        Some(rest)
    } else {
        None
    }
}

/// The position of the last `c` in `text`.
pub open spec fn last_at(text: Seq<char>, c: char, i: int) -> bool {
    &&& 0 <= i < text.len()
    &&& text[i] == c
    &&& forall|k: int| i < k < text.len() ==> text[k] != c
}

/// The parts of `text` before and after its last `c`.
pub fn rsplit_once(text: &str, c: char) -> (parts: Option<(String, String)>)
    ensures
        match parts {
            Some((before, after)) => last_at(text@, c, before@.len() as int) && before@ == text@.take(
                before@.len() as int,
            ) && after@ == text@.skip(before@.len() as int + 1),
            None => !text@.contains(c),
        },
{
    let chars = chars_of(text);
    let mut i: usize = chars.len();
    while i > 0
        invariant
            chars@ == text@,
            i <= chars.len(),
            forall|k: int| i <= k < chars.len() ==> chars@[k] != c,
        decreases i,
    {
        if chars[i - 1] == c {
            let before = text_between(&chars, 0, i - 1);
            let after = text_between(&chars, i, chars.len());
            assert(before@ =~= text@.take(i - 1));
            assert(after@ =~= text@.skip(i as int));
            return Some((before, after));
        }
        i -= 1;
    }
    None
}

/// What stands before the last `c`, if there is one.
pub open spec fn before_last(text: Seq<char>, c: char) -> Option<Seq<char>>
    decreases text.len(),
{
    if text.len() == 0 {
        None
    } else if text.last() == c {
        Some(text.drop_last())
    } else {
        before_last(text.drop_last(), c)
    }
}

/// What stands before the last `c` ends at its position.
pub proof fn lemma_before_last(text: Seq<char>, c: char, i: int)
    ensures
        last_at(text, c, i) ==> before_last(text, c) == Some(text.take(i)),
        !text.contains(c) ==> before_last(text, c) is None,
    decreases text.len(),
{
    if text.len() > 0 {
        let rest = text.drop_last();
        lemma_before_last(rest, c, i);
        if last_at(text, c, i) {
            if i == text.len() - 1 {
                assert(text.take(i) =~= rest);
            } else {
                assert(text.last() != c);
                assert(last_at(rest, c, i));
                assert(rest.take(i) =~= text.take(i));
            }
        }
        if !text.contains(c) {
            assert(text.last() != c);
            assert forall|k: int| 0 <= k < rest.len() implies #[trigger] rest[k] != c by {
                assert(rest[k] == text[k]);
            }
        }
    }
}

/// The text with each `from` in it, taken from the left, replaced by `to`.
pub open spec fn replaced(text: Seq<char>, from: Seq<char>, to: Seq<char>) -> Seq<char>
    decreases text.len(),
{
    if text.len() == 0 {
        text
    } else if from.len() > 0 && begins(text, from) {
        to + replaced(text.skip(from.len() as int), from, to)
    } else {
        seq![text[0]] + replaced(text.drop_first(), from, to)
    }
}

/// The text with each `from` in it, taken from the left, replaced by `to`.
pub fn replace(text: &str, from: &str, to: &str) -> (result: String)
    requires
        from@.len() > 0,
    ensures
        result@ == replaced(text@, from@, to@),
{
    let chars = chars_of(text);
    let wanted = chars_of(from);
    let mut result = String::new();
    let mut i: usize = 0;
    assert(text@.skip(0) =~= text@);
    assert(result@ + replaced(text@, from@, to@) =~= replaced(text@, from@, to@));
    while i < chars.len()
        invariant
            chars@ == text@,
            wanted@ == from@,
            from@.len() > 0,
            i <= chars.len(),
            result@ + replaced(text@.skip(i as int), from@, to@) == replaced(text@, from@, to@),
        decreases chars.len() - i,
    {
        let ghost rest = text@.skip(i as int);
        let ghost before = result@;
        let here = stands_at(&chars, &wanted, i);
        assert(here == begins(rest, from@)) by {
            if here {
                assert(rest.subrange(0, from@.len() as int) =~= text@.subrange(
                    i as int,
                    i + from@.len(),
                ));
            }
            if begins(rest, from@) {
                assert(text@.subrange(i as int, i + from@.len()) =~= rest.subrange(
                    0,
                    from@.len() as int,
                ));
            }
        }
        if here {
            result.append(to);
            assert(rest.skip(from@.len() as int) =~= text@.skip(i + from@.len()));
            i += wanted.len();
            assert(result@ + replaced(text@.skip(i as int), from@, to@) =~= before + replaced(
                rest,
                from@,
                to@,
            ));
        } else {
            result.push(chars[i]);
            assert(rest[0] == chars@[i as int]);
            assert(rest.drop_first() =~= text@.skip(i + 1));
            i += 1;
            assert(result@ + replaced(text@.skip(i as int), from@, to@) =~= before + replaced(
                rest,
                from@,
                to@,
            ));
        }
    }
    assert(text@.skip(i as int) =~= Seq::<char>::empty());
    assert(result@ + Seq::<char>::empty() =~= result@);
    result
}

// ---------------------------------------------------------------------------
// Splitting and joining
// ---------------------------------------------------------------------------

/// The parts of `text` between the separators. A text without a separator is
/// one part; each separator begins another.
pub open spec fn split_on(text: Seq<char>, separator: char) -> Seq<Seq<char>>
    decreases text.len(),
{
    if text.len() == 0 {
        seq![Seq::empty()]
    } else {
        let before = split_on(text.drop_last(), separator);
        if text.last() == separator {
            before.push(Seq::empty())
        } else {
            before.drop_last().push(before.last().push(text.last()))
        }
    }
}

/// There is always at least one part.
pub proof fn lemma_split_on_nonempty(text: Seq<char>, separator: char)
    ensures
        split_on(text, separator).len() > 0,
    decreases text.len(),
{
    if text.len() > 0 {
        lemma_split_on_nonempty(text.drop_last(), separator);
    }
}

/// What follows a separator and has none in it is the last part.
pub proof fn lemma_split_last(before: Seq<char>, part: Seq<char>, separator: char)
    requires
        !part.contains(separator),
    ensures
        split_on(before.push(separator) + part, separator) == split_on(before, separator).push(
            part,
        ),
    decreases part.len(),
{
    let whole = before.push(separator) + part;
    if part.len() == 0 {
        assert(whole =~= before.push(separator));
        assert(whole.drop_last() =~= before);
        assert(part =~= Seq::empty());
    } else {
        let rest = part.drop_last();
        assert forall|i: int| 0 <= i < rest.len() implies rest[i] != separator by {
            assert(part.contains(part[i]));
        }
        lemma_split_last(before, rest, separator);
        assert(whole.drop_last() =~= before.push(separator) + rest);
        assert(part.contains(part.last()));
        let parts = split_on(before, separator);
        assert(parts.push(rest).drop_last() =~= parts);
        assert(rest.push(part.last()) =~= part);
    }
}

/// The parts of `text` between the separators.
pub fn split(text: &str, separator: char) -> (parts: Vec<String>)
    ensures
        views(parts@) == split_on(text@, separator),
        parts.len() > 0,
{
    let chars = chars_of(text);
    let mut done: Vec<String> = Vec::new();
    let mut part = String::new();
    let mut i: usize = 0;
    assert(text@.take(0) =~= Seq::<char>::empty());
    assert(views(done@).push(part@) =~= split_on(text@.take(0), separator));
    while i < chars.len()
        invariant
            chars@ == text@,
            i <= chars.len(),
            views(done@).push(part@) == split_on(text@.take(i as int), separator),
        decreases chars.len() - i,
    {
        let ghost now = text@.take(i + 1);
        assert(now.drop_last() =~= text@.take(i as int));
        let c = chars[i];
        if c == separator {
            proof {
                lemma_views_push(done@, part);
            }
            done.push(part);
            part = String::new();
        } else {
            assert(views(done@).push(part@).drop_last() =~= views(done@));
            part.push(c);
        }
        i += 1;
        assert(views(done@).push(part@) =~= split_on(now, separator));
    }
    assert(text@.take(i as int) =~= text@);
    proof {
        lemma_views_push(done@, part);
    }
    done.push(part);
    done
}

/// The maximal runs of characters that are not white space.
pub open spec fn words(text: Seq<char>) -> Seq<Seq<char>>
    decreases text.len(),
{
    if text.len() == 0 {
        Seq::empty()
    } else {
        let before = words(text.drop_last());
        if white(text.last()) {
            before
        } else if text.len() >= 2 && !white(text[text.len() - 2]) {
            before.drop_last().push(before.last().push(text.last()))
        } else {
            before.push(seq![text.last()])
        }
    }
}

/// The maximal runs of characters that are not white space.
pub fn split_words(text: &str) -> (parts: Vec<String>)
    ensures
        views(parts@) == words(text@),
{
    let chars = chars_of(text);
    let mut done: Vec<String> = Vec::new();
    let mut part = String::new();
    let mut open: bool = false;
    let mut i: usize = 0;
    assert(text@.take(0) =~= Seq::<char>::empty());
    assert(views(done@) =~= words(text@.take(0)));
    while i < chars.len()
        invariant
            chars@ == text@,
            i <= chars.len(),
            open == (i > 0 && !white(text@[i - 1])),
            words(text@.take(i as int)) == (if open {
                views(done@).push(part@)
            } else {
                views(done@)
            }),
            !open ==> part@.len() == 0,
        decreases chars.len() - i,
    {
        let ghost now = text@.take(i + 1);
        assert(now.drop_last() =~= text@.take(i as int));
        assert(i > 0 ==> now[now.len() - 2] == text@[i - 1]);
        let c = chars[i];
        if is_white(c) {
            if open {
                proof {
                    lemma_views_push(done@, part);
                }
                done.push(part);
                part = String::new();
            }
            open = false;
        } else {
            assert(open ==> views(done@).push(part@).drop_last() =~= views(done@));
            part.push(c);
            open = true;
            assert(part@.len() == 1 ==> part@ =~= seq![c]);
        }
        i += 1;
        assert(words(now) =~= (if open {
            views(done@).push(part@)
        } else {
            views(done@)
        }));
    }
    assert(text@.take(i as int) =~= text@);
    if open {
        proof {
            lemma_views_push(done@, part);
        }
        done.push(part);
    }
    done
}

/// A line without the carriage return before its line feed.
pub open spec fn chomp(line: Seq<char>) -> Seq<char> {
    if line.len() > 0 && line.last() == '\r' {
        line.drop_last()
    } else {
        line
    }
}

/// The lines of a text: the parts between line feeds, each without the
/// carriage return before the line feed. What follows the last line feed is a
/// line unless it is empty.
pub open spec fn lines(text: Seq<char>) -> Seq<Seq<char>> {
    let parts = split_on(text, '\n');
    let whole = Seq::new((parts.len() - 1) as nat, |i: int| chomp(parts[i]));
    if parts.last().len() == 0 {
        whole
    } else {
        whole.push(parts.last())
    }
}

/// The lines of a text.
pub fn split_lines(text: &str) -> (result: Vec<String>)
    ensures
        views(result@) == lines(text@),
{
    let parts = split(text, '\n');
    let ghost all = split_on(text@, '\n');
    let ghost whole = Seq::new((all.len() - 1) as nat, |i: int| chomp(all[i]));
    let mut result: Vec<String> = Vec::new();
    let mut i: usize = 0;
    while i < parts.len() - 1
        invariant
            i <= parts.len() - 1,
            views(parts@) == all,
            parts.len() > 0,
            whole == Seq::new((all.len() - 1) as nat, |i: int| chomp(all[i])),
            views(result@) == whole.take(i as int),
        decreases parts.len() - i,
    {
        assert(parts@[i as int]@ == all[i as int]);
        let chars = chars_of(parts[i].as_str());
        if chars.len() > 0 && chars[chars.len() - 1] == '\r' {
            let line = text_between(&chars, 0, chars.len() - 1);
            assert(line@ =~= chomp(all[i as int]));
            result.push(line);
        } else {
            assert(chomp(all[i as int]) == parts@[i as int]@);
            result.push(parts[i].clone());
        }
        i += 1;
        assert(whole.take(i as int) =~= whole.take(i - 1).push(chomp(all[i - 1])));
        assert(views(result@) =~= whole.take(i as int));
    }
    assert(whole.take(i as int) =~= whole);
    let ghost before = result@;
    assert(parts@[i as int]@ == all.last());
    if parts[i].as_str().unicode_len() > 0 {
        result.push(parts[i].clone());
    }
    assert(views(result@) =~= lines(text@));
    result
}

/// The parts put together, with the separator between each two.
pub open spec fn joined(parts: Seq<Seq<char>>, separator: Seq<char>) -> Seq<char>
    decreases parts.len(),
{
    if parts.len() == 0 {
        Seq::empty()
    } else if parts.len() == 1 {
        parts[0]
    } else {
        joined(parts.drop_last(), separator) + separator + parts.last()
    }
}

/// The parts put together, with the separator between each two.
pub fn join(parts: &Vec<String>, separator: &str) -> (text: String)
    ensures
        text@ == joined(views(parts@), separator@),
{
    let mut text = String::new();
    let mut i: usize = 0;
    let ghost all = views(parts@);
    assert(all.take(0) =~= Seq::<Seq<char>>::empty());
    while i < parts.len()
        invariant
            i <= parts.len(),
            all == views(parts@),
            text@ == joined(all.take(i as int), separator@),
        decreases parts.len() - i,
    {
        let ghost now = all.take(i + 1);
        assert(now.drop_last() =~= all.take(i as int));
        if i > 0 {
            text.append(separator);
        }
        let ghost before = text@;
        text.append(parts[i].as_str());
        i += 1;
        assert(text@ =~= joined(now, separator@));
    }
    assert(all.take(i as int) =~= all);
    text
}

// ---------------------------------------------------------------------------
// Numbers
// ---------------------------------------------------------------------------

/// The digit character of a number below ten.
pub open spec fn digit(n: nat) -> char {
    ((48 + n) as u8) as char
}

/// The decimal digits of a number, without leading zeros.
pub open spec fn decimal(n: nat) -> Seq<char>
    decreases n,
{
    if n < 10 {
        seq![digit(n)]
    } else {
        decimal(n / 10).push(digit(n % 10))
    }
}

/// The digits of a number stand for it, so that two numbers never have the same digits.
pub proof fn lemma_decimal(n: nat)
    ensures
        digits_value(decimal(n)) == n,
    decreases n,
{
    reveal_with_fuel(digits_value, 2);
    if n < 10 {
        assert(decimal(n).drop_last() =~= Seq::<char>::empty());
        assert(decimal(n).last() as u32 == 48 + n);
    } else {
        lemma_decimal(n / 10);
        assert(decimal(n).drop_last() =~= decimal(n / 10));
        assert(decimal(n).last() as u32 == 48 + n % 10);
    }
}

/// The decimal digits of a number.
pub fn decimal_text(n: u64) -> (text: String)
    ensures
        text@ == decimal(n as nat),
    decreases n,
{
    let code: u8 = 48 + (n % 10) as u8;
    let last = code as char;
    if n < 10 {
        let mut text = String::new();
        text.push(last);
        assert(text@ =~= seq![digit(n as nat)]);
        text
    } else {
        let mut text = decimal_text(n / 10);
        text.push(last);
        text
    }
}

/// Whether every character is a decimal digit.
pub open spec fn all_digits(text: Seq<char>) -> bool {
    forall|i: int| 0 <= i < text.len() ==> '0' <= #[trigger] text[i] <= '9'
}

/// The number that decimal digits stand for.
pub open spec fn digits_value(digits: Seq<char>) -> nat
    decreases digits.len(),
{
    if digits.len() == 0 {
        0
    } else {
        digits_value(digits.drop_last()) * 10 + (digits.last() as u32 - 48) as nat
    }
}

/// The text without one leading plus sign.
pub open spec fn unsigned_part(text: Seq<char>) -> Seq<char> {
    if text.len() > 0 && text[0] == '+' {
        text.drop_first()
    } else {
        text
    }
}

/// The number of sixteen bits that a text stands for: decimal digits, at least
/// one, behind an optional plus sign, and not too large.
pub open spec fn short_number(text: Seq<char>) -> Option<u16> {
    let digits = unsigned_part(text);
    if digits.len() > 0 && all_digits(digits) && digits_value(digits) <= u16::MAX {
        Some(digits_value(digits) as u16)
    } else {
        None
    }
}

proof fn lemma_digits_grow(digits: Seq<char>, n: int)
    requires
        all_digits(digits),
        0 <= n <= digits.len(),
    ensures
        digits_value(digits.take(n)) <= digits_value(digits),
    decreases digits.len() - n,
{
    if n < digits.len() {
        lemma_digits_grow(digits, n + 1);
        assert(digits.take(n + 1).drop_last() =~= digits.take(n));
        assert('0' <= digits[n] <= '9');
    } else {
        assert(digits.take(n) =~= digits);
    }
}

/// The number of sixteen bits that a text stands for.
pub fn parse_short(text: &str) -> (n: Option<u16>)
    ensures
        n == short_number(text@),
{
    let chars = chars_of(text);
    let from: usize = if chars.len() > 0 && chars[0] == '+' {
        1
    } else {
        0
    };
    let ghost digits = unsigned_part(text@);
    assert(digits =~= text@.skip(from as int));
    if from == chars.len() {
        return None;
    }
    let mut value: u32 = 0;
    let mut i: usize = from;
    assert(digits.take(0) =~= Seq::<char>::empty());
    while i < chars.len()
        invariant
            chars@ == text@,
            from <= i <= chars.len(),
            digits == text@.skip(from as int),
            digits == unsigned_part(text@),
            value <= u16::MAX,
            forall|k: int| 0 <= k < i - from ==> '0' <= #[trigger] digits[k] <= '9',
            value == digits_value(digits.take(i - from)),
        decreases chars.len() - i,
    {
        let c = chars[i];
        assert(digits[i - from] == c);
        if !('0' <= c && c <= '9') {
            assert(!all_digits(digits));
            return None;
        }
        assert(digits.take(i - from + 1).drop_last() =~= digits.take(i - from));
        value = value * 10 + (c as u32 - 48);
        if value > 65535 {
            proof {
                if all_digits(digits) {
                    lemma_digits_grow(digits, i - from + 1);
                }
            }
            return None;
        }
        i += 1;
    }
    assert(digits.take(i - from) =~= digits);
    assert(all_digits(digits));
    Some(value as u16)
}

/// The number of sixty-four bits that a text stands for: decimal digits, at least one,
/// behind an optional plus sign, and not too large.
pub open spec fn long_number(text: Seq<char>) -> Option<u64> {
    let digits = unsigned_part(text);
    if digits.len() > 0 && all_digits(digits) && digits_value(digits) <= u64::MAX {
        Some(digits_value(digits) as u64)
    } else {
        None
    }
}

/// The number of sixty-four bits that a text stands for.
pub fn parse_long(text: &str) -> (n: Option<u64>)
    ensures
        n == long_number(text@),
{
    let chars = chars_of(text);
    let from: usize = if chars.len() > 0 && chars[0] == '+' {
        1
    } else {
        0
    };
    let ghost digits = unsigned_part(text@);
    assert(digits =~= text@.skip(from as int));
    if from == chars.len() {
        return None;
    }
    let mut value: u128 = 0;
    let mut i: usize = from;
    assert(digits.take(0) =~= Seq::<char>::empty());
    while i < chars.len()
        invariant
            chars@ == text@,
            from <= i <= chars.len(),
            digits == text@.skip(from as int),
            digits == unsigned_part(text@),
            value <= u64::MAX,
            forall|k: int| 0 <= k < i - from ==> '0' <= #[trigger] digits[k] <= '9',
            value == digits_value(digits.take(i - from)),
        decreases chars.len() - i,
    {
        let c = chars[i];
        assert(digits[i - from] == c);
        if !('0' <= c && c <= '9') {
            assert(!all_digits(digits));
            return None;
        }
        assert(digits.take(i - from + 1).drop_last() =~= digits.take(i - from));
        value = value * 10 + (c as u32 - 48) as u128;
        if value > u64::MAX as u128 {
            proof {
                if all_digits(digits) {
                    lemma_digits_grow(digits, i - from + 1);
                }
            }
            return None;
        }
        i += 1;
    }
    assert(digits.take(i - from) =~= digits);
    assert(all_digits(digits));
    Some(value as u64)
}

// ---------------------------------------------------------------------------
// Sizes in UTF-8
// ---------------------------------------------------------------------------

/// The number of bytes of a text in UTF-8.
pub open spec fn byte_count(text: Seq<char>) -> nat {
    vstd::utf8::encode_utf8(text).len()
}

/// The number of bytes of a text in UTF-8.
pub fn byte_len(text: &str) -> (n: usize)
    ensures
        n == byte_count(text@),
{
    text.as_bytes().len()
}

/// The number of bytes of one character in UTF-8.
pub fn char_width(c: char) -> (n: usize)
    ensures
        n == byte_count(seq![c]),
{
    let mut one = String::new();
    one.push(c);
    assert(one@ =~= seq![c]);
    byte_len(one.as_str())
}

/// How many characters at the beginning of a text fit into `max` bytes.
pub open spec fn fitting(text: Seq<char>, max: nat) -> nat
    decreases text.len(),
{
    if text.len() == 0 || byte_count(seq![text[0]]) > max {
        0
    } else {
        1 + fitting(text.drop_first(), (max - byte_count(seq![text[0]])) as nat)
    }
}

/// The text where it has at most `max` bytes, else the characters that fit and
/// an ellipsis.
pub open spec fn clipped(text: Seq<char>, max: nat) -> Seq<char> {
    if byte_count(text) <= max {
        text
    } else {
        text.take(fitting(text, max) as int) + "\u{2026}"@
    }
}

/// What fits is a beginning of the text.
pub proof fn lemma_fitting_bound(text: Seq<char>, max: nat)
    ensures
        fitting(text, max) <= text.len(),
    decreases text.len(),
{
    if text.len() > 0 && byte_count(seq![text[0]]) <= max {
        lemma_fitting_bound(text.drop_first(), (max - byte_count(seq![text[0]])) as nat);
    }
}

/// The text, cut after `max` bytes and marked with an ellipsis where it is longer.
pub fn clip(text: &str, max: usize) -> (result: String)
    ensures
        result@ == clipped(text@, max as nat),
{
    if byte_len(text) <= max {
        return text.to_string();
    }
    let chars = chars_of(text);
    let mut left: usize = max;
    let mut i: usize = 0;
    assert(chars@.skip(0) =~= chars@);
    let mut going = true;
    while going
        invariant
            chars@ == text@,
            i <= chars.len(),
            left <= max,
            going ==> fitting(text@, max as nat) == i + fitting(chars@.skip(i as int), left as nat),
            !going ==> fitting(text@, max as nat) == i,
        decreases chars.len() - i + (if going { 1int } else { 0int }),
    {
        if i == chars.len() {
            going = false;
        } else {
            let width: usize = char_width(chars[i]);
            assert(chars@.skip(i as int)[0] == chars@[i as int]);
            if width > left {
                going = false;
            } else {
                assert(chars@.skip(i as int).drop_first() =~= chars@.skip(i + 1));
                left -= width;
                i += 1;
            }
        }
    }
    let mut result = text_between(&chars, 0, i);
    assert(result@ =~= text@.take(i as int));
    result.append("\u{2026}");
    result
}

/// The text that bytes are in UTF-8, if they are one.
pub open spec fn utf8_text(bytes: Seq<u8>) -> Option<Seq<char>> {
    if vstd::utf8::valid_utf8(bytes) {
        Some(vstd::utf8::decode_utf8(bytes))
    } else {
        None
    }
}

/// A text is what its bytes are in UTF-8.
pub proof fn lemma_utf8_text(text: Seq<char>)
    ensures
        utf8_text(vstd::utf8::encode_utf8(text)) == Some(text),
{
    vstd::utf8::encode_utf8_valid_utf8(text);
    vstd::utf8::encode_utf8_decode_utf8(text);
}

/// `String::from_utf8`: the text that the bytes are in UTF-8, or none where they are
/// not UTF-8.
#[verifier::external_body]
pub(crate) fn text_of_bytes(bytes: &Vec<u8>) -> (text: Option<String>)
    ensures
        opt_view(text) == utf8_text(bytes@),
{
    String::from_utf8(bytes.clone()).ok()
}

/// Bytes as text, with a replacement character for what is not UTF-8.
pub uninterp spec fn lossy(bytes: Seq<u8>) -> Seq<char>;

/// `String::from_utf8_lossy`: the text of the bytes, with replacement characters
/// where they are not UTF-8. The bytes alone decide, and where they are UTF-8 the
/// text has exactly these bytes.
#[verifier::external_body]
pub(crate) fn lossy_text(bytes: &Vec<u8>) -> (text: String)
    ensures
        text@ == lossy(bytes@),
        vstd::utf8::valid_utf8(bytes@) ==> vstd::utf8::encode_utf8(text@) == bytes@,
{
    String::from_utf8_lossy(bytes).into_owned()
}

} // verus!
