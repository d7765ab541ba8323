//! Text as the library reads it: sequences of characters.

use vstd::prelude::*;
use vstd::string::*;
use vstd::utf8::{encode_utf8, encode_utf8_decode_utf8};

verus! {

// ---------------------------------------------------------------------------
// What the functions of this module compute
// ---------------------------------------------------------------------------

/// The texts, with a separator between each two.
pub open spec fn join(texts: Seq<Seq<char>>, separator: Seq<char>) -> Seq<char>
    decreases texts.len(),
{
    if texts.len() == 0 {
        seq![]
    } else if texts.len() == 1 {
        texts[0]
    } else {
        join(texts.drop_last(), separator) + separator + texts.last()
    }
}

/// The pattern stands in the text at that place.
pub open spec fn occurs_at(text: Seq<char>, pattern: Seq<char>, at: int) -> bool {
    0 <= at && at + pattern.len() <= text.len() && text.subrange(at, at + pattern.len()) == pattern
}

/// The pattern stands somewhere in the text.
pub open spec fn occurs(text: Seq<char>, pattern: Seq<char>) -> bool {
    exists|at: int| #[trigger] occurs_at(text, pattern, at)
}

/// The text starts with the prefix.
pub open spec fn starts_with(text: Seq<char>, prefix: Seq<char>) -> bool {
    occurs_at(text, prefix, 0)
}

/// A character with Unicode's property White_Space.
pub open spec fn is_whitespace(c: char) -> bool {
    ||| '\u{9}' <= c <= '\u{d}'
    ||| c == ' '
    ||| c == '\u{85}'
    ||| c == '\u{a0}'
    ||| c == '\u{1680}'
    ||| '\u{2000}' <= c <= '\u{200a}'
    ||| c == '\u{2028}'
    ||| c == '\u{2029}'
    ||| c == '\u{202f}'
    ||| c == '\u{205f}'
    ||| c == '\u{3000}'
}

/// The text without whitespace at its start.
pub open spec fn trim_start(text: Seq<char>) -> Seq<char>
    decreases text.len(),
{
    if text.len() > 0 && is_whitespace(text[0]) {
        trim_start(text.drop_first())
    } else {
        text
    }
}

/// The text without whitespace at its end.
pub open spec fn trim_end(text: Seq<char>) -> Seq<char>
    decreases text.len(),
{
    if text.len() > 0 && is_whitespace(text.last()) {
        trim_end(text.drop_last())
    } else {
        text
    }
}

/// The text without whitespace at either end.
pub open spec fn trim(text: Seq<char>) -> Seq<char> {
    trim_end(trim_start(text))
}

/// The text up to the first occurrence of a character, or all of it.
pub open spec fn before(text: Seq<char>, stop: char) -> Seq<char>
    decreases text.len(),
{
    if text.len() == 0 || text[0] == stop {
        seq![]
    } else {
        seq![text[0]] + before(text.drop_first(), stop)
    }
}

/// The text without any occurrence of a character.
pub open spec fn without(text: Seq<char>, dropped: char) -> Seq<char> {
    text.filter(|c: char| c != dropped)
}

/// A line without the carriage return that its line feed followed.
pub open spec fn without_return(line: Seq<char>) -> Seq<char> {
    if line.len() > 0 && line.last() == '\r' {
        line.drop_last()
    } else {
        line
    }
}

/// The lines of a text, where `line` has been read of the first. A line ends at
/// a line feed, with or without a carriage return before it; the last one may
/// end at the end of the text.
pub open spec fn lines_after(line: Seq<char>, text: Seq<char>) -> Seq<Seq<char>>
    decreases text.len(),
{
    if text.len() == 0 {
        if line.len() == 0 {
            seq![]
        } else {
            seq![line]
        }
    } else if text[0] == '\n' {
        seq![without_return(line)] + lines_after(seq![], text.drop_first())
    } else {
        lines_after(line.push(text[0]), text.drop_first())
    }
}

/// The lines of a text.
pub open spec fn lines(text: Seq<char>) -> Seq<Seq<char>> {
    lines_after(seq![], text)
}

/// The views of a list of strings.
pub open spec fn views(texts: Seq<String>) -> Seq<Seq<char>> {
    texts.map_values(|t: String| t@)
}

// ---------------------------------------------------------------------------
// The functions
// ---------------------------------------------------------------------------

/// Whether two texts hold the same characters.
pub fn same_text(a: &str, b: &str) -> (same: bool)
    ensures
        same == (a@ == b@),
{
    let left: &[u8] = a.as_bytes();
    let right: &[u8] = b.as_bytes();
    let count: usize = left.len();
    if count != right.len() {
        return false;
    }
    let mut i: usize = 0;
    while i < count
        invariant
            i <= count,
            count == left.len(),
            count == right.len(),
            left@ == encode_utf8(a@),
            right@ == encode_utf8(b@),
            forall|j: int| 0 <= j < i ==> left@[j] == right@[j],
        decreases count - i,
    {
        if left[i] != right[i] {
            return false;
        }
        i = i + 1;
    }
    proof {
        assert(left@ =~= right@);
        encode_utf8_decode_utf8(a@);
        encode_utf8_decode_utf8(b@);
    }
    true
}

/// `String::push` appends one character.
pub assume_specification[ String::push ](text: &mut String, c: char)
    ensures
        final(text)@ == old(text)@.push(c),
;

/// The characters of a text.
pub fn chars_of(text: &str) -> (chars: Vec<char>)
    ensures
        chars@ == text@,
{
    let mut chars: Vec<char> = Vec::new();
    for c in iter: text.chars()
        invariant
            iter.seq() == text@,
            chars@ == text@.take(iter.index() as int),
    {
        chars.push(c);
        proof {
            assert(text@.take(iter.index() + 1) =~= text@.take(iter.index() as int).push(c));
        }
    }
    proof {
        assert(text@.take(text@.len() as int) =~= text@);
    }
    chars
}

/// The text of a list of characters.
pub fn text_of(chars: &Vec<char>) -> (text: String)
    ensures
        text@ == chars@,
{
    let mut text: String = String::new();
    let mut i: usize = 0;
    while i < chars.len()
        invariant
            i <= chars.len(),
            text@ == chars@.take(i as int),
        decreases chars.len() - i,
    {
        text.push(chars[i]);
        proof {
            assert(chars@.take(i + 1) =~= chars@.take(i as int).push(chars@[i as int]));
        }
        i = i + 1;
    }
    proof {
        assert(chars@.take(chars@.len() as int) =~= chars@);
    }
    text
}

/// A part of a list of characters, as a list of its own.
pub fn part_of(chars: &Vec<char>, from: usize, to: usize) -> (part: Vec<char>)
    requires
        from <= to <= chars@.len(),
    ensures
        part@ == chars@.subrange(from as int, to as int),
{
    let mut part: Vec<char> = Vec::new();
    let mut i: usize = from;
    while i < to
        invariant
            from <= i <= to <= chars@.len(),
            part@ == chars@.subrange(from as int, i as int),
        decreases to - i,
    {
        part.push(chars[i]);
        proof {
            assert(chars@.subrange(from as int, i + 1) =~= chars@.subrange(
                from as int,
                i as int,
            ).push(chars@[i as int]));
        }
        i = i + 1;
    }
    part
}

/// The texts, with a separator between each two.
pub fn join_texts(texts: &Vec<String>, separator: &str) -> (joined: String)
    ensures
        joined@ == join(views(texts@), separator@),
{
    let mut joined: String = String::new();
    let count: usize = texts.len();
    let mut i: usize = 0;
    while i < count
        invariant
            i <= count,
            count == texts.len(),
            joined@ == join(views(texts@).take(i as int), separator@),
        decreases count - i,
    {
        if i > 0 {
            joined.append(separator);
        }
        joined.append(texts[i].as_str());
        proof {
            let all = views(texts@);
            assert(all.take(i + 1).drop_last() =~= all.take(i as int));
            assert(all.take(i + 1).last() == texts@[i as int]@);
            if i == 0 {
                assert(joined@ =~= texts@[0]@);
            }
        }
        i = i + 1;
    }
    proof {
        assert(views(texts@).take(count as int) =~= views(texts@));
    }
    joined
}

/// Whether the pattern stands in the list at that place.
fn stands_at(text: &Vec<char>, pattern: &Vec<char>, at: usize) -> (found: bool)
    requires
        at + pattern@.len() <= text@.len(),
    ensures
        found == occurs_at(text@, pattern@, at as int),
{
    let count: usize = pattern.len();
    let mut i: usize = 0;
    while i < count
        invariant
            i <= count,
            count == pattern.len(),
            at + count <= text.len(),
            forall|j: int| 0 <= j < i ==> text@[at + j] == #[trigger] pattern@[j],
        decreases count - i,
    {
        if text[at + i] != pattern[i] {
            proof {
                let part = text@.subrange(at as int, at + count);
                assert(part[i as int] == text@[at + i]);
            }
            return false;
        }
        i = i + 1;
    }
    proof {
        assert(text@.subrange(at as int, at + count) =~= pattern@);
    }
    true
}

/// Whether the pattern stands somewhere in the text.
pub fn contains(text: &str, pattern: &str) -> (found: bool)
    ensures
        found == occurs(text@, pattern@),
{
    let chars: Vec<char> = chars_of(text);
    let wanted: Vec<char> = chars_of(pattern);
    if wanted.len() > chars.len() {
        return false;
    }
    let last: usize = chars.len() - wanted.len();
    let mut at: usize = 0;
    loop
        invariant
            at <= last,
            last + wanted.len() == chars.len(),
            chars@ == text@,
            wanted@ == pattern@,
            forall|j: int| 0 <= j < at ==> !#[trigger] occurs_at(text@, pattern@, j),
        decreases last - at,
    {
        if stands_at(&chars, &wanted, at) {
            return true;
        }
        if at == last {
            return false;
        }
        at = at + 1;
    }
}

/// Whether the text starts with the prefix.
pub fn has_prefix(text: &str, prefix: &str) -> (found: bool)
    ensures
        found == starts_with(text@, prefix@),
{
    let chars: Vec<char> = chars_of(text);
    let wanted: Vec<char> = chars_of(prefix);
    wanted.len() <= chars.len() && stands_at(&chars, &wanted, 0)
}

/// What follows the prefix, where the text starts with it.
pub fn strip_prefix(text: &str, prefix: &str) -> (rest: Option<String>)
    ensures
        match rest {
            Some(r) => starts_with(text@, prefix@) && r@ == text@.skip(prefix@.len() as int),
            None => !starts_with(text@, prefix@),
        },
{
    let chars: Vec<char> = chars_of(text);
    let wanted: Vec<char> = chars_of(prefix);
    if wanted.len() <= chars.len() && stands_at(&chars, &wanted, 0) {
        let rest: Vec<char> = part_of(&chars, wanted.len(), chars.len());
        proof {
            assert(rest@ =~= text@.skip(prefix@.len() as int));
        }
        Some(text_of(&rest))
    } else {
        None
    }
}

/// Whether a character has Unicode's property White_Space.
pub fn whitespace(c: char) -> (white: bool)
    ensures
        white == is_whitespace(c),
{
    ('\u{9}' <= c && c <= '\u{d}') || c == ' ' || c == '\u{85}' || c == '\u{a0}' || c == '\u{1680}'
        || ('\u{2000}' <= c && c <= '\u{200a}') || c == '\u{2028}' || c == '\u{2029}' || c
        == '\u{202f}' || c == '\u{205f}' || c == '\u{3000}'
}

/// The text without whitespace at either end.
pub fn trimmed(text: &str) -> (rest: String)
    ensures
        rest@ == trim(text@),
{
    let chars: Vec<char> = chars_of(text);
    let mut from: usize = 0;
    proof {
        assert(chars@.subrange(0, chars@.len() as int) =~= chars@);
    }
    while from < chars.len() && whitespace(chars[from])
        invariant
            from <= chars.len(),
            trim_start(chars@) == trim_start(chars@.subrange(from as int, chars@.len() as int)),
        decreases chars.len() - from,
    {
        proof {
            assert(chars@.subrange(from as int, chars@.len() as int).drop_first()
                =~= chars@.subrange(from + 1, chars@.len() as int));
        }
        from = from + 1;
    }
    let ghost rest = chars@.subrange(from as int, chars@.len() as int);
    let mut to: usize = chars.len();
    while from < to && whitespace(chars[to - 1])
        invariant
            from <= to <= chars.len(),
            trim_end(rest) == trim_end(chars@.subrange(from as int, to as int)),
        decreases to - from,
    {
        proof {
            assert(chars@.subrange(from as int, to as int).drop_last() =~= chars@.subrange(
                from as int,
                to - 1,
            ));
        }
        to = to - 1;
    }
    let part: Vec<char> = part_of(&chars, from, to);
    text_of(&part)
}

/// The text up to the first occurrence of a character, or all of it.
pub fn text_before(text: &str, stop: char) -> (start: String)
    ensures
        start@ == before(text@, stop),
{
    let chars: Vec<char> = chars_of(text);
    let mut start: String = String::new();
    let mut i: usize = 0;
    proof {
        assert(chars@.skip(0) =~= chars@);
        assert(start@ + before(chars@.skip(0), stop) =~= before(chars@, stop));
    }
    while i < chars.len() && chars[i] != stop
        invariant
            i <= chars.len(),
            start@ + before(chars@.skip(i as int), stop) == before(chars@, stop),
        decreases chars.len() - i,
    {
        let ghost old_start = start@;
        start.push(chars[i]);
        proof {
            let rest = chars@.skip(i as int);
            assert(rest.drop_first() =~= chars@.skip(i + 1));
            assert(old_start + before(rest, stop) =~= start@ + before(chars@.skip(i + 1), stop));
        }
        i = i + 1;
    }
    proof {
        assert(start@ + before(chars@.skip(i as int), stop) =~= start@);
    }
    start
}

/// The text without any occurrence of a character.
pub fn text_without(text: &str, dropped: char) -> (rest: String)
    ensures
        rest@ == without(text@, dropped),
{
    let chars: Vec<char> = chars_of(text);
    let mut rest: String = String::new();
    let mut i: usize = 0;
    proof {
        reveal(Seq::filter);
        assert(without(chars@.take(0), dropped) =~= seq![]);
    }
    while i < chars.len()
        invariant
            i <= chars.len(),
            rest@ == without(chars@.take(i as int), dropped),
        decreases chars.len() - i,
    {
        if chars[i] != dropped {
            rest.push(chars[i]);
        }
        proof {
            reveal(Seq::filter);
            assert(chars@.take(i + 1).drop_last() =~= chars@.take(i as int));
            assert(chars@.take(i + 1).last() == chars@[i as int]);
        }
        i = i + 1;
    }
    proof {
        assert(chars@.take(chars@.len() as int) =~= chars@);
    }
    rest
}

/// The lines of a text.
pub fn split_lines(text: &Vec<char>) -> (all: Vec<String>)
    ensures
        views(all@) == lines(text@),
{
    let mut all: Vec<String> = Vec::new();
    let mut line: Vec<char> = Vec::new();
    let mut i: usize = 0;
    proof {
        assert(text@.skip(0) =~= text@);
        assert(views(all@) + lines(text@) =~= lines(text@));
        assert(line@ =~= seq![]);
    }
    while i < text.len()
        invariant
            i <= text.len(),
            views(all@) + lines_after(line@, text@.skip(i as int)) == lines(text@),
        decreases text.len() - i,
    {
        let ghost rest = text@.skip(i as int);
        let ghost old_all = views(all@);
        let ghost old_line = line@;
        let c: char = text[i];
        proof {
            assert(rest.drop_first() =~= text@.skip(i + 1));
        }
        if c == '\n' {
            let count: usize = line.len();
            let kept: usize = if count > 0 && line[count - 1] == '\r' {
                count - 1
            } else {
                count
            };
            let part: Vec<char> = part_of(&line, 0, kept);
            proof {
                assert(part@ =~= without_return(old_line));
            }
            all.push(text_of(&part));
            line = Vec::new();
            proof {
                assert(line@ =~= seq![]);
                assert(views(all@) =~= old_all.push(without_return(old_line)));
                assert(old_all + lines_after(old_line, rest) =~= views(all@) + lines_after(
                    line@,
                    text@.skip(i + 1),
                ));
            }
        } else {
            line.push(c);
        }
        i = i + 1;
    }
    if line.len() > 0 {
        let ghost old_all = views(all@);
        all.push(text_of(&line));
        proof {
            assert(views(all@) =~= old_all + seq![line@]);
        }
    } else {
        proof {
            assert(views(all@) + lines_after(line@, text@.skip(i as int)) =~= views(all@));
        }
    }
    all
}

// ---------------------------------------------------------------------------
// Laws
// ---------------------------------------------------------------------------

/// Joined texts stand in order with the separator between each two, and nowhere
/// else: one text more comes behind the others and one more separator.
pub proof fn law_join(texts: Seq<Seq<char>>, text: Seq<char>, separator: Seq<char>)
    ensures
        join(seq![], separator) == Seq::<char>::empty(),
        join(seq![text], separator) == text,
        texts.len() > 0 ==> join(texts.push(text), separator) == join(texts, separator) + separator
            + text,
{
    assert(texts.push(text).drop_last() =~= texts);
}

/// A text starts with a prefix exactly where it is the prefix and something
/// behind it, and a pattern stands in a text exactly where it stands between two
/// parts of it.
pub proof fn law_patterns_are_found(text: Seq<char>, a: Seq<char>, pattern: Seq<char>, b: Seq<char>)
    ensures
        starts_with(pattern + b, pattern),
        starts_with(text, pattern) ==> text == pattern + text.skip(pattern.len() as int),
        occurs(a + pattern + b, pattern),
        occurs(text, pattern) ==> exists|at: int|
            0 <= at <= text.len() - pattern.len() && text == #[trigger] text.take(at) + pattern
                + text.skip(at + pattern.len()),
{
    assert((pattern + b).subrange(0, pattern.len() as int) =~= pattern);
    let whole = a + pattern + b;
    assert(whole.subrange(a.len() as int, a.len() as int + pattern.len()) =~= pattern);
    assert(occurs_at(whole, pattern, a.len() as int));
    if starts_with(text, pattern) {
        assert(text =~= text.subrange(0, pattern.len() as int) + text.skip(pattern.len() as int));
    }
    if occurs(text, pattern) {
        let at = choose|at: int| #[trigger] occurs_at(text, pattern, at);
        assert(text =~= text.take(at) + text.subrange(at, at + pattern.len()) + text.skip(
            at + pattern.len(),
        ));
        assert(text == text.take(at) + pattern + text.skip(at + pattern.len()));
    }
}

proof fn lemma_trim_start(text: Seq<char>)
    ensures
        trim_start(text).len() > 0 ==> !is_whitespace(trim_start(text)[0]),
        trim_start(text).len() <= text.len(),
        text.skip(text.len() - trim_start(text).len()) == trim_start(text),
        forall|i: int|
            0 <= i < text.len() - trim_start(text).len() ==> is_whitespace(#[trigger] text[i]),
    decreases text.len(),
{
    if text.len() > 0 && is_whitespace(text[0]) {
        let rest = text.drop_first();
        lemma_trim_start(rest);
        let cut = text.len() - trim_start(text).len();
        assert(text.skip(cut) =~= rest.skip(cut - 1));
        assert forall|i: int| 0 <= i < cut implies is_whitespace(#[trigger] text[i]) by {
            if i > 0 {
                assert(text[i] == rest[i - 1]);
            }
        }
    } else {
        assert(text.skip(0) =~= text);
    }
}

proof fn lemma_trim_end(text: Seq<char>)
    ensures
        trim_end(text).len() > 0 ==> !is_whitespace(trim_end(text).last()),
        trim_end(text).len() <= text.len(),
        text.take(trim_end(text).len() as int) == trim_end(text),
        forall|i: int|
            trim_end(text).len() <= i < text.len() ==> is_whitespace(#[trigger] text[i]),
    decreases text.len(),
{
    if text.len() > 0 && is_whitespace(text.last()) {
        let rest = text.drop_last();
        lemma_trim_end(rest);
        let kept = trim_end(text).len() as int;
        assert(text.take(kept) =~= rest.take(kept));
        assert forall|i: int| kept <= i < text.len() implies is_whitespace(#[trigger] text[i]) by {
            if i < rest.len() {
                assert(text[i] == rest[i]);
            }
        }
    } else {
        assert(text.take(text.len() as int) =~= text);
    }
}

/// A trimmed text is the part of the text between whitespace: it neither starts
/// nor ends with whitespace, and all that is cut off is whitespace.
pub proof fn law_trim(text: Seq<char>)
    ensures
        trim(text).len() > 0 ==> !is_whitespace(trim(text)[0]) && !is_whitespace(
            trim(text).last(),
        ),
        exists|from: int, to: int|
            0 <= from <= to <= text.len() && trim(text) == #[trigger] text.subrange(from, to) && (
            forall|i: int|
                (0 <= i < from || to <= i < text.len()) ==> is_whitespace(#[trigger] text[i])),
{
    lemma_trim_start(text);
    let started = trim_start(text);
    lemma_trim_end(started);
    let from = text.len() - started.len();
    let to = from + trim(text).len();
    if trim(text).len() > 0 {
        assert(trim(text)[0] == started.take(trim(text).len() as int)[0]);
    }
    assert(trim(text) =~= text.subrange(from, to)) by {
        assert(started =~= text.skip(from));
        assert(trim(text) =~= started.take(trim(text).len() as int));
    }
    assert forall|i: int|
        (0 <= i < from || to <= i < text.len()) implies is_whitespace(#[trigger] text[i]) by {
        if to <= i < text.len() {
            assert(text[i] == started[i - from]);
        }
    }
}

/// What stands before a character holds none of it, and the character stands
/// behind it where it occurs at all; without a character all others are left, in
/// their order.
pub proof fn law_cut_at_a_character(text: Seq<char>, c: char, other: char)
    ensures
        !before(text, c).contains(c),
        before(text, c).len() <= text.len(),
        text.take(before(text, c).len() as int) == before(text, c),
        before(text, c).len() < text.len() ==> text[before(text, c).len() as int] == c,
        without(text.push(other), c) == if other == c {
            without(text, c)
        } else {
            without(text, c).push(other)
        },
        without(seq![], c) == Seq::<char>::empty(),
    decreases text.len(),
{
    reveal(Seq::filter);
    assert(text.push(other).drop_last() =~= text);
    let start = before(text, c);
    if text.len() > 0 && text[0] != c {
        let rest = text.drop_first();
        law_cut_at_a_character(rest, c, other);
        assert(text.take(start.len() as int) =~= seq![text[0]] + rest.take(start.len() - 1));
        if start.contains(c) {
            let i = choose|i: int| 0 <= i < start.len() && start[i] == c;
            assert(before(rest, c)[i - 1] == c);
        }
        if start.len() < text.len() {
            assert(text[start.len() as int] == rest[start.len() - 1]);
        }
    } else {
        assert(text.take(0) =~= seq![]);
    }
}

/// The lines of a text are what stands between its line feeds, without the
/// carriage return before one; a last line may do without.
pub proof fn law_lines(line: Seq<char>, rest: Seq<char>)
    requires
        !line.contains('\n'),
    ensures
        lines(seq![]) == Seq::<Seq<char>>::empty(),
        line.len() > 0 ==> lines(line) == seq![line],
        lines(line + "\n"@ + rest) == seq![
            if line.len() > 0 && line.last() == '\r' {
                line.drop_last()
            } else {
                line
            },
        ] + lines(rest),
{
    lemma_lines_read(seq![], line, rest);
    assert(seq![] + line =~= line);
}

proof fn lemma_lines_read(start: Seq<char>, line: Seq<char>, rest: Seq<char>)
    requires
        !line.contains('\n'),
    ensures
        start.len() + line.len() > 0 ==> lines_after(start, line) == seq![start + line],
        lines_after(start, line + "\n"@ + rest) == seq![without_return(start + line)]
            + lines_after(seq![], rest),
    decreases line.len(),
{
    reveal_strlit("\n");
    assert("\n"@.len() == 1);
    let text = line + "\n"@ + rest;
    if line.len() == 0 {
        assert(start + line =~= start);
        assert(text[0] == '\n');
        assert(text.drop_first() =~= rest);
    } else {
        assert(line.contains(line[0]));
        let behind = line.drop_first();
        assert(!behind.contains('\n')) by {
            if behind.contains('\n') {
                let i = choose|i: int| 0 <= i < behind.len() && behind[i] == '\n';
                assert(line[i + 1] == '\n');
            }
        }
        lemma_lines_read(start.push(line[0]), behind, rest);
        assert(start.push(line[0]) + behind =~= start + line);
        assert(text[0] == line[0]);
        assert(text.drop_first() =~= behind + "\n"@ + rest);
    }
}

} // verus!
