//! A small pattern language for kernel log lines: plain characters, `[0-9]+` and `[01]`.
use vstd::prelude::*;

use crate::number::{behind_digits, digit_run, digit_run_at_least, is_digit};
use crate::text::{chars_of, has_text, stands_at};

verus! {

/// The pattern item for one or more digits: `[0-9]+`.
pub open spec fn digits_item() -> Seq<char> {
    seq!['[', '0', '-', '9', ']', '+']
}

/// The pattern item for a single binary digit: `[01]`.
pub open spec fn bit_item() -> Seq<char> {
    seq!['[', '0', '1', ']']
}

/// `pat` matches a beginning of `hay`. The item `[0-9]+` takes every digit that stands there
/// and gives none back; a character of the pattern that begins no item stands for itself.
pub open spec fn matches_here(pat: Seq<char>, hay: Seq<char>) -> bool
    decreases pat.len(),
{
    if pat.len() == 0 {
        true
    } else if digits_item().is_prefix_of(pat) {
        digit_run(hay) > 0 && matches_here(pat.skip(6), hay.skip(digit_run(hay) as int))
    } else if bit_item().is_prefix_of(pat) {
        hay.len() > 0 && (hay[0] == '0' || hay[0] == '1') && matches_here(pat.skip(4), hay.skip(1))
    } else {
        hay.len() > 0 && hay[0] == pat[0] && matches_here(pat.skip(1), hay.skip(1))
    }
}

/// `pat` matches a part of `hay` that begins at character `at`.
pub open spec fn matches_at(pat: Seq<char>, hay: Seq<char>, at: int) -> bool {
    0 <= at <= hay.len() && matches_here(pat, hay.skip(at))
}

/// `pat` matches somewhere in `hay`.
pub open spec fn matches_somewhere(pat: Seq<char>, hay: Seq<char>) -> bool {
    exists|at: int| matches_at(pat, hay, at)
}

/// A search that steps through `hay` byte by byte stops before it would enter a character of
/// more than one byte: up to the first match, every character is ASCII.
pub open spec fn byte_search_stays_aligned(pat: Seq<char>, hay: Seq<char>) -> bool {
    forall|i: int|
        0 <= i < hay.len() && #[trigger] hay[i] > '\u{7f}' ==> exists|at: int|
            at <= i && matches_at(pat, hay, at)
}

/// A compiled pattern.
pub struct RegexLite {
    pat: &'static str,
}

/// The pattern that `pat` writes down.
pub fn regex_lite(pat: &'static str) -> (r: RegexLite)
    ensures
        r.pattern() == pat@,
{
    RegexLite { pat }
}

fn item_at(pat: &Vec<char>, p: usize, item: &Vec<char>) -> (r: bool)
    requires
        p <= pat@.len(),
    ensures
        r == item@.is_prefix_of(pat@.skip(p as int)),
{
    if item.len() > pat.len() - p {
        return false;
    }
    let mut i: usize = 0;
    while i < item.len()
        invariant
            p + item.len() <= pat.len(),
            i <= item@.len(),
            forall|j: int| 0 <= j < i ==> pat@[p + j] == item@[j],
        decreases item@.len() - i,
    {
        if pat[p + i] != item[i] {
            assert(pat@.skip(p as int).subrange(0, item@.len() as int)[i as int]
                != item@[i as int]);
            return false;
        }
        i += 1;
    }
    assert(pat@.skip(p as int).subrange(0, item@.len() as int) =~= item@);
    true
}

fn match_from(pat: &Vec<char>, hay: &Vec<char>, from: usize) -> (r: bool)
    requires
        from <= hay@.len(),
    ensures
        r == matches_here(pat@, hay@.skip(from as int)),
{
    let digits: Vec<char> = vec!['[', '0', '-', '9', ']', '+'];
    let bit: Vec<char> = vec!['[', '0', '1', ']'];
    assert(digits@ =~= digits_item());
    assert(bit@ =~= bit_item());
    let mut p: usize = 0;
    let mut h: usize = from;
    assert(pat@.skip(0) =~= pat@);
    while p < pat.len()
        invariant
            digits@ == digits_item(),
            bit@ == bit_item(),
            p <= pat@.len(),
            h <= hay@.len(),
            from <= hay@.len(),
            matches_here(pat@.skip(p as int), hay@.skip(h as int)) == matches_here(
                pat@,
                hay@.skip(from as int),
            ),
        decreases pat@.len() - p,
    {
        let ghost rest = pat@.skip(p as int);
        let ghost left = hay@.skip(h as int);
        if item_at(pat, p, &digits) {
            let end: usize = behind_digits(hay, h);
            if end == h {
                return false;
            }
            assert(rest.skip(6) =~= pat@.skip(p + 6));
            assert(left.skip(end - h) =~= hay@.skip(end as int));
            p += 6;
            h = end;
        } else if item_at(pat, p, &bit) {
            if h == hay.len() || (hay[h] != '0' && hay[h] != '1') {
                return false;
            }
            assert(rest.skip(4) =~= pat@.skip(p + 4));
            assert(left.skip(1) =~= hay@.skip(h + 1));
            p += 4;
            h += 1;
        } else {
            if h == hay.len() || hay[h] != pat[p] {
                return false;
            }
            assert(rest.skip(1) =~= pat@.skip(p + 1));
            assert(left.skip(1) =~= hay@.skip(h + 1));
            p += 1;
            h += 1;
        }
    }
    true
}

impl RegexLite {
    /// The text of the pattern.
    pub closed spec fn pattern(&self) -> Seq<char> {
        self.pat@
    }

    /// Whether the pattern matches a beginning of `hay`.
    pub fn try_at(&self, hay: &str) -> (r: bool)
        ensures
            r == matches_here(self.pattern(), hay@),
    {
        let pat: Vec<char> = chars_of(self.pat);
        let chars: Vec<char> = chars_of(hay);
        assert(chars@.skip(0) =~= hay@);
        match_from(&pat, &chars, 0)
    }

    /// Whether the pattern matches somewhere in `hay`.
    pub fn is_match(&self, hay: &str) -> (r: bool)
        requires
            byte_search_stays_aligned(self.pattern(), hay@),
        ensures
            r == matches_somewhere(self.pattern(), hay@),
    {
        let pat: Vec<char> = chars_of(self.pat);
        let chars: Vec<char> = chars_of(hay);
        let mut at: usize = 0;
        loop
            invariant
                pat@ == self.pattern(),
                chars@ == hay@,
                at <= chars@.len(),
                forall|k: int| 0 <= k < at ==> !matches_at(pat@, chars@, k),
            decreases chars@.len() - at,
        {
            if match_from(&pat, &chars, at) {
                assert(matches_at(pat@, chars@, at as int));
                return true;
            }
            if at == chars.len() {
                return false;
            }
            at += 1;
        }
    }
}

proof fn plain_match(pat: Seq<char>, hay: Seq<char>)
    requires
        !pat.contains('['),
    ensures
        matches_here(pat, hay) == pat.is_prefix_of(hay),
    decreases pat.len(),
{
    if pat.len() > 0 {
        assert(pat.contains(pat[0]));
        assert(digits_item()[0] == '[' && bit_item()[0] == '[');
        if digits_item().is_prefix_of(pat) {
            assert(pat.subrange(0, 6)[0] == '[');
        }
        if bit_item().is_prefix_of(pat) {
            assert(pat.subrange(0, 4)[0] == '[');
        }
        let rest = pat.skip(1);
        assert(!rest.contains('[')) by {
            if rest.contains('[') {
                let i = choose|i: int| 0 <= i < rest.len() && rest[i] == '[';
                assert(pat[i + 1] == '[');
            }
        }
        plain_match(rest, hay.skip(1));
        if hay.len() > 0 && hay[0] == pat[0] && rest.is_prefix_of(hay.skip(1)) {
            assert forall|i: int| 0 <= i < pat.len() implies hay[i] == pat[i] by {
                if i > 0 {
                    assert(hay.skip(1).subrange(0, rest.len() as int)[i - 1] == rest[i - 1]);
                }
            }
            assert(hay.subrange(0, pat.len() as int) =~= pat);
        }
        if pat.is_prefix_of(hay) {
            assert(hay.subrange(0, pat.len() as int)[0] == pat[0]);
            assert forall|i: int| 0 <= i < rest.len() implies hay.skip(1)[i] == rest[i] by {
                assert(hay.subrange(0, pat.len() as int)[i + 1] == pat[i + 1]);
            }
            assert(hay.skip(1).subrange(0, rest.len() as int) =~= rest);
        }
    } else {
        assert(hay.subrange(0, 0) =~= pat);
    }
}

/// A pattern without `[` is plain text: it matches exactly where that text occurs.
pub proof fn plain_pattern_is_text_search(pat: Seq<char>, hay: Seq<char>)
    requires
        !pat.contains('['),
    ensures
        matches_somewhere(pat, hay) == has_text(hay, pat),
{
    assert forall|at: int| matches_at(pat, hay, at) == stands_at(hay, pat, at) by {
        if 0 <= at <= hay.len() {
            plain_match(pat, hay.skip(at));
            if at + pat.len() <= hay.len() {
                assert(hay.skip(at).subrange(0, pat.len() as int) =~= hay.subrange(
                    at,
                    at + pat.len(),
                ));
            }
        }
    }
    if matches_somewhere(pat, hay) {
        let at = choose|at: int| matches_at(pat, hay, at);
        assert(stands_at(hay, pat, at));
    }
    if has_text(hay, pat) {
        let at = choose|at: int| stands_at(hay, pat, at);
        assert(matches_at(pat, hay, at));
    }
}

proof fn run_with_suffix(s: Seq<char>, suffix: Seq<char>)
    ensures
        digit_run(s) <= s.len(),
        digit_run(s) < s.len() ==> digit_run(s + suffix) == digit_run(s),
        digit_run(s) == s.len() ==> digit_run(s + suffix) >= s.len(),
    decreases s.len(),
{
    if s.len() > 0 && is_digit(s[0]) {
        run_with_suffix(s.drop_first(), suffix);
        assert((s + suffix).drop_first() =~= s.drop_first() + suffix);
    } else if s.len() > 0 {
        assert((s + suffix)[0] == s[0]);
    }
}

proof fn match_with_suffix(pat: Seq<char>, hay: Seq<char>, suffix: Seq<char>)
    requires
        matches_here(pat, hay),
    ensures
        matches_here(pat, hay + suffix),
    decreases pat.len(),
{
    if pat.len() == 0 {
    } else if digits_item().is_prefix_of(pat) {
        let run = digit_run(hay) as int;
        run_with_suffix(hay, suffix);
        if run < hay.len() {
            match_with_suffix(pat.skip(6), hay.skip(run), suffix);
            assert((hay + suffix).skip(run) =~= hay.skip(run) + suffix);
        } else {
            let longer = digit_run(hay + suffix) as int;
            assert(hay.skip(run) =~= Seq::<char>::empty());
            only_the_empty_pattern_matches_nothing(pat.skip(6));
            assert(matches_here(pat.skip(6), (hay + suffix).skip(longer)));
        }
    } else if bit_item().is_prefix_of(pat) {
        match_with_suffix(pat.skip(4), hay.skip(1), suffix);
        assert((hay + suffix).skip(1) =~= hay.skip(1) + suffix);
    } else {
        match_with_suffix(pat.skip(1), hay.skip(1), suffix);
        assert((hay + suffix).skip(1) =~= hay.skip(1) + suffix);
    }
}

proof fn only_the_empty_pattern_matches_nothing(pat: Seq<char>)
    ensures
        matches_here(pat, Seq::<char>::empty()) ==> pat.len() == 0,
{
}

/// Text around a match does not undo it: a line matches wherever a part of it does.
pub proof fn surrounding_text_keeps_a_match(
    pat: Seq<char>,
    before: Seq<char>,
    part: Seq<char>,
    after: Seq<char>,
)
    requires
        matches_somewhere(pat, part),
    ensures
        matches_somewhere(pat, before + part + after),
{
    let at = choose|at: int| matches_at(pat, part, at);
    match_with_suffix(pat, part.skip(at), after);
    let line = before + part + after;
    assert(line.skip(before.len() + at) =~= part.skip(at) + after);
    assert(matches_at(pat, line, before.len() + at));
}

/// The item `[0-9]+` takes all the digits that stand there, and the rest of the pattern goes on
/// behind them.
pub proof fn digits_are_taken_whole(rest: Seq<char>, digits: Seq<char>, tail: Seq<char>)
    requires
        digits.len() > 0,
        forall|i: int| 0 <= i < digits.len() ==> is_digit(#[trigger] digits[i]),
        tail.len() > 0 ==> !is_digit(tail[0]),
    ensures
        matches_here("[0-9]+"@ + rest, digits + tail) == matches_here(rest, tail),
{
    reveal_strlit("[0-9]+");
    let pat = "[0-9]+"@ + rest;
    let hay = digits + tail;
    assert(pat.subrange(0, 6) =~= digits_item());
    assert(pat.skip(6) =~= rest);
    assert forall|i: int| 0 <= i < digits.len() implies is_digit(#[trigger] hay[i]) by {
        assert(hay[i] == digits[i]);
    }
    digit_run_at_least(hay, digits.len() as int);
    if tail.len() > 0 {
        assert(hay[digits.len() as int] == tail[0]);
    }
    assert(digit_run(hay) == digits.len());
    assert(hay.skip(digits.len() as int) =~= tail);
}

/// The item `[0-9]+` needs a digit.
pub proof fn digits_are_needed(rest: Seq<char>, hay: Seq<char>)
    requires
        hay.len() > 0 ==> !is_digit(hay[0]),
    ensures
        !matches_here("[0-9]+"@ + rest, hay),
{
    reveal_strlit("[0-9]+");
    let pat = "[0-9]+"@ + rest;
    assert(pat.subrange(0, 6) =~= digits_item());
}

/// The item `[01]` takes one character, which is `0` or `1`.
pub proof fn a_bit_is_taken(rest: Seq<char>, hay: Seq<char>)
    ensures
        matches_here("[01]"@ + rest, hay) <==> hay.len() > 0 && (hay[0] == '0' || hay[0] == '1')
            && matches_here(rest, hay.skip(1)),
{
    reveal_strlit("[01]");
    let pat = "[01]"@ + rest;
    assert(pat.subrange(0, 4) =~= bit_item());
    assert(pat.skip(4) =~= rest);
    if digits_item().is_prefix_of(pat) {
        assert(pat.subrange(0, 6)[2] == '-');
        assert(pat[2] == '1');
    }
}

/// A character that begins neither item takes itself, and the empty pattern takes nothing.
pub proof fn other_characters_are_taken_as_they_are(pat: Seq<char>, hay: Seq<char>)
    requires
        !"[0-9]+"@.is_prefix_of(pat),
        !"[01]"@.is_prefix_of(pat),
    ensures
        pat.len() == 0 ==> matches_here(pat, hay),
        pat.len() > 0 ==> (matches_here(pat, hay) <==> hay.len() > 0 && hay[0] == pat[0]
            && matches_here(pat.skip(1), hay.skip(1))),
{
    reveal_strlit("[0-9]+");
    reveal_strlit("[01]");
    assert("[0-9]+"@ =~= digits_item());
    assert("[01]"@ =~= bit_item());
}

/// A pattern matches somewhere exactly if the text has a part in front, which may be empty, and
/// the pattern matches a beginning of what follows.
pub proof fn a_match_has_a_beginning(pat: Seq<char>, hay: Seq<char>)
    ensures
        matches_somewhere(pat, hay) <==> exists|before: Seq<char>, after: Seq<char>|
            hay == #[trigger] (before + after) && matches_here(pat, after),
{
    if matches_somewhere(pat, hay) {
        let at = choose|at: int| matches_at(pat, hay, at);
        assert(hay =~= hay.take(at) + hay.skip(at));
    }
    if exists|before: Seq<char>, after: Seq<char>|
        hay == #[trigger] (before + after) && matches_here(pat, after) {
        let (before, after) = choose|before: Seq<char>, after: Seq<char>|
            hay == #[trigger] (before + after) && matches_here(pat, after);
        assert(hay.skip(before.len() as int) =~= after);
        assert(matches_at(pat, hay, before.len() as int));
    }
}

/// Every line of ASCII characters can be searched for every pattern, and so can every line that
/// the pattern matches at its beginning.
pub proof fn ascii_lines_can_be_searched(pat: Seq<char>, hay: Seq<char>)
    requires
        (forall|i: int| 0 <= i < hay.len() ==> (#[trigger] hay[i]) <= '\u{7f}') || matches_here(
            pat,
            hay,
        ),
    ensures
        byte_search_stays_aligned(pat, hay),
{
    if matches_here(pat, hay) {
        assert(hay.skip(0) =~= hay);
        assert(matches_at(pat, hay, 0));
    }
}

} // verus!
