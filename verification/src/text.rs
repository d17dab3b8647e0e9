//! Text: comparing, searching and trimming strings.
use vstd::prelude::*;

verus! {

// ---------------------------------------------------------------------------
// Characters of a string
// ---------------------------------------------------------------------------

/// The characters of `s`, in order.
pub fn chars_of(s: &str) -> (r: Vec<char>)
    ensures
        r@ == s@,
{
    let mut out: Vec<char> = Vec::new();
    for c in it: s.chars()
        invariant
            it.seq() == s@,
            out@ == s@.take(it.index() as int),
    {
        out.push(c);
    }
    assert(s@.take(s@.len() as int) == s@);
    out
}

/// Whether two strings hold the same characters.
pub fn same_text(a: &str, b: &str) -> (r: bool)
    ensures
        r == (a@ == b@),
{
    let x: Vec<char> = chars_of(a);
    let y: Vec<char> = chars_of(b);
    if x.len() != y.len() {
        return false;
    }
    let mut i: usize = 0;
    while i < x.len()
        invariant
            x@ == a@,
            y@ == b@,
            x@.len() == y@.len(),
            i <= x@.len(),
            forall|j: int| 0 <= j < i ==> x@[j] == y@[j],
        decreases x@.len() - i,
    {
        if x[i] != y[i] {
            assert(a@[i as int] != b@[i as int]);
            return false;
        }
        i += 1;
    }
    assert(a@ =~= b@);
    true
}

// ---------------------------------------------------------------------------
// Prefixes and substrings
// ---------------------------------------------------------------------------

/// `needle` stands in `hay` at character `at`.
pub open spec fn stands_at(hay: Seq<char>, needle: Seq<char>, at: int) -> bool {
    &&& 0 <= at
    &&& at + needle.len() <= hay.len()
    &&& hay.subrange(at, at + needle.len()) == needle
}

/// `needle` stands somewhere in `hay`.
pub open spec fn has_text(hay: Seq<char>, needle: Seq<char>) -> bool {
    exists|at: int| stands_at(hay, needle, at)
}

/// Whether `needle` stands in `hay` at character `at`.
fn check_at(hay: &Vec<char>, needle: &Vec<char>, at: usize) -> (r: bool)
    requires
        at <= hay@.len(),
    ensures
        r == stands_at(hay@, needle@, at as int),
{
    if needle.len() > hay.len() - at {
        return false;
    }
    let mut i: usize = 0;
    while i < needle.len()
        invariant
            at + needle.len() <= hay.len(),
            i <= needle@.len(),
            forall|j: int| 0 <= j < i ==> hay@[at + j] == needle@[j],
        decreases needle@.len() - i,
    {
        if hay[at + i] != needle[i] {
            assert(hay@.subrange(at as int, at + needle@.len())[i as int] != needle@[i as int]);
            return false;
        }
        i += 1;
    }
    assert(hay@.subrange(at as int, at + needle@.len()) =~= needle@);
    true
}

/// Whether `s` begins with `prefix`.
pub fn starts_with(s: &str, prefix: &str) -> (r: bool)
    ensures
        r == prefix@.is_prefix_of(s@),
{
    let hay: Vec<char> = chars_of(s);
    let needle: Vec<char> = chars_of(prefix);
    check_at(&hay, &needle, 0)
}

/// Whether `needle` occurs in `hay` as it stands, with no pattern syntax.
pub fn contains(hay: &str, needle: &str) -> (r: bool)
    ensures
        r == has_text(hay@, needle@),
{
    let h: Vec<char> = chars_of(hay);
    let n: Vec<char> = chars_of(needle);
    let mut at: usize = 0;
    loop
        invariant
            h@ == hay@,
            n@ == needle@,
            at <= h@.len(),
            forall|k: int| 0 <= k < at ==> !stands_at(h@, n@, k),
        decreases h@.len() - at,
    {
        if check_at(&h, &n, at) {
            return true;
        }
        if at == h.len() {
            return false;
        }
        at += 1;
    }
}

// ---------------------------------------------------------------------------
// Whitespace
// ---------------------------------------------------------------------------

/// The characters with the Unicode property `White_Space`.
pub open spec fn is_space(c: char) -> bool {
    ||| '\u{9}' <= c <= '\u{d}'
    ||| c == '\u{20}'
    ||| c == '\u{85}'
    ||| c == '\u{a0}'
    ||| c == '\u{1680}'
    ||| '\u{2000}' <= c <= '\u{200a}'
    ||| c == '\u{2028}'
    ||| c == '\u{2029}'
    ||| c == '\u{202f}'
    ||| c == '\u{205f}'
    ||| c == '\u{3000}'
}

/// Whether `c` has the Unicode property `White_Space`.
pub fn is_whitespace(c: char) -> (r: bool)
    ensures
        r == is_space(c),
{
    ('\u{9}' <= c && c <= '\u{d}') || c == '\u{20}' || c == '\u{85}' || c == '\u{a0}' || c
        == '\u{1680}' || ('\u{2000}' <= c && c <= '\u{200a}') || c == '\u{2028}' || c == '\u{2029}'
        || c == '\u{202f}' || c == '\u{205f}' || c == '\u{3000}'
}

/// `s` without its leading whitespace.
pub open spec fn without_leading_space(s: Seq<char>) -> Seq<char>
    decreases s.len(),
{
    if s.len() > 0 && is_space(s[0]) {
        without_leading_space(s.drop_first())
    } else {
        s
    }
}

/// `s` without its trailing whitespace.
pub open spec fn without_trailing_space(s: Seq<char>) -> Seq<char>
    decreases s.len(),
{
    if s.len() > 0 && is_space(s.last()) {
        without_trailing_space(s.drop_last())
    } else {
        s
    }
}

/// `s` without the whitespace at either end.
pub open spec fn trimmed(s: Seq<char>) -> Seq<char> {
    without_trailing_space(without_leading_space(s))
}

/// Where the text in `chars` from `from` on ends, once the whitespace behind it is taken away.
fn end_of_text(chars: &Vec<char>, from: usize) -> (end: usize)
    requires
        from <= chars@.len(),
    ensures
        from <= end <= chars@.len(),
        chars@.subrange(from as int, end as int) == without_trailing_space(
            chars@.skip(from as int),
        ),
{
    let mut end: usize = chars.len();
    assert(chars@.subrange(from as int, end as int) == chars@.skip(from as int));
    while end > from && is_whitespace(chars[end - 1])
        invariant
            from <= end <= chars@.len(),
            without_trailing_space(chars@.subrange(from as int, end as int))
                == without_trailing_space(chars@.skip(from as int)),
        decreases end,
    {
        assert(chars@.subrange(from as int, end as int).drop_last() == chars@.subrange(
            from as int,
            end - 1,
        ));
        end -= 1;
    }
    end
}

/// The position of the first character of `chars` that is not whitespace.
fn start_of_text(chars: &Vec<char>) -> (start: usize)
    ensures
        start <= chars@.len(),
        chars@.skip(start as int) == without_leading_space(chars@),
{
    let mut start: usize = 0;
    assert(chars@.skip(0) == chars@);
    while start < chars.len() && is_whitespace(chars[start])
        invariant
            start <= chars@.len(),
            without_leading_space(chars@.skip(start as int)) == without_leading_space(chars@),
        decreases chars@.len() - start,
    {
        assert(chars@.skip(start as int).drop_first() == chars@.skip(start + 1));
        start += 1;
    }
    start
}

/// `s` without the whitespace at either end.
pub fn trim(s: &str) -> (r: String)
    ensures
        r@ == trimmed(s@),
{
    let chars: Vec<char> = chars_of(s);
    let start: usize = start_of_text(&chars);
    let end: usize = end_of_text(&chars, start);
    s.substring_char(start, end).to_owned()
}

/// The text of `s` from character `from` on, without the whitespace at its end.
pub fn trim_end_from(s: &str, from: usize) -> (r: String)
    requires
        from <= s@.len(),
    ensures
        r@ == without_trailing_space(s@.skip(from as int)),
{
    let chars: Vec<char> = chars_of(s);
    let end: usize = end_of_text(&chars, from);
    s.substring_char(from, end).to_owned()
}

/// Trimming only takes whitespace away, and takes all of it: what is left begins and ends with
/// another character, or is empty.
pub proof fn trimming_takes_all_outer_space(s: Seq<char>)
    ensures
        exists|i: int, j: int|
            {
                &&& 0 <= i <= j <= s.len()
                &&& #[trigger] s.subrange(i, j) == trimmed(s)
                &&& forall|k: int| 0 <= k < i || j <= k < s.len() ==> is_space(#[trigger] s[k])
            },
        trimmed(s).len() > 0 ==> !is_space(trimmed(s)[0]) && !is_space(trimmed(s).last()),
{
    let lead = without_leading_space(s);
    leading_space(s);
    trailing_space(lead);
    let i = s.len() - lead.len();
    let j = i + trimmed(s).len();
    assert(s.subrange(i, j) =~= trimmed(s)) by {
        assert forall|k: int| 0 <= k < trimmed(s).len() implies s.subrange(i, j)[k] == trimmed(
            s,
        )[k] by {
            assert(trimmed(s)[k] == lead[k]);
            assert(lead[k] == s.skip(i)[k]);
        }
    }
    assert forall|k: int| 0 <= k < i || j <= k < s.len() implies is_space(#[trigger] s[k]) by {
        if j <= k {
            assert(lead[k - i] == s.skip(i)[k - i]);
        }
    }
    if trimmed(s).len() > 0 {
        assert(trimmed(s)[0] == lead[0]);
    }
}

/// Trimming what has been trimmed changes nothing.
pub proof fn trimming_twice_is_trimming_once(s: Seq<char>)
    ensures
        trimmed(trimmed(s)) == trimmed(s),
{
    trimming_takes_all_outer_space(s);
}

proof fn leading_space(s: Seq<char>)
    ensures
        without_leading_space(s).len() <= s.len(),
        without_leading_space(s) == s.skip(s.len() - without_leading_space(s).len()),
        forall|k: int|
            0 <= k < s.len() - without_leading_space(s).len() ==> is_space(#[trigger] s[k]),
        without_leading_space(s).len() > 0 ==> !is_space(without_leading_space(s)[0]),
    decreases s.len(),
{
    if s.len() > 0 && is_space(s[0]) {
        let rest = s.drop_first();
        leading_space(rest);
        let n = s.len() - without_leading_space(s).len();
        assert(rest.skip(n - 1) =~= s.skip(n));
        assert forall|k: int| 0 <= k < n implies is_space(#[trigger] s[k]) by {
            if k > 0 {
                assert(rest[k - 1] == s[k]);
            }
        }
    } else {
        assert(s.skip(0) =~= s);
    }
}

pub(crate) proof fn trailing_space(s: Seq<char>)
    ensures
        without_trailing_space(s).len() <= s.len(),
        without_trailing_space(s) == s.take(without_trailing_space(s).len() as int),
        forall|k: int|
            without_trailing_space(s).len() <= k < s.len() ==> is_space(#[trigger] s[k]),
        without_trailing_space(s).len() > 0 ==> !is_space(without_trailing_space(s).last()),
    decreases s.len(),
{
    if s.len() > 0 && is_space(s.last()) {
        let rest = s.drop_last();
        trailing_space(rest);
        let n = without_trailing_space(s).len() as int;
        assert(rest.take(n) =~= s.take(n));
        assert forall|k: int| n <= k < s.len() implies is_space(#[trigger] s[k]) by {
            if k < s.len() - 1 {
                assert(rest[k] == s[k]);
            }
        }
    } else {
        assert(s.take(s.len() as int) =~= s);
    }
}

/// A text occurs in another exactly if the other is made of something, the text, and something.
pub proof fn text_occurs_where_it_is_a_part(hay: Seq<char>, needle: Seq<char>)
    ensures
        has_text(hay, needle) <==> exists|before: Seq<char>, after: Seq<char>|
            hay == #[trigger] (before + needle + after),
{
    if has_text(hay, needle) {
        let at = choose|at: int| stands_at(hay, needle, at);
        assert(hay =~= hay.take(at) + needle + hay.skip(at + needle.len()));
    }
    if exists|before: Seq<char>, after: Seq<char>| hay == #[trigger] (before + needle + after) {
        let (before, after) = choose|before: Seq<char>, after: Seq<char>|
            hay == #[trigger] (before + needle + after);
        let at = before.len() as int;
        assert(hay.subrange(at, at + needle.len()) =~= needle);
        assert(stands_at(hay, needle, at));
    }
}

/// Whatever whitespace follows a text is taken away, and nothing of the text.
pub proof fn space_behind_a_text_is_taken(text: Seq<char>, space: Seq<char>)
    requires
        text.len() > 0 ==> !is_space(text.last()),
        forall|i: int| 0 <= i < space.len() ==> is_space(#[trigger] space[i]),
    ensures
        without_trailing_space(text + space) == text,
    decreases space.len(),
{
    let s = text + space;
    if space.len() > 0 {
        assert(s.last() == space[space.len() - 1]);
        assert(s.drop_last() =~= text + space.drop_last());
        space_behind_a_text_is_taken(text, space.drop_last());
    } else {
        assert(s =~= text);
    }
}

proof fn space_before_a_text_is_taken(space: Seq<char>, text: Seq<char>)
    requires
        text.len() > 0 ==> !is_space(text[0]),
        forall|i: int| 0 <= i < space.len() ==> is_space(#[trigger] space[i]),
    ensures
        without_leading_space(space + text) == text,
    decreases space.len(),
{
    let s = space + text;
    if space.len() > 0 {
        assert(s[0] == space[0]);
        let rest = space.drop_first();
        assert forall|i: int| 0 <= i < rest.len() implies is_space(#[trigger] rest[i]) by {
            assert(rest[i] == space[i + 1]);
        }
        assert(s.drop_first() =~= rest + text);
        space_before_a_text_is_taken(rest, text);
    } else {
        assert(s =~= text);
    }
}

/// Whatever whitespace stands around a text is taken away, and nothing of the text: texts that
/// differ in the whitespace around them only are the same once they are trimmed.
pub proof fn space_around_a_text_is_taken(before: Seq<char>, text: Seq<char>, after: Seq<char>)
    requires
        text.len() > 0 ==> !is_space(text[0]) && !is_space(text.last()),
        forall|i: int| 0 <= i < before.len() ==> is_space(#[trigger] before[i]),
        forall|i: int| 0 <= i < after.len() ==> is_space(#[trigger] after[i]),
    ensures
        trimmed(before + text + after) == text,
{
    if text.len() > 0 {
        assert(before + text + after =~= before + (text + after));
        space_before_a_text_is_taken(before, text + after);
        space_behind_a_text_is_taken(text, after);
    } else {
        let all = before + after;
        assert forall|i: int| 0 <= i < all.len() implies is_space(#[trigger] all[i]) by {
            if i < before.len() {
                assert(all[i] == before[i]);
            } else {
                assert(all[i] == after[i - before.len()]);
            }
        }
        assert(before + text + after =~= all + text);
        space_before_a_text_is_taken(all, text);
        assert(text + Seq::<char>::empty() =~= text);
        space_behind_a_text_is_taken(text, Seq::empty());
    }
}

} // verus!
