//! Numbers as text: reading a `u32`, and writing one in decimal or in hexadecimal.
use vstd::arithmetic::div_mod::lemma_fundamental_div_mod;
use vstd::prelude::*;

use crate::text::chars_of;

verus! {

// ---------------------------------------------------------------------------
// Writing
// ---------------------------------------------------------------------------

/// The digit that stands for `d`: `0` to `9`, then `a` to `f`.
pub open spec fn digit_char(d: int) -> char {
    if d < 10 {
        ('0' as int + d) as char
    } else {
        ('a' as int + d - 10) as char
    }
}

/// `n` in base `base`, with no leading zero.
pub open spec fn numeral(n: nat, base: nat) -> Seq<char>
    decreases n,
{
    if n < base || base < 2 {
        seq![digit_char(n as int)]
    } else {
        proof {
            assert(n / base < n) by (nonlinear_arith)
                requires
                    n >= base,
                    base >= 2,
            ;
        }
        numeral(n / base, base).push(digit_char((n % base) as int))
    }
}

/// `n` in decimal.
pub open spec fn decimal(n: nat) -> Seq<char> {
    numeral(n, 10)
}

/// `s` with zeros in front, up to at least `width` characters.
pub open spec fn zero_padded(s: Seq<char>, width: nat) -> Seq<char> {
    if s.len() < width {
        Seq::new((width - s.len()) as nat, |i: int| '0') + s
    } else {
        s
    }
}

/// `n` in lower-case hexadecimal, with zeros in front up to at least `width` digits.
pub open spec fn hex(n: nat, width: nat) -> Seq<char> {
    zero_padded(numeral(n, 16), width)
}

fn digit_text(d: u32) -> (r: &'static str)
    requires
        d < 16,
    ensures
        r@ == seq![digit_char(d as int)],
{
    proof {
        reveal_strlit("0");
        reveal_strlit("1");
        reveal_strlit("2");
        reveal_strlit("3");
        reveal_strlit("4");
        reveal_strlit("5");
        reveal_strlit("6");
        reveal_strlit("7");
        reveal_strlit("8");
        reveal_strlit("9");
        reveal_strlit("a");
        reveal_strlit("b");
        reveal_strlit("c");
        reveal_strlit("d");
        reveal_strlit("e");
        reveal_strlit("f");
    }
    match d {
        0 => "0",
        1 => "1",
        2 => "2",
        3 => "3",
        4 => "4",
        5 => "5",
        6 => "6",
        7 => "7",
        8 => "8",
        9 => "9",
        10 => "a",
        11 => "b",
        12 => "c",
        13 => "d",
        14 => "e",
        _ => "f",
    }
}

fn numeral_text(n: u32, base: u32) -> (r: String)
    requires
        2 <= base <= 16,
    ensures
        r@ == numeral(n as nat, base as nat),
    decreases n,
{
    if n < base {
        return digit_text(n).to_owned();
    }
    proof {
        lemma_fundamental_div_mod(n as int, base as int);
        assert(n / base < n) by (nonlinear_arith)
            requires
                n >= base,
                base >= 2,
        ;
        assert(n % base < base);
    }
    let mut out: String = numeral_text(n / base, base);
    out.append(digit_text(n % base));
    assert(out@ =~= numeral(n as nat, base as nat));
    out
}

/// `n` in decimal, as `{}` formats it.
pub fn decimal_text(n: u32) -> (r: String)
    ensures
        r@ == decimal(n as nat),
{
    numeral_text(n, 10)
}

/// `n` in hexadecimal with at least `width` digits, as `{:0width$x}` formats it.
pub fn hex_text(n: u32, width: usize) -> (r: String)
    ensures
        r@ == hex(n as nat, width as nat),
{
    let digits: String = numeral_text(n, 16);
    let len: usize = digits.as_str().unicode_len();
    if len >= width {
        return digits;
    }
    let zeros: usize = width - len;
    let mut out: String = String::new();
    let mut i: usize = 0;
    proof {
        reveal_strlit("0");
    }
    while i < zeros
        invariant
            i <= zeros,
            "0"@ == seq!['0'],
            out@ == Seq::new(i as nat, |k: int| '0'),
        decreases zeros - i,
    {
        out.append("0");
        i += 1;
        assert(out@ =~= Seq::new(i as nat, |k: int| '0'));
    }
    out.append(digits.as_str());
    out
}

// ---------------------------------------------------------------------------
// Reading
// ---------------------------------------------------------------------------

/// Why a text is not the decimal form of a `u32`.
#[derive(Clone, Copy, Debug, PartialEq, Eq, Structural)]
pub enum NumberError {
    /// There is no character.
    Empty,
    /// A character that is not a digit stands where a digit has to.
    InvalidDigit,
    /// The digits denote more than `u32::MAX`.
    Overflow,
}

/// `c` is a decimal digit.
pub open spec fn is_digit(c: char) -> bool {
    '0' <= c <= '9'
}

/// How many digits `s` begins with.
pub open spec fn digit_run(s: Seq<char>) -> nat
    decreases s.len(),
{
    if s.len() > 0 && is_digit(s[0]) {
        1 + digit_run(s.drop_first())
    } else {
        0
    }
}

/// The position behind the digits that stand in `hay` from `from` on.
pub(crate) fn behind_digits(hay: &Vec<char>, from: usize) -> (end: usize)
    requires
        from <= hay@.len(),
    ensures
        from <= end <= hay@.len(),
        end - from == digit_run(hay@.skip(from as int)),
{
    let mut end: usize = from;
    while end < hay.len() && '0' <= hay[end] && hay[end] <= '9'
        invariant
            from <= end <= hay@.len(),
            digit_run(hay@.skip(from as int)) == end - from + digit_run(hay@.skip(end as int)),
        decreases hay@.len() - end,
    {
        assert(hay@.skip(end as int).drop_first() =~= hay@.skip(end + 1));
        end += 1;
    }
    end
}

/// The number that the digits of `s` denote in decimal.
pub open spec fn digits_value(s: Seq<char>) -> nat
    decreases s.len(),
{
    if s.len() == 0 {
        0
    } else {
        digits_value(s.drop_last()) * 10 + (s.last() as nat - '0' as nat) as nat
    }
}

/// `s` without the one `+` that may stand in front.
pub open spec fn without_plus(s: Seq<char>) -> Seq<char> {
    if s.len() > 0 && s[0] == '+' {
        s.drop_first()
    } else {
        s
    }
}

/// The `u32` that `s` denotes: an optional `+`, then digits only. The digits are read from the
/// left, so digits that already denote too much are reported before a wrong character behind
/// them.
pub open spec fn parsed_u32(s: Seq<char>) -> Result<u32, NumberError> {
    let d = without_plus(s);
    if s.len() == 0 {
        Err(NumberError::Empty)
    } else if digits_value(d.take(digit_run(d) as int)) > u32::MAX {
        Err(NumberError::Overflow)
    } else if d.len() == 0 || digit_run(d) < d.len() {
        Err(NumberError::InvalidDigit)
    } else {
        Ok(digits_value(d) as u32)
    }
}

pub(crate) proof fn digit_run_at_least(s: Seq<char>, n: int)
    requires
        0 <= n <= s.len(),
        forall|i: int| 0 <= i < n ==> is_digit(#[trigger] s[i]),
    ensures
        n <= digit_run(s) <= s.len(),
        n < s.len() && !is_digit(s[n]) ==> digit_run(s) == n,
    decreases s.len(),
{
    if s.len() > 0 && is_digit(s[0]) {
        let rest = s.drop_first();
        assert forall|i: int| 0 <= i < n - 1 implies is_digit(#[trigger] rest[i]) by {
            assert(s[i + 1] == rest[i]);
        }
        if n > 0 {
            digit_run_at_least(rest, n - 1);
        } else {
            digit_run_at_least(rest, 0);
        }
    }
}

proof fn digits_value_grows(s: Seq<char>, i: int, j: int)
    requires
        0 <= i <= j <= s.len(),
    ensures
        digits_value(s.take(i)) <= digits_value(s.take(j)),
    decreases j,
{
    if i < j {
        digits_value_grows(s, i, j - 1);
        assert(s.take(j).drop_last() =~= s.take(j - 1));
    }
}

/// Reads a `u32` from its decimal form.
pub fn parse_u32(s: &str) -> (r: Result<u32, NumberError>)
    ensures
        r == parsed_u32(s@),
{
    let chars: Vec<char> = chars_of(s);
    if chars.len() == 0 {
        return Err(NumberError::Empty);
    }
    let start: usize = if chars[0] == '+' {
        1
    } else {
        0
    };
    let ghost d = without_plus(s@);
    assert(d =~= chars@.skip(start as int));
    let mut i: usize = start;
    let mut value: u32 = 0;
    assert(d.take(0) =~= Seq::<char>::empty());
    while i < chars.len()
        invariant
            chars@ == s@,
            d == chars@.skip(start as int),
            d == without_plus(s@),
            s@.len() > 0,
            start <= i <= chars@.len(),
            forall|k: int| 0 <= k < i - start ==> is_digit(#[trigger] d[k]),
            value == digits_value(d.take(i - start)),
        decreases chars@.len() - i,
    {
        let c: char = chars[i];
        let ghost n = i - start;
        assert(d[n] == c);
        if !('0' <= c && c <= '9') {
            proof {
                digit_run_at_least(d, n);
            }
            return Err(NumberError::InvalidDigit);
        }
        let digit: u32 = c as u32 - '0' as u32;
        assert(d.take(n + 1).drop_last() =~= d.take(n));
        let next: u64 = value as u64 * 10 + digit as u64;
        assert(next == digits_value(d.take(n + 1)));
        if next > u32::MAX as u64 {
            proof {
                digit_run_at_least(d, n + 1);
                digits_value_grows(d, n + 1, digit_run(d) as int);
            }
            return Err(NumberError::Overflow);
        }
        value = next as u32;
        i += 1;
    }
    proof {
        digit_run_at_least(d, d.len() as int);
        assert(d.take(d.len() as int) =~= d);
    }
    if i == start {
        return Err(NumberError::InvalidDigit);
    }
    Ok(value)
}

pub(crate) proof fn decimal_digits(n: nat)
    ensures
        decimal(n).len() > 0,
        forall|i: int| 0 <= i < decimal(n).len() ==> is_digit(#[trigger] decimal(n)[i]),
        digits_value(decimal(n)) == n,
    decreases n,
{
    if n >= 10 {
        decimal_digits(n / 10);
        assert(decimal(n).drop_last() =~= decimal(n / 10));
        assert(decimal(n).last() as int == '0' as int + n % 10);
    } else {
        assert(decimal(n).drop_last() =~= Seq::<char>::empty());
        assert(digits_value(decimal(n).drop_last()) == 0);
        assert(decimal(n).last() as int == '0' as int + n);
    }
}

/// Reading the decimal form of a number gives the number back.
pub proof fn reading_undoes_writing(n: u32)
    ensures
        parsed_u32(decimal(n as nat)) == Ok::<u32, NumberError>(n),
{
    let s = decimal(n as nat);
    decimal_digits(n as nat);
    assert(is_digit(s[0]));
    assert(without_plus(s) == s);
    digit_run_at_least(s, s.len() as int);
    assert(s.take(s.len() as int) =~= s);
}

/// What the digit `c` stands for: `0` to `9`, then `a` to `f`.
pub open spec fn digit_weight(c: char) -> int {
    if is_digit(c) {
        c as int - '0' as int
    } else {
        c as int - 'a' as int + 10
    }
}

/// The number that the digits of `s` denote in base `base`.
pub open spec fn weight(s: Seq<char>, base: int) -> int
    decreases s.len(),
{
    if s.len() == 0 {
        0
    } else {
        weight(s.drop_last(), base) * base + digit_weight(s.last())
    }
}

/// `c` is a digit of base `base`.
pub open spec fn is_digit_of(c: char, base: int) -> bool {
    (is_digit(c) || 'a' <= c <= 'f') && digit_weight(c) < base
}

/// A numeral denotes its number, is made of the digits of its base, and does not begin with a
/// zero unless it is `0`.
pub proof fn numerals_denote_their_numbers(n: nat, base: nat)
    requires
        2 <= base <= 16,
    ensures
        weight(numeral(n, base), base as int) == n,
        numeral(n, base).len() > 0,
        forall|i: int|
            0 <= i < numeral(n, base).len() ==> is_digit_of(
                #[trigger] numeral(n, base)[i],
                base as int,
            ),
        numeral(n, base)[0] == '0' ==> n == 0 && numeral(n, base).len() == 1,
    decreases n,
{
    let s = numeral(n, base);
    if n < base {
        assert(s.drop_last() =~= Seq::<char>::empty());
        assert(weight(s.drop_last(), base as int) == 0);
        assert(weight(s.drop_last(), base as int) * base == 0) by (nonlinear_arith)
            requires
                weight(s.drop_last(), base as int) == 0,
        ;
        assert(digit_weight(s.last()) == n);
    } else {
        assert(n / base < n && n / base >= 1 && n == (n / base) * base + n % base && n % base
            < base) by (nonlinear_arith)
            requires
                n >= base,
                base >= 2,
        ;
        numerals_denote_their_numbers(n / base, base);
        let head = numeral(n / base, base);
        assert(s.drop_last() =~= head);
        assert(digit_weight(s.last()) == n % base);
        assert forall|i: int| 0 <= i < s.len() implies is_digit_of(
            #[trigger] s[i],
            base as int,
        ) by {
            if i < head.len() {
                assert(s[i] == head[i]);
            }
        }
        assert(s[0] == head[0]);
    }
}

proof fn zeros_in_front_weigh_nothing(zeros: nat, s: Seq<char>, base: int)
    ensures
        weight(Seq::new(zeros, |i: int| '0') + s, base) == weight(s, base),
    decreases s.len() + zeros,
{
    let z = Seq::new(zeros, |i: int| '0');
    let all = z + s;
    if s.len() > 0 {
        assert(all.drop_last() =~= z + s.drop_last());
        assert(all.last() == s.last());
        zeros_in_front_weigh_nothing(zeros, s.drop_last(), base);
    } else if zeros > 0 {
        let less = Seq::new((zeros - 1) as nat, |i: int| '0');
        assert(all.drop_last() =~= less + s);
        zeros_in_front_weigh_nothing((zeros - 1) as nat, s, base);
        assert(weight(s, base) == 0);
        assert(weight(all.drop_last(), base) * base == 0) by (nonlinear_arith)
            requires
                weight(all.drop_last(), base) == 0,
        ;
        assert(all.last() == '0');
    } else {
        assert(all =~= s);
    }
}

/// A padded hexadecimal number denotes its number, is made of hexadecimal digits, and is as
/// wide as it is asked to be; it is wider only where the number itself is, and then it does not
/// begin with a zero.
pub proof fn padded_hex_denotes_its_number(n: nat, width: nat)
    ensures
        weight(hex(n, width), 16) == n,
        hex(n, width).len() >= width,
        forall|i: int|
            0 <= i < hex(n, width).len() ==> is_digit_of(#[trigger] hex(n, width)[i], 16),
        hex(n, width).len() > width && hex(n, width).len() > 1 ==> hex(n, width)[0] != '0',
{
    let s = numeral(n, 16);
    numerals_denote_their_numbers(n, 16);
    if s.len() < width {
        let zeros = (width - s.len()) as nat;
        zeros_in_front_weigh_nothing(zeros, s, 16);
        let all = hex(n, width);
        assert forall|i: int| 0 <= i < all.len() implies is_digit_of(#[trigger] all[i], 16) by {
            if i < zeros {
                assert(all[i] == '0');
            } else {
                assert(all[i] == s[i - zeros]);
            }
        }
    }
}

/// The decimal form of a number is its numeral in base ten.
pub proof fn decimals_denote_their_numbers(n: nat)
    ensures
        weight(decimal(n), 10) == n,
        decimal(n).len() > 0,
        forall|i: int| 0 <= i < decimal(n).len() ==> is_digit(#[trigger] decimal(n)[i]),
        decimal(n)[0] == '0' ==> n == 0 && decimal(n).len() == 1,
{
    numerals_denote_their_numbers(n, 10);
    decimal_digits(n);
}

/// Numbers are read from the left: a digit behind a number multiplies it by ten and counts as
/// itself, until the number is too large.
pub proof fn another_digit_is_read(s: Seq<char>, c: char)
    requires
        parsed_u32(s) is Ok,
        is_digit(c),
    ensures
        ({
            let next = parsed_u32(s)->Ok_0 * 10 + (c as int - '0' as int);
            parsed_u32(s.push(c)) == (if next <= u32::MAX {
                Ok(next as u32)
            } else {
                Err(NumberError::Overflow)
            })
        }),
{
    let d = without_plus(s);
    let e = without_plus(s.push(c));
    assert(e =~= d.push(c));
    digit_run_gives_digits(d);
    assert forall|i: int| 0 <= i < e.len() implies is_digit(#[trigger] e[i]) by {
        if i < d.len() {
            assert(e[i] == d[i]);
        }
    }
    digit_run_at_least(e, e.len() as int);
    assert(e.take(e.len() as int) =~= e);
    assert(d.take(d.len() as int) =~= d);
    assert(e.drop_last() =~= d);
}

proof fn digit_run_gives_digits(s: Seq<char>)
    ensures
        digit_run(s) <= s.len(),
        forall|i: int| 0 <= i < digit_run(s) ==> is_digit(#[trigger] s[i]),
        digit_run(s) < s.len() ==> !is_digit(s[digit_run(s) as int]),
    decreases s.len(),
{
    if s.len() > 0 && is_digit(s[0]) {
        let rest = s.drop_first();
        digit_run_gives_digits(rest);
        assert forall|i: int| 0 <= i < digit_run(s) implies is_digit(#[trigger] s[i]) by {
            if i > 0 {
                assert(rest[i - 1] == s[i]);
            }
        }
    }
}

/// A single digit is read as itself.
pub proof fn one_digit_is_read(c: char)
    requires
        is_digit(c),
    ensures
        parsed_u32(seq![c]) == Ok::<u32, NumberError>((c as int - '0' as int) as u32),
{
    let s = seq![c];
    assert(without_plus(s) == s);
    digit_run_at_least(s, 1);
    assert(s.take(1) =~= s);
    assert(s.drop_last() =~= Seq::<char>::empty());
    assert(digits_value(s.drop_last()) == 0);
}

/// One plus in front of a text changes nothing, unless there is nothing else or another plus.
pub proof fn a_plus_in_front_changes_nothing(s: Seq<char>)
    requires
        s.len() > 0,
        s[0] != '+',
    ensures
        parsed_u32(seq!['+'] + s) == parsed_u32(s),
{
    assert((seq!['+'] + s).drop_first() =~= s);
}

/// A number is made of digits, but for one plus in front.
pub proof fn only_digits_make_a_number(s: Seq<char>)
    ensures
        parsed_u32(s) is Ok ==> s.len() > 0 && is_digit(s.last()) && forall|i: int|
            0 <= i < s.len() ==> is_digit(#[trigger] s[i]) || (i == 0 && s[0] == '+'),
        parsed_u32(s) == Err::<u32, NumberError>(NumberError::Empty) <==> s.len() == 0,
{
    let d = without_plus(s);
    digit_run_gives_digits(d);
    if parsed_u32(s) is Ok {
        let off = s.len() - d.len();
        assert forall|i: int| 0 <= i < s.len() implies is_digit(#[trigger] s[i]) || (i == 0 && s[0]
            == '+') by {
            if i >= off {
                assert(d[i - off] == s[i]);
            }
        }
        assert(d[d.len() - 1] == s[s.len() - 1]);
    }
}

/// A character that is no digit spoils the number in front of it, whatever follows.
pub proof fn a_wrong_character_is_refused(s: Seq<char>, c: char, rest: Seq<char>)
    requires
        parsed_u32(s) is Ok || s.len() == 0 || s == seq!['+'],
        !is_digit(c),
        s.len() == 0 ==> c != '+',
    ensures
        parsed_u32(s.push(c) + rest) == Err::<u32, NumberError>(NumberError::InvalidDigit),
{
    let all = s.push(c) + rest;
    let d = without_plus(s);
    let e = without_plus(all);
    assert(e =~= d.push(c) + rest);
    digit_run_gives_digits(d);
    assert forall|i: int| 0 <= i < d.len() implies is_digit(#[trigger] e[i]) by {
        assert(e[i] == d[i]);
    }
    assert(e[d.len() as int] == c);
    digit_run_at_least(e, d.len() as int);
    assert(e.take(d.len() as int) =~= d);
    assert(d.take(d.len() as int) =~= d);
}

/// A number that is too large stays so, whatever follows.
pub proof fn too_large_stays_too_large(s: Seq<char>, rest: Seq<char>)
    requires
        parsed_u32(s) == Err::<u32, NumberError>(NumberError::Overflow),
    ensures
        parsed_u32(s + rest) == Err::<u32, NumberError>(NumberError::Overflow),
{
    let d = without_plus(s);
    let e = without_plus(s + rest);
    assert(e =~= d + rest);
    digit_run_gives_digits(d);
    let run = digit_run(d) as int;
    assert forall|i: int| 0 <= i < run implies is_digit(#[trigger] e[i]) by {
        assert(e[i] == d[i]);
    }
    digit_run_at_least(e, run);
    digits_value_grows(e, run, digit_run(e) as int);
    assert(e.take(run) =~= d.take(run));
}

} // verus!
