//! Reading integers the way a user writes them.

use vstd::prelude::*;
use vstd::string::*;

use crate::text;
use crate::text::chars_of;

verus! {

/// Whether `c` has the Unicode property `White_Space`.
pub open spec fn is_space(c: char) -> bool {
    ||| '\u{9}' <= c <= '\u{d}'
    ||| c == '\u{20}'
    ||| c == '\u{85}'
    ||| c == '\u{a0}'
    ||| c == '\u{1680}'
    ||| '\u{2000}' <= c <= '\u{200a}'
    ||| c == '\u{2028}'
    ||| c == '\u{2029}'
    ||| c == '\u{202f}'
    ||| c == '\u{205f}'
    ||| c == '\u{3000}'
}

/// `s` without the white space it starts with.
pub open spec fn trimmed_start(s: Seq<char>) -> Seq<char>
    decreases s.len(),
{
    if s.len() > 0 && is_space(s[0]) {
        trimmed_start(s.skip(1))
    } else {
        s
    }
}

/// `s` without the white space it ends with.
pub open spec fn trimmed_end(s: Seq<char>) -> Seq<char>
    decreases s.len(),
{
    if s.len() > 0 && is_space(s.last()) {
        trimmed_end(s.drop_last())
    } else {
        s
    }
}

/// `s` without the white space around it.
pub open spec fn trimmed(s: Seq<char>) -> Seq<char> {
    trimmed_end(trimmed_start(s))
}

/// The value of a digit, in hexadecimal or decimal.
pub open spec fn digit_value(c: char, hex: bool) -> Option<nat> {
    if '0' <= c <= '9' {
        Some((c as int - '0' as int) as nat)
    } else if hex && 'a' <= c <= 'f' {
        Some((c as int - 'a' as int + 10) as nat)
    } else if hex && 'A' <= c <= 'F' {
        Some((c as int - 'A' as int + 10) as nat)
    } else {
        None
    }
}

/// The number that a sequence of digits stands for.
pub open spec fn digits_value(s: Seq<char>, hex: bool) -> Option<nat>
    decreases s.len(),
{
    if s.len() == 0 {
        Some(0)
    } else {
        match (digits_value(s.drop_last(), hex), digit_value(s.last(), hex)) {
            (Some(n), Some(d)) => Some(
                if hex {
                    16 * n + d
                } else {
                    10 * n + d
                },
            ),
            _ => None,
        }
    }
}

/// The number that a numeral stands for: digits, at least one, behind an
/// optional `+`.
pub open spec fn numeral_value(s: Seq<char>, hex: bool) -> Option<nat> {
    let digits = if s.len() > 0 && s[0] == '+' {
        s.skip(1)
    } else {
        s
    };
    if digits.len() == 0 {
        None
    } else {
        digits_value(digits, hex)
    }
}

/// Whether `s` starts with `0x` or `0X`.
pub open spec fn has_hex_prefix(s: Seq<char>) -> bool {
    s.len() >= 2 && s[0] == '0' && (s[1] == 'x' || s[1] == 'X')
}

/// The integer that a text stands for: decimal, or hexadecimal behind `0x`.
pub open spec fn integer_value(s: Seq<char>) -> Option<nat> {
    let t = trimmed(s);
    if has_hex_prefix(t) {
        numeral_value(t.skip(2), true)
    } else {
        numeral_value(t, false)
    }
}

/// What a text that is no integer is called when it is shown: the text between
/// double quotes, with special characters escaped.
pub uninterp spec fn quoted_text(s: Seq<char>) -> Seq<char>;

/// `format!` with `{:?}` on a string: the string as Rust's `Debug` shows it,
/// which is named.
#[verifier::external_body]
fn quoted(s: &str) -> (text: String)
    ensures
        text@ == quoted_text(s@),
{
    format!("{s:?}")
}

/// A text that is not an integer, or one that is too large.
#[derive(Debug)]
pub struct InvalidInteger {
    /// The text.
    pub text: String,
}

impl InvalidInteger {
    /// The error in words.
    pub fn to_string(&self) -> (text: String)
        ensures
            text@ == "invalid integer: "@ + quoted_text(self.text@),
    {
        complaint(quoted(self.text.as_str()).as_str())
    }
}

/// What is said of a text that is no integer, shown as `shown`.
pub fn complaint(shown: &str) -> (text: String)
    ensures
        text@ == "invalid integer: "@ + shown@,
{
    let mut out: String = "invalid integer: ".to_owned();
    out.append(shown);
    out
}

fn space(c: char) -> (yes: bool)
    ensures
        yes == is_space(c),
{
    ('\u{9}' <= c && c <= '\u{d}') || c == '\u{20}' || c == '\u{85}' || c == '\u{a0}' || c
        == '\u{1680}' || ('\u{2000}' <= c && c <= '\u{200a}') || c == '\u{2028}' || c == '\u{2029}'
        || c == '\u{202f}' || c == '\u{205f}' || c == '\u{3000}'
}

/// Where the text without the white space around it starts and ends.
fn trim(v: &Vec<char>) -> (r: (usize, usize))
    ensures
        r.0 <= r.1 <= v@.len(),
        v@.subrange(r.0 as int, r.1 as int) == trimmed(v@),
{
    let mut from: usize = 0;
    assert(v@.skip(0) =~= v@);
    while from < v.len() && space(v[from])
        invariant
            from <= v@.len(),
            trimmed_start(v@) == trimmed_start(v@.skip(from as int)),
        decreases v@.len() - from,
    {
        assert(v@.skip(from as int).skip(1) =~= v@.skip(from + 1));
        from = from + 1;
    }
    let mut to: usize = v.len();
    let ghost rest = trimmed_start(v@);
    assert(rest == v@.skip(from as int));
    assert(v@.subrange(from as int, to as int) =~= rest);
    while to > from && space(v[to - 1])
        invariant
            from <= to <= v@.len(),
            trimmed_end(rest) == trimmed_end(v@.subrange(from as int, to as int)),
        decreases to,
    {
        assert(v@.subrange(from as int, to as int).drop_last() =~= v@.subrange(
            from as int,
            to - 1,
        ));
        to = to - 1;
    }
    (from, to)
}

fn digit(c: char, hex: bool) -> (d: Option<u64>)
    ensures
        match d {
            Some(d) => digit_value(c, hex) == Some(d as nat) && d < 16 && (!hex ==> d < 10),
            None => digit_value(c, hex) is None,
        },
{
    if '0' <= c && c <= '9' {
        Some(c as u64 - '0' as u64)
    } else if hex && 'a' <= c && c <= 'f' {
        Some(c as u64 - 'a' as u64 + 10)
    } else if hex && 'A' <= c && c <= 'F' {
        Some(c as u64 - 'A' as u64 + 10)
    } else {
        None
    }
}

/// A number only grows with more digits.
proof fn lemma_more_digits(s: Seq<char>, hex: bool, n: int)
    requires
        0 <= n <= s.len(),
    ensures
        digits_value(s, hex) is Some ==> digits_value(s.take(n), hex) is Some && digits_value(
            s.take(n),
            hex,
        )->0 <= digits_value(s, hex)->0,
    decreases s.len(),
{
    if n < s.len() {
        lemma_more_digits(s.drop_last(), hex, n);
        assert(s.drop_last().take(n) =~= s.take(n));
    } else {
        assert(s.take(n) =~= s);
    }
}

/// Reads the digits `from..to`: the number, if they are digits and it fits.
fn digits(v: &Vec<char>, from: usize, to: usize, hex: bool) -> (r: Option<u64>)
    requires
        from <= to <= v@.len(),
    ensures
        match r {
            Some(n) => digits_value(v@.subrange(from as int, to as int), hex) == Some(n as nat),
            None => digits_value(v@.subrange(from as int, to as int), hex) matches Some(n) ==> n
                > u64::MAX,
        },
{
    let mut n: u64 = 0;
    let mut i: usize = from;
    let ghost all = v@.subrange(from as int, to as int);
    assert(all.take(0) =~= Seq::<char>::empty());
    while i < to
        invariant
            from <= i <= to <= v@.len(),
            all == v@.subrange(from as int, to as int),
            digits_value(all.take(i - from), hex) == Some(n as nat),
        decreases to - i,
    {
        proof {
            let next = all.take(i + 1 - from);
            assert(next.drop_last() =~= all.take(i - from));
            assert(next.last() == v@[i as int]);
            lemma_more_digits(all, hex, i + 1 - from);
        }
        let d: u64 = match digit(v[i], hex) {
            Some(d) => d,
            None => {
                return None;
            },
        };
        let base: u64 = if hex {
            16
        } else {
            10
        };
        if n > (u64::MAX - d) / base {
            return None;
        }
        n = n * base + d;
        i = i + 1;
    }
    assert(all.take(to - from) =~= all);
    Some(n)
}

/// Parses a `u64` written in decimal or `0x`-prefixed hex.
pub fn parse_u64(s: &str) -> (r: Result<u64, InvalidInteger>)
    ensures
        match r {
            Ok(n) => integer_value(s@) == Some(n as nat),
            Err(e) => e.text@ == s@ && (integer_value(s@) matches Some(n) ==> n > u64::MAX),
        },
{
    let v: Vec<char> = chars_of(s);
    let (from, to): (usize, usize) = trim(&v);
    let ghost t = v@.subrange(from as int, to as int);
    let hex: bool = to - from >= 2 && v[from] == '0' && (v[from + 1] == 'x' || v[from + 1]
        == 'X');
    let mut start: usize = if hex {
        from + 2
    } else {
        from
    };
    let ghost numeral = v@.subrange(start as int, to as int);
    proof {
        if hex {
            assert(numeral =~= t.skip(2));
        }
        assert(integer_value(s@) == numeral_value(numeral, hex));
    }
    if start < to && v[start] == '+' {
        start = start + 1;
        assert(numeral.skip(1) =~= v@.subrange(start as int, to as int));
    }
    if start == to {
        return Err(InvalidInteger { text: s.to_owned() });
    }
    match digits(&v, start, to, hex) {
        Some(n) => Ok(n),
        None => Err(InvalidInteger { text: s.to_owned() }),
    }
}

/// Hexadecimal digits stand for the same number in either case, and white space
/// around an integer does not matter.
pub proof fn lemma_integer_forms(c: char, s: Seq<char>)
    ensures
        'a' <= c <= 'f' ==> digit_value(c, true) == digit_value(
            (c as int - 'a' as int + 'A' as int) as char,
            true,
        ),
        integer_value(trimmed(s)) == integer_value(s),
{
    lemma_trimmed_twice(s);
}

proof fn lemma_trimmed_twice(s: Seq<char>)
    ensures
        trimmed(trimmed(s)) == trimmed(s),
{
    let a = trimmed_start(s);
    lemma_start_ends_at_text(s);
    lemma_end_ends_at_text(a);
    let t = trimmed_end(a);
    assert(trimmed_start(t) == t);
    assert(trimmed_end(t) == t);
}

proof fn lemma_start_ends_at_text(s: Seq<char>)
    ensures
        trimmed_start(s).len() > 0 ==> !is_space(trimmed_start(s)[0]),
    decreases s.len(),
{
    if s.len() > 0 && is_space(s[0]) {
        lemma_start_ends_at_text(s.skip(1));
    }
}

proof fn lemma_end_ends_at_text(s: Seq<char>)
    ensures
        trimmed_end(s).len() > 0 ==> !is_space(trimmed_end(s).last()) && trimmed_end(s)[0] == s[0],
    decreases s.len(),
{
    if s.len() > 0 && is_space(s.last()) {
        lemma_end_ends_at_text(s.drop_last());
    }
}

/// A text of digits is read whatever stands before and after it that is white
/// space: what is around does not count, what is between does.
pub proof fn lemma_trimmed(before: Seq<char>, t: Seq<char>, after: Seq<char>)
    requires
        forall|i: int| 0 <= i < before.len() ==> is_space(#[trigger] before[i]),
        forall|i: int| 0 <= i < after.len() ==> is_space(#[trigger] after[i]),
        t.len() > 0,
        !is_space(t[0]),
        !is_space(t.last()),
    ensures
        trimmed(before + t + after) == t,
{
    lemma_trimmed_start(before, t + after);
    assert(before + t + after =~= before + (t + after));
    lemma_trimmed_end(t, after);
}

proof fn lemma_trimmed_start(before: Seq<char>, rest: Seq<char>)
    requires
        forall|i: int| 0 <= i < before.len() ==> is_space(#[trigger] before[i]),
        rest.len() > 0,
        !is_space(rest[0]),
    ensures
        trimmed_start(before + rest) == rest,
    decreases before.len(),
{
    if before.len() == 0 {
        assert(before + rest =~= rest);
    } else {
        let s = before + rest;
        assert(s[0] == before[0]);
        assert(s.skip(1) =~= before.skip(1) + rest);
        assert forall|i: int| 0 <= i < before.skip(1).len() implies is_space(
            #[trigger] before.skip(1)[i],
        ) by {
            assert(before.skip(1)[i] == before[i + 1]);
        }
        lemma_trimmed_start(before.skip(1), rest);
    }
}

proof fn lemma_trimmed_end(t: Seq<char>, after: Seq<char>)
    requires
        forall|i: int| 0 <= i < after.len() ==> is_space(#[trigger] after[i]),
        t.len() > 0,
        !is_space(t.last()),
    ensures
        trimmed_end(t + after) == t,
    decreases after.len(),
{
    if after.len() == 0 {
        assert(t + after =~= t);
    } else {
        let s = t + after;
        assert(s.last() == after[after.len() - 1]);
        assert(s.drop_last() =~= t + after.drop_last());
        assert forall|i: int| 0 <= i < after.drop_last().len() implies is_space(
            #[trigger] after.drop_last()[i],
        ) by {
            assert(after.drop_last()[i] == after[i]);
        }
        lemma_trimmed_end(t, after.drop_last());
    }
}

/// Exactly these code points are white space.
pub proof fn lemma_white_space(c: char)
    ensures
        is_space(c) <==> {
            let n = c as u32;
            ||| 9 <= n <= 13
            ||| n == 32
            ||| n == 0x85
            ||| n == 0xA0
            ||| n == 0x1680
            ||| 0x2000 <= n <= 0x200A
            ||| n == 0x2028
            ||| n == 0x2029
            ||| n == 0x202F
            ||| n == 0x205F
            ||| n == 0x3000
        },
{
}

/// The digits of a number are read back as that number, in decimal and in
/// hexadecimal. Every digit of it is one.
pub proof fn lemma_digits_read_back(n: nat)
    ensures
        digits_value(text::decimal(n), false) == Some(n),
        digits_value(text::hex(n), true) == Some(n),
        text::decimal(n).len() > 0,
        text::hex(n).len() > 0,
        forall|i: int|
            0 <= i < text::decimal(n).len() ==> '0' <= #[trigger] text::decimal(n)[i] <= '9',
        forall|i: int|
            0 <= i < text::hex(n).len() ==> '0' <= #[trigger] text::hex(n)[i] <= '9' || 'a'
                <= text::hex(n)[i] <= 'f',
        n > 0 ==> text::decimal(n)[0] != '0' && text::hex(n)[0] != '0',
    decreases n,
{
    if n >= 10 {
        lemma_digits_read_back(n / 10);
        let d = text::decimal(n / 10);
        assert(d.push(text::digit_char(n % 10)).drop_last() =~= d);
    } else {
        assert(text::decimal(n).drop_last() =~= Seq::<char>::empty());
        assert(digits_value(text::decimal(n).drop_last(), false) == Some(0nat));
    }
    if n >= 16 {
        lemma_digits_read_back(n / 16);
        let d = text::hex(n / 16);
        assert(d.push(text::digit_char(n % 16)).drop_last() =~= d);
    } else {
        assert(text::hex(n).drop_last() =~= Seq::<char>::empty());
        assert(digits_value(text::hex(n).drop_last(), true) == Some(0nat));
    }
}

/// Every number is read from its decimal digits, and from its hexadecimal digits
/// behind `0x` or `0X`, with or without white space around.
pub proof fn lemma_number_read_back(n: nat, before: Seq<char>, after: Seq<char>)
    requires
        forall|i: int| 0 <= i < before.len() ==> is_space(#[trigger] before[i]),
        forall|i: int| 0 <= i < after.len() ==> is_space(#[trigger] after[i]),
    ensures
        integer_value(before + text::decimal(n) + after) == Some(n),
        integer_value(before + (seq!['+'] + text::decimal(n)) + after) == Some(n),
        integer_value(before + (seq!['0', 'x'] + text::hex(n)) + after) == Some(n),
        integer_value(before + (seq!['0', 'X'] + text::hex(n)) + after) == Some(n),
        integer_value(before + (seq!['0', 'x', '+'] + text::hex(n)) + after) == Some(n),
{
    lemma_digits_read_back(n);
    let d = text::decimal(n);
    let h = text::hex(n);
    assert('0' <= d[0] <= '9' && '0' <= d[d.len() - 1] <= '9');
    if d.len() > 1 {
        assert('0' <= d[1] <= '9');
    }
    let e = h[h.len() - 1];
    assert('0' <= e <= '9' || 'a' <= e <= 'f');
    assert('0' <= h[0] <= '9' || 'a' <= h[0] <= 'f');
    lemma_trimmed(before, d, after);
    let plus = seq!['+'] + d;
    assert(plus.last() == d.last());
    lemma_trimmed(before, plus, after);
    assert(plus.skip(1) =~= d);
    let low = seq!['0', 'x'] + h;
    assert(low.last() == h.last());
    lemma_trimmed(before, low, after);
    assert(low.skip(2) =~= h);
    let up = seq!['0', 'X'] + h;
    assert(up.last() == h.last());
    lemma_trimmed(before, up, after);
    assert(up.skip(2) =~= h);
    let signed = seq!['0', 'x', '+'] + h;
    assert(signed.last() == h.last());
    lemma_trimmed(before, signed, after);
    assert(signed.skip(2) =~= seq!['+'] + h);
    assert(signed.skip(2).skip(1) =~= h);
}

/// Digits stand for a number exactly if each of them is a digit. One more digit
/// multiplies by the base and adds its value; a zero in front changes nothing.
pub proof fn lemma_digits(s: Seq<char>, c: char, hex: bool)
    ensures
        digits_value(s, hex) is Some <==> forall|i: int|
            0 <= i < s.len() ==> {
                ||| '0' <= #[trigger] s[i] <= '9'
                ||| hex && 'a' <= s[i] <= 'f'
                ||| hex && 'A' <= s[i] <= 'F'
            },
        digits_value(s, hex) is Some && '0' <= c <= '9' ==> digits_value(s.push(c), hex) == Some(
            ((if hex {
                16nat
            } else {
                10nat
            }) * digits_value(s, hex)->0 + (c as u32 - '0' as u32)) as nat,
        ),
        digits_value(s, true) is Some && 'a' <= c <= 'f' ==> digits_value(s.push(c), true) == Some(
            (16 * digits_value(s, true)->0 + 10 + (c as u32 - 'a' as u32)) as nat,
        ),
        digits_value(s, true) is Some && 'A' <= c <= 'F' ==> digits_value(s.push(c), true) == Some(
            (16 * digits_value(s, true)->0 + 10 + (c as u32 - 'A' as u32)) as nat,
        ),
        digits_value(Seq::empty(), hex) == Some(0nat),
        digits_value(seq!['0'] + s, hex) == digits_value(s, hex),
    decreases s.len(),
{
    assert(s.push(c).drop_last() =~= s);
    let zero = seq!['0'] + s;
    if s.len() > 0 {
        let init = s.drop_last();
        lemma_digits(init, c, hex);
        assert(zero.drop_last() =~= seq!['0'] + init);
        assert(zero.last() == s.last());
        if digits_value(s, hex) is Some {
            assert forall|i: int| 0 <= i < s.len() implies {
                ||| '0' <= #[trigger] s[i] <= '9'
                ||| hex && 'a' <= s[i] <= 'f'
                ||| hex && 'A' <= s[i] <= 'F'
            } by {
                if i < init.len() {
                    assert(init[i] == s[i]);
                }
            }
        }
        if forall|i: int|
            0 <= i < s.len() ==> {
                ||| '0' <= #[trigger] s[i] <= '9'
                ||| hex && 'a' <= s[i] <= 'f'
                ||| hex && 'A' <= s[i] <= 'F'
            } {
            assert(s[s.len() - 1] == s.last());
            assert forall|i: int| 0 <= i < init.len() implies {
                ||| '0' <= #[trigger] init[i] <= '9'
                ||| hex && 'a' <= init[i] <= 'f'
                ||| hex && 'A' <= init[i] <= 'F'
            } by {
                assert(init[i] == s[i]);
            }
        }
    } else {
        assert(zero.drop_last() =~= Seq::<char>::empty());
        assert(digits_value(zero.drop_last(), hex) == Some(0nat));
    }
}

/// What a trimmed text stands for: behind `0x` or `0X` the hexadecimal digits,
/// else the decimal digits, in both cases without one leading `+`. Nothing is no
/// number, and neither is a sign alone.
pub proof fn lemma_numeral(t: Seq<char>, hex: bool)
    ensures
        t.len() == 0 ==> numeral_value(t, hex) is None,
        t.len() > 0 && t[0] != '+' ==> numeral_value(t, hex) == digits_value(t, hex),
        numeral_value(seq!['+'] + t, hex) == if t.len() == 0 {
            None
        } else {
            digits_value(t, hex)
        },
        ({
            let s = trimmed(t);
            let prefixed = s.len() >= 2 && s[0] == '0' && (s[1] == 'x' || s[1] == 'X');
            integer_value(t) == if prefixed {
                numeral_value(s.skip(2), true)
            } else {
                numeral_value(s, false)
            }
        }),
{
    assert((seq!['+'] + t).skip(1) =~= t);
}

} // verus!
