//! Reading text: trimming, splitting into fields, and hexadecimal numbers.

use vstd::prelude::*;
use vstd::string::*;

verus! {

/// Which characters are stripped from the ends of a text.
#[derive(Clone, Copy, Debug, PartialEq, Eq, Structural)]
pub enum Strip {
    /// White space.
    Whitespace,
    /// Single and double quotes.
    Quotes,
}

/// The character is white space.
pub open spec fn is_space(c: char) -> bool {
    let n = c as u32;
    (0x09 <= n <= 0x0d) || n == 0x20 || n == 0x85 || n == 0xa0 || n == 0x1680 || (0x2000 <= n
        <= 0x200a) || n == 0x2028 || n == 0x2029 || n == 0x202f || n == 0x205f || n == 0x3000
}

/// The character is a single or a double quote.
pub open spec fn is_quote(c: char) -> bool {
    c == '"' || c == '\''
}

/// The character is one of those that `kind` strips.
pub open spec fn strips(kind: Strip, c: char) -> bool {
    match kind {
        Strip::Whitespace => is_space(c),
        Strip::Quotes => is_quote(c),
    }
}

/// How many characters at the start of `s` are stripped.
pub open spec fn leading(s: Seq<char>, kind: Strip) -> int
    decreases s.len(),
{
    if s.len() > 0 && strips(kind, s[0]) {
        1 + leading(s.drop_first(), kind)
    } else {
        0
    }
}

/// How many characters at the end of `s` are stripped.
pub open spec fn trailing(s: Seq<char>, kind: Strip) -> int
    decreases s.len(),
{
    if s.len() > 0 && strips(kind, s.last()) {
        1 + trailing(s.drop_last(), kind)
    } else {
        0
    }
}

/// The text without the stripped characters at its start and at its end.
pub open spec fn trimmed(s: Seq<char>, kind: Strip) -> Seq<char> {
    if leading(s, kind) == s.len() {
        Seq::empty()
    } else {
        s.subrange(leading(s, kind), s.len() - trailing(s, kind))
    }
}

/// The fields of `s`, which `sep` separates: a text without separator is one
/// field, and each separator ends a field and starts the next one.
pub open spec fn split_on(s: Seq<char>, sep: char) -> Seq<Seq<char>>
    decreases s.len(),
{
    if s.len() == 0 {
        seq![Seq::empty()]
    } else {
        let before = split_on(s.drop_last(), sep);
        if s.last() == sep {
            before.push(Seq::empty())
        } else {
            before.drop_last().push(before.last().push(s.last()))
        }
    }
}

/// The texts as sequences of characters.
pub open spec fn views(fields: Seq<&str>) -> Seq<Seq<char>> {
    Seq::new(fields.len(), |i: int| fields[i]@)
}

/// The value of a hexadecimal digit.
pub open spec fn hex_value(c: char) -> Option<int> {
    let n = c as u32;
    if 0x30 <= n <= 0x39 {
        Some(n - 0x30)
    } else if 0x61 <= n <= 0x66 {
        Some(n - 0x61 + 10)
    } else if 0x41 <= n <= 0x46 {
        Some(n - 0x41 + 10)
    } else {
        None
    }
}

/// Every character is a hexadecimal digit.
pub open spec fn all_hex(digits: Seq<char>) -> bool {
    forall|i: int| 0 <= i < digits.len() ==> (#[trigger] hex_value(digits[i])) is Some
}

/// The number that hexadecimal digits denote.
pub open spec fn hex_number(digits: Seq<char>) -> int
    decreases digits.len(),
{
    if digits.len() == 0 {
        0
    } else {
        16 * hex_number(digits.drop_last()) + match hex_value(digits.last()) {
            Some(d) => d,
            None => 0,
        }
    }
}

/// The number that `s` denotes in base 16: `s` is a `+` sign or none, then at
/// least one hexadecimal digit and nothing else, and the number fits.
pub open spec fn parsed_hex(s: Seq<char>) -> Option<usize> {
    let digits = if s.len() > 0 && s[0] == '+' {
        s.drop_first()
    } else {
        s
    };
    if digits.len() > 0 && all_hex(digits) && hex_number(digits) <= usize::MAX {
        Some(hex_number(digits) as usize)
    } else {
        None
    }
}

/// Whether `c` is one of the characters that `kind` strips.
pub fn is_stripped(kind: Strip, c: char) -> (b: bool)
    ensures
        b == strips(kind, c),
{
    let n = c as u32;
    match kind {
        Strip::Whitespace => (0x09 <= n && n <= 0x0d) || n == 0x20 || n == 0x85 || n == 0xa0 || n
            == 0x1680 || (0x2000 <= n && n <= 0x200a) || n == 0x2028 || n == 0x2029 || n == 0x202f
            || n == 0x205f || n == 0x3000,
        Strip::Quotes => c == '"' || c == '\'',
    }
}

/// The value of `c` as a hexadecimal digit, if it is one.
pub fn hex_digit(c: char) -> (d: Option<u8>)
    ensures
        d is Some == hex_value(c) is Some,
        d matches Some(v) ==> hex_value(c) == Some(v as int) && v < 16,
{
    let n = c as u32;
    if 0x30 <= n && n <= 0x39 {
        Some((n - 0x30) as u8)
    } else if 0x61 <= n && n <= 0x66 {
        Some((n - 0x61 + 10) as u8)
    } else if 0x41 <= n && n <= 0x46 {
        Some((n - 0x41 + 10) as u8)
    } else {
        None
    }
}

proof fn lemma_leading(s: Seq<char>, kind: Strip, a: int)
    requires
        0 <= a <= s.len(),
        forall|k: int| 0 <= k < a ==> strips(kind, s[k]),
        a == s.len() || !strips(kind, s[a]),
    ensures
        leading(s, kind) == a,
    decreases a,
{
    if a > 0 {
        let rest = s.drop_first();
        assert forall|k: int| 0 <= k < a - 1 implies strips(kind, rest[k]) by {
            assert(rest[k] == s[k + 1]);
        }
        lemma_leading(rest, kind, a - 1);
    }
}

proof fn lemma_trailing(s: Seq<char>, kind: Strip, t: int)
    requires
        0 <= t <= s.len(),
        forall|k: int| s.len() - t <= k < s.len() ==> strips(kind, s[k]),
        t == s.len() || !strips(kind, s[s.len() - t - 1]),
    ensures
        trailing(s, kind) == t,
    decreases t,
{
    if t > 0 {
        let rest = s.drop_last();
        assert forall|k: int| rest.len() - (t - 1) <= k < rest.len() implies strips(
            kind,
            rest[k],
        ) by {
            assert(rest[k] == s[k]);
        }
        lemma_trailing(rest, kind, t - 1);
    }
}

/// The text without the characters that `kind` strips at its start and at
/// its end.
pub fn trim_by<'a>(s: &'a str, kind: Strip) -> (t: &'a str)
    ensures
        t@ == trimmed(s@, kind),
{
    let n = s.unicode_len();
    let mut a: usize = 0;
    while a < n && is_stripped(kind, s.get_char(a))
        invariant
            n == s@.len(),
            a <= n,
            forall|k: int| 0 <= k < a ==> strips(kind, s@[k]),
        decreases n - a,
    {
        a = a + 1;
    }
    proof {
        lemma_leading(s@, kind, a as int);
    }
    if a == n {
        let t = s.substring_char(n, n);
        assert(t@ =~= Seq::<char>::empty());
        return t;
    }
    let mut b: usize = n;
    while b > a + 1 && is_stripped(kind, s.get_char(b - 1))
        invariant
            n == s@.len(),
            a < b <= n,
            forall|k: int| b <= k < n ==> strips(kind, s@[k]),
            !strips(kind, s@[a as int]),
        decreases b,
    {
        b = b - 1;
    }
    proof {
        lemma_trailing(s@, kind, n - b);
    }
    s.substring_char(a, b)
}

/// The fields of `s`, which `sep` separates.
pub fn split<'a>(s: &'a str, sep: char) -> (fields: Vec<&'a str>)
    ensures
        views(fields@) == split_on(s@, sep),
        fields@.len() >= 1,
{
    let n = s.unicode_len();
    let mut fields: Vec<&'a str> = Vec::new();
    let mut start: usize = 0;
    let mut i: usize = 0;
    proof {
        assert(s@.take(0) =~= Seq::<char>::empty());
        assert(views(fields@).push(s@.subrange(0, 0)) =~= seq![Seq::<char>::empty()]);
    }
    while i < n
        invariant
            n == s@.len(),
            start <= i <= n,
            split_on(s@.take(i as int), sep) == views(fields@).push(
                s@.subrange(start as int, i as int),
            ),
        decreases n - i,
    {
        let c = s.get_char(i);
        proof {
            let upto = s@.take(i + 1);
            assert(upto.drop_last() =~= s@.take(i as int));
            assert(upto.last() == c);
        }
        if c == sep {
            let ghost before = fields@;
            let field = s.substring_char(start, i);
            fields.push(field);
            start = i + 1;
            proof {
                assert(views(fields@) =~= views(before).push(field@));
                assert(s@.subrange(start as int, i + 1) =~= Seq::<char>::empty());
            }
        } else {
            proof {
                let before = split_on(s@.take(i as int), sep);
                assert(before.drop_last() =~= views(fields@));
                assert(before.last().push(c) =~= s@.subrange(start as int, i + 1));
            }
        }
        i = i + 1;
    }
    let ghost before = fields@;
    let field = s.substring_char(start, n);
    fields.push(field);
    proof {
        assert(s@.take(n as int) =~= s@);
        assert(views(fields@) =~= views(before).push(field@));
    }
    fields
}

/// Whether two texts hold the same characters.
pub fn same_text(a: &str, b: &str) -> (same: bool)
    ensures
        same == (a@ == b@),
{
    let n = a.unicode_len();
    if n != b.unicode_len() {
        return false;
    }
    let mut i: usize = 0;
    while i < n
        invariant
            n == a@.len(),
            n == b@.len(),
            i <= n,
            forall|k: int| 0 <= k < i ==> a@[k] == b@[k],
        decreases n - i,
    {
        if a.get_char(i) != b.get_char(i) {
            return false;
        }
        i = i + 1;
    }
    assert(a@ =~= b@);
    true
}

/// Leaving out the last digit does not make a hexadecimal number larger.
proof fn lemma_hex_number_grows(digits: Seq<char>, k: int)
    requires
        0 <= k <= digits.len(),
    ensures
        0 <= hex_number(digits.take(k)) <= hex_number(digits),
    decreases digits.len() - k,
{
    lemma_hex_number_nonnegative(digits.take(k));
    if k < digits.len() {
        lemma_hex_number_grows(digits, k + 1);
        assert(digits.take(k + 1).drop_last() =~= digits.take(k));
    } else {
        assert(digits.take(k) =~= digits);
    }
}

proof fn lemma_hex_number_nonnegative(digits: Seq<char>)
    ensures
        0 <= hex_number(digits),
    decreases digits.len(),
{
    if digits.len() > 0 {
        lemma_hex_number_nonnegative(digits.drop_last());
    }
}

/// Reads `s` as a number in base 16: a `+` sign or none, then hexadecimal
/// digits. There is no number where a digit is missing, where another
/// character occurs, or where the number does not fit.
pub fn parse_hex(s: &str) -> (number: Option<usize>)
    ensures
        number == parsed_hex(s@),
{
    let n = s.unicode_len();
    let first: usize = if n > 0 && s.get_char(0) == '+' {
        1
    } else {
        0
    };
    let ghost digits = if first == 1 {
        s@.drop_first()
    } else {
        s@
    };
    if first == n {
        return None;
    }
    let mut value: usize = 0;
    let mut i: usize = first;
    proof {
        assert(digits.take(0) =~= Seq::<char>::empty());
        assert(digits.len() == n - first);
    }
    while i < n
        invariant
            n == s@.len(),
            first <= i <= n,
            first <= 1,
            first == 1 <==> (s@.len() > 0 && s@[0] == '+'),
            digits == if first == 1 {
                s@.drop_first()
            } else {
                s@
            },
            digits.len() == n - first,
            forall|k: int| 0 <= k < digits.len() ==> digits[k] == s@[k + first],
            all_hex(digits.take(i - first)),
            value == hex_number(digits.take(i - first)),
        decreases n - i,
    {
        let c = s.get_char(i);
        let ghost upto = digits.take(i - first + 1);
        proof {
            assert(upto.drop_last() =~= digits.take(i - first));
            assert(upto.last() == c);
        }
        match hex_digit(c) {
            None => {
                proof {
                    assert(hex_value(digits[i - first]) is None);
                }
                return None;
            },
            Some(d) => {
                if value > (usize::MAX - d as usize) / 16 {
                    proof {
                        assert(hex_number(upto) > usize::MAX);
                        lemma_hex_number_grows(digits, i - first + 1);
                    }
                    return None;
                }
                value = value * 16 + d as usize;
                proof {
                    assert forall|k: int| 0 <= k < upto.len() implies (#[trigger] hex_value(
                        upto[k],
                    )) is Some by {
                        if k < upto.len() - 1 {
                            assert(digits.take(i - first)[k] == upto[k]);
                        }
                    }
                }
            },
        }
        i = i + 1;
    }
    proof {
        assert(digits.take(n - first) =~= digits);
    }
    Some(value)
}

} // verus!
