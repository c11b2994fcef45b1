//! Hexadecimal numerals: reading them, in either case, and writing them in lower case.

use vstd::prelude::*;

verus! {

/// The value of a hexadecimal digit, in either case; `None` for any other character.
pub open spec fn digit_value(c: char) -> Option<nat> {
    if '0' <= c <= '9' {
        Some((c as u32 - '0' as u32) as nat)
    } else if 'a' <= c <= 'f' {
        Some((c as u32 - 'a' as u32 + 10) as nat)
    } else if 'A' <= c <= 'F' {
        Some((c as u32 - 'A' as u32 + 10) as nat)
    } else {
        None
    }
}

/// Whether every character is a hexadecimal digit.
pub open spec fn is_hex(s: Seq<char>) -> bool {
    forall|i: int| 0 <= i < s.len() ==> digit_value(#[trigger] s[i]) is Some
}

/// The number that a string of hexadecimal digits writes, most significant digit
/// first. A character that is no digit counts as zero.
pub open spec fn digits_value(s: Seq<char>) -> nat
    decreases s.len(),
{
    if s.len() == 0 {
        0
    } else {
        16 * digits_value(s.drop_last()) + match digit_value(s.last()) {
            Some(d) => d,
            None => 0,
        }
    }
}

/// The sixteen-bit number that a token writes in base sixteen: the token is one or
/// more hexadecimal digits, and their value fits. Leading zeros are allowed; a sign,
/// a prefix or any other character is not.
pub open spec fn hex_u16(s: Seq<char>) -> Option<u16> {
    if s.len() > 0 && is_hex(s) && digits_value(s) <= 0xffff {
        Some(digits_value(s) as u16)
    } else {
        None
    }
}

/// The lower-case digit for a value below sixteen.
pub open spec fn digit_char(d: nat) -> char {
    "0123456789abcdef"@[d as int]
}

/// A number in base sixteen: lower case, no prefix, no leading zeros.
pub open spec fn hex_text(n: nat) -> Seq<char>
    decreases n,
{
    if n < 16 {
        seq![digit_char(n)]
    } else {
        hex_text(n / 16).push(digit_char(n % 16))
    }
}

/// An ASCII capital letter as its small letter; any other character as itself.
pub open spec fn fold_case(c: char) -> char {
    if 'A' <= c <= 'Z' {
        (c as u32 + 32) as char
    } else {
        c
    }
}

/// Whether two strings are the same but for the case of their ASCII letters.
pub open spec fn same_ignoring_case(s: Seq<char>, t: Seq<char>) -> bool {
    &&& s.len() == t.len()
    &&& forall|i: int| 0 <= i < s.len() ==> fold_case(#[trigger] s[i]) == fold_case(t[i])
}

/// The tokens that write no sixteen-bit number: the empty one, those that hold a
/// character which is no hexadecimal digit, and those whose value does not fit.
pub proof fn lemma_refused_tokens(s: Seq<char>)
    ensures
        hex_u16(s) is None <==> s.len() == 0 || (exists|i: int|
            0 <= i < s.len() && digit_value(#[trigger] s[i]) is None) || digits_value(s)
            > 0xffff,
        hex_u16(s) matches Some(v) ==> v == digits_value(s),
{
}

/// The digits of a prefix write no more than the digits of the whole.
pub proof fn lemma_prefix_value(s: Seq<char>, k: int)
    requires
        0 <= k <= s.len(),
    ensures
        digits_value(s.take(k)) <= digits_value(s),
    decreases s.len() - k,
{
    if k == s.len() {
        assert(s.take(k) == s);
    } else {
        assert(s.drop_last().take(k) == s.take(k));
        lemma_prefix_value(s.drop_last(), k);
    }
}

/// Each digit character stands for its own value, and is no separator.
pub proof fn lemma_digit_char(d: nat)
    requires
        d < 16,
    ensures
        digit_value(digit_char(d)) == Some(d),
        digit_char(d) != ':',
        fold_case(digit_char(d)) == digit_char(d),
{
    reveal_strlit("0123456789abcdef");
}

/// What is written is read back: the text of a number is made of digits, and their
/// value is the number.
pub proof fn lemma_hex_round_trip(n: nat)
    ensures
        hex_text(n).len() > 0,
        is_hex(hex_text(n)),
        digits_value(hex_text(n)) == n,
        !hex_text(n).contains(':'),
    decreases n,
{
    if n < 16 {
        lemma_digit_char(n);
        let s = seq![digit_char(n)];
        assert(s.drop_last().len() == 0);
        assert(digits_value(s.drop_last()) == 0);
    } else {
        lemma_hex_round_trip(n / 16);
        lemma_digit_char(n % 16);
        let head = hex_text(n / 16);
        let s = head.push(digit_char(n % 16));
        assert(s.drop_last() == head);
        assert forall|i: int| 0 <= i < s.len() implies digit_value(#[trigger] s[i]) is Some by {
            if i < head.len() {
                assert(s[i] == head[i]);
            }
        }
        assert forall|i: int| 0 <= i < s.len() implies #[trigger] s[i] != ':' by {
            if i < head.len() {
                assert(head.contains(head[i]));
            }
        }
    }
}

/// Every sixteen-bit number is read back from its text.
pub proof fn lemma_text_is_read_back(v: u16)
    ensures
        hex_u16(hex_text(v as nat)) == Some(v),
{
    lemma_hex_round_trip(v as nat);
}

/// A digit has the same value in either case.
pub proof fn lemma_digit_ignores_case(c: char)
    ensures
        digit_value(fold_case(c)) == digit_value(c),
{
}

/// Reading ignores case: two tokens that differ only in the case of their letters
/// write the same number, or both write none.
pub proof fn lemma_reading_ignores_case(s: Seq<char>, t: Seq<char>)
    requires
        same_ignoring_case(s, t),
    ensures
        is_hex(s) == is_hex(t),
        digits_value(s) == digits_value(t),
        hex_u16(s) == hex_u16(t),
    decreases s.len(),
{
    assert forall|i: int| 0 <= i < s.len() implies digit_value(#[trigger] s[i]) == digit_value(
        t[i],
    ) by {
        lemma_digit_ignores_case(s[i]);
        lemma_digit_ignores_case(t[i]);
    }
    if s.len() > 0 {
        lemma_reading_ignores_case(s.drop_last(), t.drop_last());
    }
    if is_hex(s) {
        assert forall|i: int| 0 <= i < t.len() implies digit_value(#[trigger] t[i]) is Some by {
            assert(digit_value(s[i]) is Some);
        }
    }
    if is_hex(t) {
        assert forall|i: int| 0 <= i < s.len() implies digit_value(#[trigger] s[i]) is Some by {
            assert(digit_value(t[i]) is Some);
        }
    }
}

/// Reads one hexadecimal digit, in either case.
pub fn hex_digit(c: char) -> (value: Option<u8>)
    ensures
        value matches Some(d) ==> digit_value(c) == Some(d as nat) && d < 16,
        value is None ==> digit_value(c) is None,
{
    if '0' <= c && c <= '9' {
        Some((c as u32 - '0' as u32) as u8)
    } else if 'a' <= c && c <= 'f' {
        Some((c as u32 - 'a' as u32 + 10) as u8)
    } else if 'A' <= c && c <= 'F' {
        Some((c as u32 - 'A' as u32 + 10) as u8)
    } else {
        None
    }
}

/// The characters of a text, one by one.
pub fn chars_of(text: &str) -> (chars: Vec<char>)
    ensures
        chars@ == text@,
{
    let mut chars: Vec<char> = Vec::new();
    for c in iter: text.chars()
        invariant
            iter.seq() == text@,
            chars@ == text@.take(iter.index() as int),
    {
        assert(text@.take(iter.index() + 1) == text@.take(iter.index() as int).push(c));
        chars.push(c);
    }
    assert(text@.take(text@.len() as int) == text@);
    chars
}

/// Reads the characters from `from` up to `to` as a sixteen-bit number in base
/// sixteen.
pub(crate) fn hex_in(chars: &Vec<char>, from: usize, to: usize) -> (value: Option<u16>)
    requires
        from <= to <= chars.len(),
    ensures
        value == hex_u16(chars@.subrange(from as int, to as int)),
{
    let ghost token = chars@.subrange(from as int, to as int);
    if from == to {
        return None;
    }
    let mut acc: u32 = 0;
    let mut i: usize = from;
    assert(token.take(0).len() == 0);
    while i < to
        invariant
            from <= i <= to <= chars.len(),
            token == chars@.subrange(from as int, to as int),
            is_hex(token.take(i - from)),
            acc == digits_value(token.take(i - from)),
            acc <= 0xffff,
        decreases to - i,
    {
        let ghost longer = token.take(i - from + 1);
        assert(longer.drop_last() == token.take(i - from));
        assert(longer.last() == chars@[i as int]);
        match hex_digit(chars[i]) {
            None => {
                assert(digit_value(token[i - from]) is None);
                return None;
            },
            Some(d) => {
                let next: u32 = acc * 16 + d as u32;
                assert(next == digits_value(longer));
                if next > 0xffff {
                    proof {
                        lemma_prefix_value(token, i - from + 1);
                    }
                    return None;
                }
                assert forall|j: int| 0 <= j < longer.len() implies digit_value(
                    #[trigger] longer[j],
                ) is Some by {
                    if j < i - from {
                        assert(longer[j] == token.take(i - from)[j]);
                    }
                }
                acc = next;
            },
        }
        i += 1;
    }
    assert(token.take(to - from) == token);
    Some(acc as u16)
}

/// Reads a token as a sixteen-bit number in base sixteen.
pub fn parse_hex_u16(token: &str) -> (value: Option<u16>)
    ensures
        value == hex_u16(token@),
{
    let chars = chars_of(token);
    assert(chars@.subrange(0, chars@.len() as int) == chars@);
    hex_in(&chars, 0, chars.len())
}

/// The one-character string of the lower-case digit for `d`.
fn digit_str(d: u16) -> (s: &'static str)
    requires
        d < 16,
    ensures
        s@ == seq![digit_char(d as nat)],
{
    let digits: &'static str = "0123456789abcdef";
    proof {
        reveal_strlit("0123456789abcdef");
    }
    let at: usize = d as usize;
    digits.substring_char(at, at + 1)
}

/// Writes a sixteen-bit number in base sixteen: lower case, no prefix, no leading
/// zeros.
pub fn to_hex(v: u16) -> (s: String)
    ensures
        s@ == hex_text(v as nat),
    decreases v,
{
    if v < 16 {
        String::from_str(digit_str(v))
    } else {
        let mut s = to_hex(v / 16);
        s.append(digit_str(v % 16));
        s
    }
}

} // verus!
