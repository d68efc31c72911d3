//! Decimal numerals, and the bytes of text.

use vstd::prelude::*;
use vstd::string::*;
use vstd::utf8::*;

verus! {

/// The character that stands for the digit `d`.
pub open spec fn digit(d: nat) -> char {
    (('0' as nat) + d) as char
}

/// `n` in decimal, without leading zeros.
pub open spec fn decimal(n: nat) -> Seq<char>
    decreases n,
{
    if n < 10 {
        seq![digit(n)]
    } else {
        decimal(n / 10).push(digit(n % 10))
    }
}

/// The numeral for a single digit.
fn digit_str(d: u64) -> (s: &'static str)
    requires
        d < 10,
    ensures
        s@ == seq![digit(d as nat)],
{
    proof {
        reveal_strlit("0");
        reveal_strlit("1");
        reveal_strlit("2");
        reveal_strlit("3");
        reveal_strlit("4");
        reveal_strlit("5");
        reveal_strlit("6");
        reveal_strlit("7");
        reveal_strlit("8");
        reveal_strlit("9");
    }
    match d {
        0 => "0",
        1 => "1",
        2 => "2",
        3 => "3",
        4 => "4",
        5 => "5",
        6 => "6",
        7 => "7",
        8 => "8",
        _ => "9",
    }
}

/// Appends `n` in decimal to `text`.
pub fn push_decimal(text: &mut String, n: u64)
    ensures
        final(text)@ == old(text)@ + decimal(n as nat),
    decreases n,
{
    if n >= 10 {
        push_decimal(text, n / 10);
    }
    text.append(digit_str(n % 10));
    assert(text@ == old(text)@ + decimal(n as nat));
}

/// Compares two texts.
pub fn same_text(a: &str, b: &str) -> (same: bool)
    ensures
        same == (a@ == b@),
{
    let (x, y) = (a.as_bytes(), b.as_bytes());
    if x.len() != y.len() {
        return false;
    }
    for i in 0..x.len()
        invariant
            x@ == encode_utf8(a@),
            y@ == encode_utf8(b@),
            x.len() == y.len(),
            forall|j: int| 0 <= j < i ==> x@[j] == y@[j],
    {
        if x[i] != y[i] {
            return false;
        }
    }
    proof {
        assert(x@ =~= y@);
        encode_utf8_decode_utf8(a@);
        encode_utf8_decode_utf8(b@);
    }
    true
}

/// The parts of `s` between separators. There is always one more than there are
/// separators.
pub open spec fn split(s: Seq<char>, separator: char) -> Seq<Seq<char>>
    decreases s.len(),
{
    if s.len() == 0 {
        seq![seq![]]
    } else {
        let before = split(s.drop_last(), separator);
        if s.last() == separator {
            before.push(seq![])
        } else {
            before.drop_last().push(before.last().push(s.last()))
        }
    }
}

/// Text without a separator is one part.
pub proof fn lemma_split_one(part: Seq<char>, separator: char)
    requires
        !part.contains(separator),
    ensures
        split(part, separator) == seq![part],
    decreases part.len(),
{
    if part.len() == 0 {
        assert(part =~= seq![]);
    } else {
        let shorter = part.drop_last();
        assert forall|i: int| 0 <= i < shorter.len() implies shorter[i] != separator by {
            assert(shorter[i] == part[i]);
        }
        lemma_split_one(shorter, separator);
        assert(part.last() == part[part.len() - 1]);
        assert(shorter.push(part.last()) =~= part);
        assert(split(part, separator) =~= seq![part]);
    }
}

/// What stands behind the last separator is the last part.
pub proof fn lemma_split_more(before: Seq<char>, part: Seq<char>, separator: char)
    requires
        !part.contains(separator),
    ensures
        split(before.push(separator) + part, separator) == split(before, separator).push(part),
    decreases part.len(),
{
    let s = before.push(separator) + part;
    if part.len() == 0 {
        assert(s =~= before.push(separator));
        assert(s.drop_last() =~= before);
        assert(part =~= seq![]);
    } else {
        let shorter = part.drop_last();
        assert forall|i: int| 0 <= i < shorter.len() implies shorter[i] != separator by {
            assert(shorter[i] == part[i]);
        }
        lemma_split_more(before, shorter, separator);
        assert(part.last() == part[part.len() - 1]);
        assert(s.drop_last() =~= before.push(separator) + shorter);
        assert(shorter.push(part.last()) =~= part);
        assert(split(s, separator) =~= split(before, separator).push(part));
    }
}

/// The number that a text of digits stands for.
pub open spec fn numeral(s: Seq<char>) -> nat
    decreases s.len(),
{
    if s.len() == 0 {
        0
    } else {
        (numeral(s.drop_last()) * 10 + (s.last() as nat - '0' as nat)) as nat
    }
}

/// A number can be read back from its decimal numeral.
pub proof fn decimal_is_read_back(n: nat)
    ensures
        numeral(decimal(n)) == n,
    decreases n,
{
    if n < 10 {
        assert(decimal(n).drop_last() =~= seq![]);
        assert(numeral(decimal(n).drop_last()) == 0);
        assert(decimal(n).last() == digit(n));
    } else {
        decimal_is_read_back(n / 10);
        assert(decimal(n).drop_last() =~= decimal(n / 10));
        assert(decimal(n).last() == digit(n % 10));
    }
}

/// Text of ASCII characters other than the escape character.
pub open spec fn is_plain(text: Seq<char>) -> bool {
    forall|i: int| 0 <= i < text.len() ==> '\0' <= #[trigger] text[i] <= '\x7f' && text[i]
        != '\x1b'
}

/// Decimal numerals are digits.
pub proof fn lemma_decimal_is_digits(n: nat)
    ensures
        forall|i: int| 0 <= i < decimal(n).len() ==> '0' <= #[trigger] decimal(n)[i] <= '9',
        decimal(n).len() > 0,
    decreases n,
{
    if n >= 10 {
        lemma_decimal_is_digits(n / 10);
    }
}

/// The bytes of text are those of its parts.
pub proof fn lemma_encode_concat(a: Seq<char>, b: Seq<char>)
    ensures
        encode_utf8(a + b) == encode_utf8(a) + encode_utf8(b),
    decreases a.len(),
{
    if a.len() == 0 {
        assert(a + b =~= b);
        assert(encode_utf8(a) =~= Seq::<u8>::empty());
    } else {
        lemma_encode_concat(a.drop_first(), b);
        assert((a + b).drop_first() =~= a.drop_first() + b);
    }
}

/// The bytes of plain text hold no escape character.
pub proof fn lemma_plain_bytes(text: Seq<char>)
    requires
        is_plain(text),
    ensures
        encode_utf8(text).len() == text.len(),
        !encode_utf8(text).contains(0x1b),
{
    assert(is_ascii_chars(text));
    is_ascii_chars_encode_utf8(text);
    assert forall|i: int| 0 <= i < text.len() implies encode_utf8(text)[i] != 0x1b by {
        assert(text[i] as u8 == encode_utf8(text)[i]);
    }
}

/// Numerals are positional: a further digit multiplies by ten and adds its value.
pub proof fn numerals_are_positional(s: Seq<char>, c: char)
    requires
        '0' <= c <= '9',
    ensures
        numeral(seq![]) == 0,
        numeral(s.push(c)) == numeral(s) * 10 + (c as int - 48),
{
    assert(s.push(c).drop_last() =~= s);
}

/// A decimal numeral consists of digits, stands for its number, and has no zero in
/// front.
pub proof fn decimals_are_canonical(n: nat)
    ensures
        decimal(n).len() > 0,
        forall|i: int| 0 <= i < decimal(n).len() ==> '0' <= #[trigger] decimal(n)[i] <= '9',
        numeral(decimal(n)) == n,
        decimal(n)[0] == '0' ==> n == 0 && decimal(n).len() == 1,
    decreases n,
{
    lemma_decimal_is_digits(n);
    decimal_is_read_back(n);
    if n >= 10 {
        decimals_are_canonical(n / 10);
        lemma_decimal_is_digits(n / 10);
        assert(decimal(n)[0] == decimal(n / 10)[0]);
    } else {
        assert(decimal(n)[0] == digit(n));
    }
}

} // verus!
