//! Plain-text rendering of integers and identifier lists.
use vstd::prelude::*;
use vstd::string::StringExecFns;
use vstd::arithmetic::div_mod::{lemma_fundamental_div_mod, lemma_small_mod};

verus! {

/// The character for digit `d` (0..=15), lower-case for the letters.
pub open spec fn digit_char(d: nat) -> char {
    if d < 10 {
        (d + 48) as char
    } else {
        (d + 87) as char
    }
}

/// `n` written in base `base` without leading zeros ("0" for zero).
pub open spec fn digits(n: nat, base: nat) -> Seq<char>
    recommends
        2 <= base <= 16,
    decreases n,
{
    if n < base || base < 2 {
        seq![digit_char(n)]
    } else {
        proof {
            assert(n / base < n) by (nonlinear_arith)
                requires
                    n >= base,
                    base >= 2,
            ;
        }
        digits(n / base, base).push(digit_char(n % base))
    }
}

/// `n` in decimal, as `{}` writes an unsigned integer.
pub open spec fn decimal(n: nat) -> Seq<char> {
    digits(n, 10)
}

/// `text` left-padded with `'0'` to at least `width` characters.
pub open spec fn zero_padded(text: Seq<char>, width: nat) -> Seq<char> {
    if text.len() < width {
        Seq::new((width - text.len()) as nat, |i: int| '0') + text
    } else {
        text
    }
}

/// `n` as `{:#06x}` writes it: `0x`, then lower-case hex digits padded with zeros to four.
pub open spec fn prefixed_hex4(n: nat) -> Seq<char> {
    "0x"@ + zero_padded(digits(n, 16), 4)
}

/// The identifiers joined by `", "`.
pub open spec fn joined_decimals(items: Seq<usize>) -> Seq<char>
    decreases items.len(),
{
    if items.len() == 0 {
        Seq::empty()
    } else if items.len() == 1 {
        decimal(items[0] as nat)
    } else {
        joined_decimals(items.drop_last()) + ", "@ + decimal(items.last() as nat)
    }
}

/// A list of identifiers as `{:?}` writes it, such as `[4, 1, 0]`.
pub open spec fn debug_list(items: Seq<usize>) -> Seq<char> {
    "["@ + joined_decimals(items) + "]"@
}

/// Append one character (`String::push`).
#[verifier::external_body]
pub(crate) fn push_char(out: &mut String, c: char)
    ensures
        final(out)@ == old(out)@.push(c),
{
    out.push(c);
}

/// Append `text` to `out`.
pub fn push_str(out: &mut String, text: &str)
    ensures
        final(out)@ == old(out)@ + text@,
{
    out.append(text);
}

/// The digit character for `d`.
fn digit(d: u64) -> (c: char)
    requires
        d < 16,
    ensures
        c == digit_char(d as nat),
{
    let byte: u8 = d as u8;
    if byte < 10 {
        (byte + 48) as char
    } else {
        (byte + 87) as char
    }
}

/// Append `n` written in base `base`.
pub fn push_digits(out: &mut String, n: u64, base: u64)
    requires
        2 <= base <= 16,
    ensures
        final(out)@ == old(out)@ + digits(n as nat, base as nat),
    decreases n,
{
    if n >= base {
        assert(n / base < n) by (nonlinear_arith)
            requires
                n >= base,
                base >= 2,
        ;
        push_digits(out, n / base, base);
    }
    push_char(out, digit(n % base));
    proof {
        if n < base {
            lemma_small_mod(n as nat, base as nat);
        }
    }
}

/// Append `n` in decimal.
pub fn push_decimal(out: &mut String, n: u64)
    ensures
        final(out)@ == old(out)@ + decimal(n as nat),
{
    push_digits(out, n, 10);
}

/// Number of base-`base` digits of `n`.
pub proof fn lemma_digits_len(n: nat, base: nat)
    requires
        2 <= base,
    ensures
        digits(n, base).len() >= 1,
        n < base ==> digits(n, base).len() == 1,
        n >= base ==> digits(n, base).len() == digits(n / base, base).len() + 1,
    decreases n,
{
}

/// Count the lower-case hex digits of `n`.
fn hex_digit_count(n: u64) -> (count: u64)
    ensures
        count == digits(n as nat, 16).len(),
    decreases n,
{
    proof {
        lemma_digits_len(n as nat, 16);
    }
    if n < 16 {
        1
    } else {
        let rest = hex_digit_count(n / 16);
        proof {
            lemma_hex_digits_short(n as nat / 16);
        }
        rest + 1
    }
}

/// A 64-bit value has at most sixteen hex digits.
proof fn lemma_hex_digits_short(n: nat)
    requires
        n <= u64::MAX / 16,
    ensures
        digits(n, 16).len() < 16,
{
    assert(pow16(15) == 0x1000_0000_0000_0000) by {
        reveal_with_fuel(pow16, 16);
    }
    lemma_digits_bounded(n, 15);
}

proof fn lemma_digits_bounded(n: nat, count: nat)
    requires
        n < pow16(count),
        count >= 1,
    ensures
        digits(n, 16).len() <= count,
    decreases count,
{
    if n >= 16 {
        assert(count >= 2) by {
            if count == 1 {
                assert(pow16(1) == 16 * pow16(0));
            }
        }
        assert(n / 16 < pow16((count - 1) as nat)) by {
            assert(pow16(count) == 16 * pow16((count - 1) as nat));
        }
        lemma_digits_bounded(n / 16, (count - 1) as nat);
    }
}

spec fn pow16(count: nat) -> nat
    decreases count,
{
    if count == 0 {
        1
    } else {
        16 * pow16((count - 1) as nat)
    }
}

/// Append `n` as `{:#06x}` writes it.
pub fn push_prefixed_hex4(out: &mut String, n: u64)
    ensures
        final(out)@ == old(out)@ + prefixed_hex4(n as nat),
{
    push_str(out, "0x");
    let count = hex_digit_count(n);
    let mut padding: u64 = count;
    let ghost start = out@;
    while padding < 4
        invariant
            count <= padding,
            count == digits(n as nat, 16).len(),
            padding <= 4 || padding == count,
            out@ == start + Seq::new((padding - count) as nat, |i: int| '0'),
        decreases 4 - padding,
    {
        push_char(out, '0');
        padding = padding + 1;
        assert(out@ =~= start + Seq::new((padding - count) as nat, |i: int| '0'));
    }
    push_digits(out, n, 16);
    proof {
        let hex = digits(n as nat, 16);
        assert(zero_padded(hex, 4) =~= Seq::new((padding - count) as nat, |i: int| '0') + hex);
        assert(out@ =~= old(out)@ + prefixed_hex4(n as nat));
    }
}

/// Append the identifiers as `{:?}` writes a list of them.
pub fn push_debug_list(out: &mut String, items: &[usize])
    ensures
        final(out)@ == old(out)@ + debug_list(items@),
{
    let ghost start = out@;
    push_str(out, "[");
    let mut index: usize = 0;
    while index < items.len()
        invariant
            index <= items@.len(),
            out@ == start + "["@ + joined_decimals(items@.take(index as int)),
        decreases items@.len() - index,
    {
        if index > 0 {
            push_str(out, ", ");
        }
        push_decimal(out, items[index] as u64);
        proof {
            let prefix = items@.take(index as int + 1);
            assert(prefix.drop_last() =~= items@.take(index as int));
            assert(prefix.last() == items@[index as int]);
            if index == 0 {
                assert(items@.take(0) =~= Seq::<usize>::empty());
            }
        }
        index = index + 1;
        assert(out@ =~= start + "["@ + joined_decimals(items@.take(index as int)));
    }
    push_str(out, "]");
    assert(items@.take(items@.len() as int) =~= items@);
    assert(out@ =~= old(out)@ + debug_list(items@));
}

} // verus!

verus! {

/// The value of a digit character: `'0'..='9'` are 0 to 9, `'a'..='f'` are 10 to
/// 15, and any other character is 16, which is no digit.
pub open spec fn char_value(c: char) -> nat {
    let code = c as int;
    if 48 <= code <= 57 {
        (code - 48) as nat
    } else if 97 <= code <= 102 {
        (code - 87) as nat
    } else {
        16
    }
}

/// The number that a sequence of digit characters denotes in base `base`.
pub open spec fn digits_value(text: Seq<char>, base: nat) -> nat
    decreases text.len(),
{
    if text.len() == 0 {
        0
    } else {
        digits_value(text.drop_last(), base) * base + char_value(text.last())
    }
}

/// Rendering a number in a base from 2 to 16 and reading it back gives the number,
/// every character is a digit below the base written with `0`-`9` and lower-case
/// `a`-`f`, and the rendering has no leading zero unless it is `0` itself.
pub proof fn lemma_digits_round_trip(n: nat, base: nat)
    requires
        2 <= base <= 16,
    ensures
        digits_value(digits(n, base), base) == n,
        forall|i: int|
            0 <= i < digits(n, base).len() ==> #[trigger] char_value(digits(n, base)[i]) < base,
        digits(n, base).len() > 1 ==> digits(n, base)[0] != '0',
    decreases n,
{
    let text = digits(n, base);
    if n < base {
        assert(text.drop_last() =~= Seq::<char>::empty());
        assert(char_value(digit_char(n)) == n);
        assert(digits_value(text.drop_last(), base) == 0);
        assert(digits_value(text, base) == 0 * base + char_value(text.last()));
    } else {
        assert(n / base < n) by (nonlinear_arith)
            requires
                n >= base,
                base >= 2,
        ;
        let high = digits(n / base, base);
        lemma_digits_round_trip(n / base, base);
        assert(text.drop_last() =~= high);
        assert(char_value(digit_char(n % base)) == n % base);
        lemma_fundamental_div_mod(n as int, base as int);
        assert(n == (n / base) * base + n % base) by (nonlinear_arith)
            requires
                n as int == base as int * (n as int / base as int) + n as int % base as int,
        ;
        assert forall|i: int| 0 <= i < text.len() implies #[trigger] char_value(text[i]) < base by {
            if i < high.len() {
                assert(text[i] == high[i]);
            }
        }
        lemma_digits_len(n / base, base);
        if high.len() == 1 {
            assert(n / base >= 1);
            assert(high[0] == digit_char(n / base));
            assert(char_value(high[0]) == n / base);
        }
        assert(text[0] == high[0]);
        assert(text.last() == digit_char(n % base));
        assert(digits_value(text, base) == digits_value(high, base) * base + char_value(
            digit_char(n % base),
        ));
    }
}

/// Leading zeros do not change the value of a digit sequence.
proof fn lemma_leading_zeros_value(zeros: nat, text: Seq<char>, base: nat)
    ensures
        digits_value(Seq::new(zeros, |i: int| '0') + text, base) == digits_value(text, base),
    decreases text.len(), zeros,
{
    let padding = Seq::new(zeros, |i: int| '0');
    if text.len() == 0 {
        assert(padding + text =~= padding);
        if zeros > 0 {
            let shorter = Seq::new((zeros - 1) as nat, |i: int| '0');
            assert(padding.drop_last() =~= shorter + Seq::<char>::empty());
            lemma_leading_zeros_value((zeros - 1) as nat, Seq::<char>::empty(), base);
            assert(char_value(padding.last()) == 0);
            assert(digits_value(shorter + Seq::<char>::empty(), base) == 0);
            assert(digits_value(padding, base) == 0 * base + 0);
        }
    } else {
        lemma_leading_zeros_value(zeros, text.drop_last(), base);
        assert((padding + text).drop_last() =~= padding + text.drop_last());
        assert((padding + text).last() == text.last());
    }
}

/// `{:#06x}` writes `0x` and then hex digits, at least four, that read back as the
/// number, are all `0`-`9` or lower-case `a`-`f`, and start with a zero only to pad
/// to four digits.
pub proof fn lemma_prefixed_hex4(n: nat)
    ensures
        ({
            let text = prefixed_hex4(n);
            let hex = text.skip(2);
            &&& text == "0x"@ + hex
            &&& hex.len() >= 4
            &&& digits_value(hex, 16) == n
            &&& forall|i: int| 0 <= i < hex.len() ==> #[trigger] char_value(hex[i]) < 16
            &&& hex.len() > 4 ==> hex[0] != '0'
        }),
{
    reveal_strlit("0x");
    let plain = digits(n, 16);
    lemma_digits_round_trip(n, 16);
    lemma_digits_len(n, 16);
    let text = prefixed_hex4(n);
    let hex = zero_padded(plain, 4);
    assert(text.skip(2) =~= hex);
    if plain.len() < 4 {
        let zeros = (4 - plain.len()) as nat;
        lemma_leading_zeros_value(zeros, plain, 16);
        assert forall|i: int| 0 <= i < hex.len() implies #[trigger] char_value(hex[i]) < 16 by {
            if i >= zeros {
                assert(hex[i] == plain[i - zeros]);
            } else {
                assert(hex[i] == '0');
            }
        }
    }
}

} // verus!
