use vstd::prelude::*;

verus! {

/// `String::push` appends one character at the end of the string.
pub assume_specification[ String::push ](s: &mut String, ch: char)
    ensures
        final(s)@ == old(s)@.push(ch),
;

/// The character whose code point is `code`.
pub open spec fn code_char(code: int) -> char {
    code as char
}

/// The decimal digit character of `d` (`0 <= d < 10`).
pub open spec fn decimal_digit(d: nat) -> char {
    code_char(48 + d as int)
}

/// The lower-case hexadecimal digit character of `d` (`0 <= d < 16`).
pub open spec fn hex_digit(d: nat) -> char {
    if d < 10 {
        code_char(48 + d as int)
    } else {
        code_char(87 + d as int)
    }
}

/// The decimal notation of `n`, without leading zeros ("0" for zero).
pub open spec fn decimal(n: nat) -> Seq<char>
    decreases n,
{
    if n < 10 {
        seq![decimal_digit(n)]
    } else {
        decimal(n / 10).push(decimal_digit(n % 10))
    }
}

/// The digit characters are those of `0123456789abcdef`, in order.
pub proof fn lemma_digit_characters(d: nat)
    ensures
        d < 10 ==> decimal_digit(d) == "0123456789"@[d as int],
        d < 16 ==> hex_digit(d) == "0123456789abcdef"@[d as int],
{
    reveal_strlit("0123456789");
    reveal_strlit("0123456789abcdef");
}

/// The number that a string of decimal digits stands for.
pub open spec fn digits_value(s: Seq<char>) -> int
    decreases s.len(),
{
    if s.len() == 0 {
        0
    } else {
        10 * digits_value(s.drop_last()) + (s.last() as int - 48)
    }
}

/// `decimal(n)` reads back as `n`, and has no leading zero.
pub proof fn lemma_decimal_value(n: nat)
    ensures
        digits_value(decimal(n)) == n,
        decimal(n).len() >= 1,
        n >= 10 <==> decimal(n).len() > 1,
        decimal(n).len() > 1 ==> decimal(n)[0] != '0',
        forall|i: int| 0 <= i < decimal(n).len() ==> '0' <= #[trigger] decimal(n)[i] <= '9',
    decreases n,
{
    let s = decimal(n);
    let d = (n % 10) as nat;
    assert((decimal_digit(d) as int) == 48 + d);
    if n >= 10 {
        lemma_decimal_value(n / 10);
        assert(s.drop_last() =~= decimal(n / 10));
        assert(s.last() == decimal_digit(d));
        assert(digits_value(s) == 10 * digits_value(decimal(n / 10)) + d);
        assert forall|i: int| 0 <= i < s.len() implies '0' <= #[trigger] s[i] <= '9' by {
            if i < s.len() - 1 {
                assert(s[i] == decimal(n / 10)[i]);
            }
        }
        if n / 10 < 10 {
            assert((decimal_digit((n / 10) as nat) as int) == 48 + n / 10);
            assert(decimal(n / 10)[0] == decimal_digit((n / 10) as nat));
            assert(('0' as int) == 48);
            assert(decimal_digit((n / 10) as nat) != '0');
        }
        assert(s[0] == decimal(n / 10)[0]);
    } else {
        assert(s.drop_last() =~= Seq::<char>::empty());
        assert(digits_value(s) == 10 * digits_value(s.drop_last()) + (s.last() as int - 48));
    }
}

/// The two lower-case hexadecimal digits of a byte.
pub open spec fn hex_byte(b: u8) -> Seq<char> {
    seq![hex_digit((b / 16) as nat), hex_digit((b % 16) as nat)]
}

/// The text of each string.
pub open spec fn texts(v: Seq<String>) -> Seq<Seq<char>> {
    v.map_values(|s: String| s@)
}

/// Whether `a` and `b` hold the same text.
pub fn text_eq(a: &String, b: &str) -> (r: bool)
    ensures
        r == (a@ == b@),
{
    let owned: String = b.to_owned();
    *a == owned
}

/// Appends the decimal notation of `n`.
pub fn push_decimal(s: &mut String, n: usize)
    ensures
        final(s)@ == old(s)@ + decimal(n as nat),
    decreases n,
{
    if n >= 10 {
        push_decimal(s, n / 10);
    }
    let d: u8 = (n % 10) as u8;
    s.push((48u8 + d) as char);
    assert(old(s)@ + decimal(n as nat) =~= final(s)@) by {
        if n >= 10 {
            assert(decimal(n as nat) == decimal((n / 10) as nat).push(decimal_digit((n % 10) as nat)));
        }
    }
}

/// Appends the two lower-case hexadecimal digits of `b`.
pub fn push_hex_byte(s: &mut String, b: u8)
    ensures
        final(s)@ == old(s)@ + hex_byte(b),
{
    let hi: u8 = b / 16;
    let lo: u8 = b % 16;
    if hi < 10 {
        s.push((48u8 + hi) as char);
    } else {
        s.push((87u8 + hi) as char);
    }
    if lo < 10 {
        s.push((48u8 + lo) as char);
    } else {
        s.push((87u8 + lo) as char);
    }
    assert(final(s)@ =~= old(s)@ + hex_byte(b));
}

} // verus!
