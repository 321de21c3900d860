//! Decimal and hexadecimal numerals: rendering a number as text and
//! parsing it back, with the round trip proved.

use vstd::prelude::*;

verus! {

/// Decimal digit characters.
pub open spec fn is_dec_digit(c: char) -> bool {
    '0' <= c && c <= '9'
}

/// Numeric value of a decimal digit character.
pub open spec fn dec_digit_val(c: char) -> nat {
    (c as nat - '0' as nat) as nat
}

/// The digit character for a value below ten.
pub open spec fn dec_digit_char(d: nat) -> char {
    if d == 0 { '0' }
    else if d == 1 { '1' }
    else if d == 2 { '2' }
    else if d == 3 { '3' }
    else if d == 4 { '4' }
    else if d == 5 { '5' }
    else if d == 6 { '6' }
    else if d == 7 { '7' }
    else if d == 8 { '8' }
    else { '9' }
}

/// Every character of `s` is a decimal digit.
pub open spec fn all_dec_digits(s: Seq<char>) -> bool {
    forall|i: int| 0 <= i < s.len() ==> is_dec_digit(#[trigger] s[i])
}

/// The value of a string of decimal digits, most significant first.
pub open spec fn dec_val(s: Seq<char>) -> nat
    decreases s.len(),
{
    if s.len() == 0 {
        0
    } else {
        dec_val(s.drop_last()) * 10 + dec_digit_val(s.last())
    }
}

/// The canonical decimal numeral of `n`: no leading zeros, at least one digit.
pub open spec fn spec_dec_digits(n: nat) -> Seq<char>
    decreases n,
{
    if n < 10 {
        seq![dec_digit_char(n)]
    } else {
        spec_dec_digits(n / 10).push(dec_digit_char(n % 10))
    }
}

/// A decimal numeral parses exactly when it is nonempty, all digits,
/// and its value fits below the given bound.
pub open spec fn dec_parse_ok(s: Seq<char>, max: nat) -> bool {
    s.len() > 0 && all_dec_digits(s) && dec_val(s) <= max
}

/// Value and digit-hood of the canonical digit character.
pub proof fn lemma_dec_digit_char(d: nat)
    requires
        d < 10,
    ensures
        is_dec_digit(dec_digit_char(d)),
        dec_digit_val(dec_digit_char(d)) == d,
{
}

/// The canonical numeral is made of digits only.
pub proof fn lemma_dec_digits_are_digits(n: nat)
    ensures
        spec_dec_digits(n).len() >= 1,
        all_dec_digits(spec_dec_digits(n)),
    decreases n,
{
    if n >= 10 {
        lemma_dec_digits_are_digits(n / 10);
        assert forall|i: int| 0 <= i < spec_dec_digits(n).len() implies is_dec_digit(
            #[trigger] spec_dec_digits(n)[i],
        ) by {
            if i < spec_dec_digits(n / 10).len() {
                assert(spec_dec_digits(n)[i] == spec_dec_digits(n / 10)[i]);
            }
        }
    }
}

/// Rendering then evaluating a decimal numeral gives the number back.
pub proof fn lemma_dec_digits_val(n: nat)
    ensures
        dec_val(spec_dec_digits(n)) == n,
    decreases n,
{
    assert(dec_val(Seq::<char>::empty()) == 0);
    if n < 10 {
        lemma_dec_digit_char(n);
        assert(spec_dec_digits(n).drop_last() =~= Seq::<char>::empty());
        assert(spec_dec_digits(n).last() == dec_digit_char(n));
        assert(dec_val(spec_dec_digits(n)) == dec_val(Seq::<char>::empty()) * 10 + dec_digit_val(
            dec_digit_char(n),
        ));
    } else {
        lemma_dec_digits_val(n / 10);
        lemma_dec_digit_char(n % 10);
        assert(spec_dec_digits(n).drop_last() =~= spec_dec_digits(n / 10));
        assert(spec_dec_digits(n).last() == dec_digit_char(n % 10));
        assert(dec_val(spec_dec_digits(n)) == dec_val(spec_dec_digits(n / 10)) * 10
            + dec_digit_val(dec_digit_char(n % 10)));
        assert(n == (n / 10) * 10 + n % 10);
    }
}

/// The single-character string for a decimal digit.
pub fn dec_digit_str(d: u64) -> (r: &'static str)
    requires
        d < 10,
    ensures
        r@ =~= seq![dec_digit_char(d as nat)],
{
    proof {
        reveal_strlit("0");
        reveal_strlit("1");
        reveal_strlit("2");
        reveal_strlit("3");
        reveal_strlit("4");
        reveal_strlit("5");
        reveal_strlit("6");
        reveal_strlit("7");
        reveal_strlit("8");
        reveal_strlit("9");
    }
    if d == 0 { "0" }
    else if d == 1 { "1" }
    else if d == 2 { "2" }
    else if d == 3 { "3" }
    else if d == 4 { "4" }
    else if d == 5 { "5" }
    else if d == 6 { "6" }
    else if d == 7 { "7" }
    else if d == 8 { "8" }
    else { "9" }
}

/// Appends the decimal numeral of `n` to `out`.
pub fn push_dec_u64(n: u64, out: &mut String)
    ensures
        final(out)@ == old(out)@ + spec_dec_digits(n as nat),
    decreases n,
{
    if n >= 10 {
        push_dec_u64(n / 10, out);
        out.append(dec_digit_str(n % 10));
        assert(out@ =~= old(out)@ + spec_dec_digits(n as nat));
    } else {
        out.append(dec_digit_str(n));
        assert(out@ =~= old(out)@ + spec_dec_digits(n as nat));
    }
}

/// Extending a digit string on the right never shrinks its value.
pub proof fn lemma_dec_val_extend(s: Seq<char>, i: int, j: int)
    requires
        0 <= i <= j <= s.len(),
    ensures
        dec_val(s.subrange(0, i)) <= dec_val(s.subrange(0, j)),
    decreases j - i,
{
    if i < j {
        lemma_dec_val_extend(s, i, j - 1);
        assert(s.subrange(0, j).drop_last() =~= s.subrange(0, j - 1));
        assert(dec_val(s.subrange(0, j)) == dec_val(s.subrange(0, j - 1)) * 10 + dec_digit_val(
            s.subrange(0, j).last(),
        ));
    }
}

/// Parses a decimal numeral as a `u64`; `None` exactly on empty input,
/// a non-digit character, or overflow.
pub fn parse_dec_u64(s: &str) -> (r: Option<u64>)
    ensures
        match r {
            Some(v) => dec_parse_ok(s@, u64::MAX as nat) && v as nat == dec_val(s@),
            None => !dec_parse_ok(s@, u64::MAX as nat),
        },
{
    let len = s.unicode_len();
    if len == 0 {
        return None;
    }
    let mut acc: u64 = 0;
    let mut i: usize = 0;
    while i < len
        invariant
            0 < len == s@.len(),
            0 <= i <= len,
            all_dec_digits(s@.subrange(0, i as int)),
            acc as nat == dec_val(s@.subrange(0, i as int)),
        decreases len - i,
    {
        let c = s.get_char(i);
        let cp = c as u32;
        if cp < 48 || cp > 57 {
            assert(!is_dec_digit(s@[i as int]));
            return None;
        }
        let d = (cp - 48) as u64;
        assert(d as nat == dec_digit_val(s@[i as int]));
        proof {
            assert(s@.subrange(0, i + 1).drop_last() =~= s@.subrange(0, i as int));
            assert(s@.subrange(0, i + 1).last() == s@[i as int]);
        }
        if acc > (u64::MAX - d) / 10 {
            proof {
                let m = (u64::MAX - d) as nat;
                assert(m == (m / 10) * 10 + m % 10);
                assert(acc as nat * 10 >= (m / 10 + 1) * 10);
                assert(dec_val(s@.subrange(0, i + 1)) == acc as nat * 10 + d);
                assert(dec_val(s@.subrange(0, i + 1)) > u64::MAX);
                lemma_dec_val_extend(s@, i + 1, len as int);
                assert(s@.subrange(0, len as int) =~= s@);
            }
            return None;
        }
        proof {
            let m = (u64::MAX - d) as nat;
            assert(m == (m / 10) * 10 + m % 10);
            assert(acc as nat * 10 <= (m / 10) * 10);
        }
        acc = acc * 10 + d;
        i += 1;
        assert(all_dec_digits(s@.subrange(0, i as int)));
    }
    proof {
        assert(s@.subrange(0, len as int) =~= s@);
    }
    Some(acc)
}

/// Parses a decimal numeral as a `u16`; `None` exactly when the text is
/// not a numeral or its value does not fit.
pub fn parse_dec_u16(s: &str) -> (r: Option<u16>)
    ensures
        match r {
            Some(v) => dec_parse_ok(s@, u16::MAX as nat) && v as nat == dec_val(s@),
            None => !dec_parse_ok(s@, u16::MAX as nat),
        },
{
    match parse_dec_u64(s) {
        Some(v) => if v <= 65535 {
            Some(v as u16)
        } else {
            None
        },
        None => None,
    }
}

/// Parses a decimal numeral as a `u8`; `None` exactly when the text is
/// not a numeral or its value does not fit.
pub fn parse_dec_u8(s: &str) -> (r: Option<u8>)
    ensures
        match r {
            Some(v) => dec_parse_ok(s@, u8::MAX as nat) && v as nat == dec_val(s@),
            None => !dec_parse_ok(s@, u8::MAX as nat),
        },
{
    match parse_dec_u64(s) {
        Some(v) => if v <= 255 {
            Some(v as u8)
        } else {
            None
        },
        None => None,
    }
}

/// Hexadecimal digit characters, either case.
pub open spec fn is_hex_digit(c: char) -> bool {
    is_dec_digit(c) || ('a' <= c && c <= 'f') || ('A' <= c && c <= 'F')
}

/// Numeric value of a hexadecimal digit character.
pub open spec fn hex_digit_val(c: char) -> nat {
    if is_dec_digit(c) {
        dec_digit_val(c)
    } else if 'a' <= c && c <= 'f' {
        (c as nat - 'a' as nat + 10) as nat
    } else {
        (c as nat - 'A' as nat + 10) as nat
    }
}

/// The lowercase digit character for a value below sixteen.
pub open spec fn hex_digit_char(d: nat) -> char {
    if d < 10 {
        dec_digit_char(d)
    } else if d == 10 { 'a' }
    else if d == 11 { 'b' }
    else if d == 12 { 'c' }
    else if d == 13 { 'd' }
    else if d == 14 { 'e' }
    else { 'f' }
}

/// Every character of `s` is a hexadecimal digit.
pub open spec fn all_hex_digits(s: Seq<char>) -> bool {
    forall|i: int| 0 <= i < s.len() ==> is_hex_digit(#[trigger] s[i])
}

/// The value of a string of hexadecimal digits, most significant first.
pub open spec fn hex_val(s: Seq<char>) -> nat
    decreases s.len(),
{
    if s.len() == 0 {
        0
    } else {
        hex_val(s.drop_last()) * 16 + hex_digit_val(s.last())
    }
}

/// The canonical lowercase hexadecimal numeral of `n`.
pub open spec fn spec_hex_digits(n: nat) -> Seq<char>
    decreases n,
{
    if n < 16 {
        seq![hex_digit_char(n)]
    } else {
        spec_hex_digits(n / 16).push(hex_digit_char(n % 16))
    }
}

/// A hexadecimal numeral parses exactly when it is nonempty, all hex
/// digits, and its value fits below the given bound.
pub open spec fn hex_parse_ok(s: Seq<char>, max: nat) -> bool {
    s.len() > 0 && all_hex_digits(s) && hex_val(s) <= max
}

/// Value and digit-hood of the canonical hexadecimal digit character.
pub proof fn lemma_hex_digit_char(d: nat)
    requires
        d < 16,
    ensures
        is_hex_digit(hex_digit_char(d)),
        hex_digit_val(hex_digit_char(d)) == d,
{
}

/// The canonical hexadecimal numeral is made of hex digits only.
pub proof fn lemma_hex_digits_are_digits(n: nat)
    ensures
        spec_hex_digits(n).len() >= 1,
        all_hex_digits(spec_hex_digits(n)),
    decreases n,
{
    if n >= 16 {
        lemma_hex_digits_are_digits(n / 16);
        assert forall|i: int| 0 <= i < spec_hex_digits(n).len() implies is_hex_digit(
            #[trigger] spec_hex_digits(n)[i],
        ) by {
            if i < spec_hex_digits(n / 16).len() {
                assert(spec_hex_digits(n)[i] == spec_hex_digits(n / 16)[i]);
            }
        }
    }
}

/// Rendering then evaluating a hexadecimal numeral gives the number back.
pub proof fn lemma_hex_digits_val(n: nat)
    ensures
        hex_val(spec_hex_digits(n)) == n,
    decreases n,
{
    assert(hex_val(Seq::<char>::empty()) == 0);
    if n < 16 {
        lemma_hex_digit_char(n);
        assert(spec_hex_digits(n).drop_last() =~= Seq::<char>::empty());
        assert(spec_hex_digits(n).last() == hex_digit_char(n));
        assert(hex_val(spec_hex_digits(n)) == hex_val(Seq::<char>::empty()) * 16 + hex_digit_val(
            hex_digit_char(n),
        ));
    } else {
        lemma_hex_digits_val(n / 16);
        lemma_hex_digit_char(n % 16);
        assert(spec_hex_digits(n).drop_last() =~= spec_hex_digits(n / 16));
        assert(spec_hex_digits(n).last() == hex_digit_char(n % 16));
        assert(hex_val(spec_hex_digits(n)) == hex_val(spec_hex_digits(n / 16)) * 16
            + hex_digit_val(hex_digit_char(n % 16)));
        assert(n == (n / 16) * 16 + n % 16);
    }
}

/// The single-character string for a lowercase hexadecimal digit.
pub fn hex_digit_str(d: u16) -> (r: &'static str)
    requires
        d < 16,
    ensures
        r@ =~= seq![hex_digit_char(d as nat)],
{
    proof {
        reveal_strlit("a");
        reveal_strlit("b");
        reveal_strlit("c");
        reveal_strlit("d");
        reveal_strlit("e");
        reveal_strlit("f");
    }
    if d < 10 {
        dec_digit_str(d as u64)
    } else if d == 10 { "a" }
    else if d == 11 { "b" }
    else if d == 12 { "c" }
    else if d == 13 { "d" }
    else if d == 14 { "e" }
    else { "f" }
}

/// Appends the lowercase hexadecimal numeral of `n` to `out`.
pub fn push_hex_u16(n: u16, out: &mut String)
    ensures
        final(out)@ == old(out)@ + spec_hex_digits(n as nat),
    decreases n,
{
    if n >= 16 {
        push_hex_u16(n / 16, out);
        out.append(hex_digit_str(n % 16));
        assert(out@ =~= old(out)@ + spec_hex_digits(n as nat));
    } else {
        out.append(hex_digit_str(n));
        assert(out@ =~= old(out)@ + spec_hex_digits(n as nat));
    }
}

/// Extending a hex digit string on the right never shrinks its value.
pub proof fn lemma_hex_val_extend(s: Seq<char>, i: int, j: int)
    requires
        0 <= i <= j <= s.len(),
    ensures
        hex_val(s.subrange(0, i)) <= hex_val(s.subrange(0, j)),
    decreases j - i,
{
    if i < j {
        lemma_hex_val_extend(s, i, j - 1);
        assert(s.subrange(0, j).drop_last() =~= s.subrange(0, j - 1));
        assert(hex_val(s.subrange(0, j)) == hex_val(s.subrange(0, j - 1)) * 16 + hex_digit_val(
            s.subrange(0, j).last(),
        ));
    }
}

/// Parses a hexadecimal numeral as a `u16`; `None` exactly when the text
/// is not a hex numeral or its value does not fit.
pub fn parse_hex_u16(s: &str) -> (r: Option<u16>)
    ensures
        match r {
            Some(v) => hex_parse_ok(s@, u16::MAX as nat) && v as nat == hex_val(s@),
            None => !hex_parse_ok(s@, u16::MAX as nat),
        },
{
    let len = s.unicode_len();
    if len == 0 {
        return None;
    }
    let mut acc: u32 = 0;
    let mut i: usize = 0;
    while i < len
        invariant
            0 < len == s@.len(),
            0 <= i <= len,
            all_hex_digits(s@.subrange(0, i as int)),
            acc as nat == hex_val(s@.subrange(0, i as int)),
            acc <= 0xffff,
        decreases len - i,
    {
        let c = s.get_char(i);
        let cp = c as u32;
        let d: u32 = if 48 <= cp && cp <= 57 {
            cp - 48
        } else if 97 <= cp && cp <= 102 {
            cp - 97 + 10
        } else if 65 <= cp && cp <= 70 {
            cp - 65 + 10
        } else {
            assert(!is_hex_digit(s@[i as int]));
            return None;
        };
        assert(d as nat == hex_digit_val(s@[i as int]));
        proof {
            assert(s@.subrange(0, i + 1).drop_last() =~= s@.subrange(0, i as int));
            assert(s@.subrange(0, i + 1).last() == s@[i as int]);
        }
        if acc > (0xffffu32 - d) / 16 {
            proof {
                let m = (0xffff - d) as nat;
                assert(m == (m / 16) * 16 + m % 16);
                assert(acc as nat * 16 >= (m / 16 + 1) * 16);
                assert(hex_val(s@.subrange(0, i + 1)) == acc as nat * 16 + d);
                assert(hex_val(s@.subrange(0, i + 1)) > 0xffff);
                lemma_hex_val_extend(s@, i + 1, len as int);
                assert(s@.subrange(0, len as int) =~= s@);
            }
            return None;
        }
        proof {
            let m = (0xffff - d) as nat;
            assert(m == (m / 16) * 16 + m % 16);
            assert(acc as nat * 16 <= (m / 16) * 16);
        }
        acc = acc * 16 + d;
        i += 1;
        assert(all_hex_digits(s@.subrange(0, i as int)));
    }
    proof {
        assert(s@.subrange(0, len as int) =~= s@);
    }
    Some(acc as u16)
}

} // verus!
