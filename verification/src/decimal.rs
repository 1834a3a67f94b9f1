//! Decimal rendering of numbers into a caller's byte buffer.
use vstd::prelude::*;

verus! {

/// Declares the error of `core::str::from_utf8`; nothing looks inside it.
#[verifier::external_type_specification]
#[verifier::external_body]
pub struct ExUtf8Error(core::str::Utf8Error);

/// `core::str::from_utf8` succeeds exactly on valid UTF-8, and the string it
/// gives has the same bytes.
pub assume_specification[ core::str::from_utf8 ](v: &[u8]) -> (r: Result<&str, core::str::Utf8Error>)
    ensures
        r is Ok <==> vstd::utf8::valid_utf8(v@),
        r matches Ok(s) ==> vstd::utf8::encode_utf8(s@) == v@,
;

/// The character of a decimal digit.
pub open spec fn digit_char(d: nat) -> char {
    ('0' as nat + d) as char
}

/// A number in decimal digits, without leading zeros.
pub open spec fn decimal(n: nat) -> Seq<char>
    decreases n,
{
    if n < 10 {
        seq![digit_char(n)]
    } else {
        decimal(n / 10).push(digit_char(n % 10))
    }
}

/// The bytes of a text of ASCII characters.
pub open spec fn ascii_bytes(text: Seq<char>) -> Seq<u8> {
    Seq::new(text.len(), |i: int| text[i] as u8)
}

/// A buffer after `text` was written over its beginning.
pub open spec fn overwritten(buffer: Seq<u8>, text: Seq<char>) -> Seq<u8> {
    ascii_bytes(text) + buffer.skip(text.len() as int)
}

/// A buffer of `len` bytes has room for the digits of a number; one of ten
/// bytes has room for every number.
pub open spec fn fits(num: u32, len: int) -> bool {
    len >= 10 || len >= decimal(num as nat).len()
}

/// Reads a sequence of digit characters as a number.
pub open spec fn decimal_value(text: Seq<char>) -> int
    decreases text.len(),
{
    if text.len() == 0 {
        0
    } else {
        decimal_value(text.drop_last()) * 10 + (text.last() as int - '0' as int)
    }
}

/// A rendered number reads back as itself; so different numbers never look
/// the same.
pub proof fn law_decimal_reads_back(n: nat)
    ensures
        decimal_value(decimal(n)) == n,
    decreases n,
{
    if n < 10 {
        assert(decimal(n).drop_last() =~= Seq::<char>::empty());
        assert(decimal_value(decimal(n).drop_last()) == 0);
    } else {
        law_decimal_reads_back(n / 10);
        assert(decimal(n).drop_last() =~= decimal(n / 10));
    }
}

/// A rendered number has at least one character, all of them digits, and a
/// leading zero only if it is zero itself.
pub proof fn law_decimal_is_canonical(n: nat)
    ensures
        decimal(n).len() >= 1,
        forall|i: int| 0 <= i < decimal(n).len() ==> '0' <= #[trigger] decimal(n)[i] <= '9',
        decimal(n)[0] == '0' <==> n == 0,
    decreases n,
{
    if n >= 10 {
        law_decimal_is_canonical(n / 10);
    }
}

/// `k` digits hold a number exactly if it is below `10^k`.
pub proof fn law_decimal_length(n: nat, k: nat)
    requires
        k >= 1,
    ensures
        decimal(n).len() <= k <==> n < vstd::arithmetic::power::pow(10, k),
    decreases k,
{
    vstd::arithmetic::power::lemma_pow1(10);
    law_decimal_is_canonical(n);
    if k == 1 {
        if n >= 10 {
            law_decimal_is_canonical(n / 10);
        }
    } else {
        let k1 = (k - 1) as nat;
        let p = vstd::arithmetic::power::pow(10, k1);
        vstd::arithmetic::power::lemma_pow_adds(10, 1, k1);
        vstd::arithmetic::power::lemma_pow_positive(10, k1);
        assert(vstd::arithmetic::power::pow(10, k) == 10 * p);
        if n >= 10 {
            law_decimal_length(n / 10, k1);
        }
    }
}

/// Every 32-bit number has at most ten digits, so with a sign in front it
/// fits a buffer of twelve bytes.
pub proof fn law_u32_fits_twelve_bytes(n: u32)
    ensures
        1 <= decimal(n as nat).len() <= 10,
{
    law_decimal_is_canonical(n as nat);
    law_decimal_length(n as nat, 10);
    assert(vstd::arithmetic::power::pow(10, 10) == 10_000_000_000) by {
        reveal_with_fuel(vstd::arithmetic::power::pow, 11);
    }
}

proof fn lemma_decimal_ascii(n: nat)
    ensures
        vstd::utf8::is_ascii_chars(decimal(n)),
{
    law_decimal_is_canonical(n);
}

/// Counts the digits of a positive number.
fn count_digits(num: u32) -> (len: usize)
    requires
        num > 0,
    ensures
        len == decimal(num as nat).len(),
{
    let mut len: usize = 0;
    let mut temp: u32 = num;
    proof {
        law_u32_fits_twelve_bytes(num);
    }
    while temp > 0
        invariant
            decimal(num as nat).len() <= 10,
            temp > 0 ==> len + decimal(temp as nat).len() == decimal(num as nat).len(),
            temp == 0 ==> len == decimal(num as nat).len(),
        decreases temp,
    {
        proof {
            law_decimal_is_canonical(temp as nat);
        }
        len = len + 1;
        temp = temp / 10;
    }
    len
}

/// Writes a number in decimal into `buffer` from index `at` on.
fn write_decimal(num: u32, buffer: &mut [u8], at: usize) -> (len: usize)
    requires
        at + decimal(num as nat).len() <= old(buffer)@.len(),
    ensures
        len == decimal(num as nat).len(),
        final(buffer)@ == old(buffer)@.take(at as int) + ascii_bytes(decimal(num as nat))
            + old(buffer)@.skip(at + len),
{
    let ghost before = buffer@;
    let ghost text = decimal(num as nat);
    if num == 0 {
        buffer[at] = '0' as u8;
        assert(buffer@ =~= before.take(at as int) + ascii_bytes(text) + before.skip(at + 1));
        return 1;
    }
    let len: usize = count_digits(num);
    let mut n: u32 = num;
    let mut i: usize = 0;
    assert(before.len() == buffer.len());
    // Fill from right to left.
    while i < len
        invariant
            i <= len,
            len == text.len(),
            at + len <= before.len() <= usize::MAX,
            buffer@.len() == before.len(),
            text == decimal(num as nat),
            i < len ==> text.take(len - i) == decimal(n as nat),
            forall|j: int| 0 <= j < at + len - i ==> buffer@[j] == before[j],
            forall|j: int| len - i <= j < len ==> buffer@[at + j] == text[j] as u8,
            forall|j: int| at + len <= j < before.len() ==> buffer@[j] == before[j],
        decreases len - i,
    {
        let ghost shown = text.take(len - i);
        proof {
            law_decimal_is_canonical(n as nat);
            assert(text[len - i - 1] == shown.last());
            assert(shown.last() == digit_char((n % 10) as nat));
        }
        buffer[at + (len - 1 - i)] = (n % 10) as u8 + '0' as u8;
        assert(buffer@[at + (len - i - 1)] == text[len - i - 1] as u8);
        proof {
            if i + 1 < len {
                assert(n >= 10);
                assert(text.take(len - i - 1) =~= shown.drop_last());
                assert(decimal(n as nat).drop_last() =~= decimal((n / 10) as nat));
            }
        }
        n = n / 10;
        i = i + 1;
    }
    assert(buffer@ =~= before.take(at as int) + ascii_bytes(text) + before.skip(at + len)) by {
        assert forall|k: int| 0 <= k < before.len() implies buffer@[k] == (before.take(at as int)
            + ascii_bytes(text) + before.skip(at + len))[k] by {
            if at <= k < at + len {
                assert(buffer@[at + (k - at)] == text[k - at] as u8);
            }
        }
    }
    len
}

/// The bytes of an ASCII text as a string.
fn ascii_str<'a>(bytes: &'a [u8], Ghost(text): Ghost<Seq<char>>) -> (s: &'a str)
    requires
        vstd::utf8::is_ascii_chars(text),
        bytes@ == ascii_bytes(text),
    ensures
        s@ == text,
{
    proof {
        vstd::utf8::is_ascii_chars_encode_utf8(text);
        assert(vstd::utf8::encode_utf8(text) =~= bytes@);
        vstd::utf8::encode_utf8_valid_utf8(text);
    }
    let s = core::str::from_utf8(bytes).unwrap();
    proof {
        vstd::utf8::encode_utf8_decode_utf8(text);
        vstd::utf8::encode_utf8_decode_utf8(s@);
    }
    s
}

/// Renders a number in decimal.
pub fn format_num_to_str(num: u32, buffer: &mut [u8]) -> (s: &str)
    requires
        fits(num, old(buffer)@.len() as int),
    ensures
        s@ == decimal(num as nat),
        final(buffer)@ == overwritten(old(buffer)@, decimal(num as nat)),
{
    let ghost before = buffer@;
    let ghost text = decimal(num as nat);
    proof {
        law_u32_fits_twelve_bytes(num);
    }
    let len: usize = write_decimal(num, buffer, 0);
    proof {
        lemma_decimal_ascii(num as nat);
        assert(buffer@ =~= overwritten(before, text));
        assert(buffer@.subrange(0, len as int) =~= ascii_bytes(text));
    }
    ascii_str(&buffer[0..len], Ghost(text))
}

/// Renders a sign and then a number in decimal.
fn format_signed(sign: u8, num: u32, buffer: &mut [u8]) -> (s: &str)
    requires
        sign < 0x80,
        fits(num, old(buffer)@.len() - 1),
    ensures
        s@ == seq![sign as char] + decimal(num as nat),
        final(buffer)@ == overwritten(old(buffer)@, seq![sign as char] + decimal(num as nat)),
{
    let ghost before = buffer@;
    let ghost text = seq![sign as char] + decimal(num as nat);
    proof {
        law_u32_fits_twelve_bytes(num);
    }
    let len: usize = write_decimal(num, buffer, 1);
    buffer[0] = sign;
    proof {
        lemma_decimal_ascii(num as nat);
        assert(sign as char as u8 == sign);
        assert(buffer@ =~= overwritten(before, text));
        assert(buffer@.subrange(0, len + 1) =~= ascii_bytes(text));
    }
    ascii_str(&buffer[0..len + 1], Ghost(text))
}

/// Renders a number in decimal with a plus sign in front.
pub fn format_num_with_plus_to_str(num: u32, buffer: &mut [u8]) -> (s: &str)
    requires
        fits(num, old(buffer)@.len() - 1),
    ensures
        s@ == seq!['+'] + decimal(num as nat),
        final(buffer)@ == overwritten(old(buffer)@, seq!['+'] + decimal(num as nat)),
{
    format_signed('+' as u8, num, buffer)
}

/// Renders a number in decimal with a minus sign in front, zero included.
pub fn format_num_with_minus_to_str(num: u32, buffer: &mut [u8]) -> (s: &str)
    requires
        fits(num, old(buffer)@.len() - 1),
    ensures
        s@ == seq!['-'] + decimal(num as nat),
        final(buffer)@ == overwritten(old(buffer)@, seq!['-'] + decimal(num as nat)),
{
    format_signed('-' as u8, num, buffer)
}

/// The digit with place value `10^i` is the number divided by that value, less
/// all higher places.
pub proof fn law_digit_by_place(n: nat, i: nat)
    requires
        i < decimal(n).len(),
    ensures
        decimal(n)[decimal(n).len() - 1 - i] as int == 48 + (n as int
            / vstd::arithmetic::power::pow(10, i)) % 10,
    decreases i,
{
    vstd::arithmetic::power::lemma_pow0(10);
    if i > 0 {
        let j = (i - 1) as nat;
        let p = vstd::arithmetic::power::pow(10, j);
        assert(n >= 10);
        law_digit_by_place(n / 10, j);
        vstd::arithmetic::power::lemma_pow_positive(10, j);
        vstd::arithmetic::power::lemma_pow1(10);
        vstd::arithmetic::power::lemma_pow_adds(10, 1, j);
        assert(vstd::arithmetic::power::pow(10, i) == 10 * p);
        vstd::arithmetic::div_mod::lemma_div_denominator(n as int, 10, p);
        assert(decimal(n)[decimal(n).len() - 1 - i] == decimal(n / 10)[decimal(n / 10).len() - 1
            - j]);
    }
}

/// Writing a text over the beginning of a buffer puts one byte per character
/// there and leaves the length and the rest of the buffer as they were.
pub proof fn law_overwriting_keeps_the_rest(buffer: Seq<u8>, text: Seq<char>, i: int)
    requires
        text.len() <= buffer.len(),
        0 <= i < buffer.len(),
    ensures
        overwritten(buffer, text).len() == buffer.len(),
        i < text.len() ==> overwritten(buffer, text)[i] == text[i] as u8,
        i >= text.len() ==> overwritten(buffer, text)[i] == buffer[i],
{
}

/// A buffer has room for a number exactly if it is as long as its digits.
pub proof fn law_fits_by_length(num: u32, len: int)
    ensures
        fits(num, len) <==> decimal(num as nat).len() <= len,
{
    law_u32_fits_twelve_bytes(num);
}

} // verus!
