//! Verified text-building helpers: appending single characters, decimal
//! rendering, and hexadecimal rendering.

use vstd::prelude::*;

verus! {

/// Relies on std's String::push: appends exactly the given character.
#[verifier::external_body]
pub fn string_push(s: &mut String, c: char)
    ensures
        final(s)@ == old(s)@ + seq![c],
{
    s.push(c);
}

/// The decimal digit character for a value below ten.
pub open spec fn spec_dec_digit(d: int) -> char {
    if d == 0 {
        '0'
    } else if d == 1 {
        '1'
    } else if d == 2 {
        '2'
    } else if d == 3 {
        '3'
    } else if d == 4 {
        '4'
    } else if d == 5 {
        '5'
    } else if d == 6 {
        '6'
    } else if d == 7 {
        '7'
    } else if d == 8 {
        '8'
    } else {
        '9'
    }
}

/// The decimal digit character for a value below ten.
fn dec_digit(d: u8) -> (c: char)
    requires
        d < 10,
    ensures
        c == spec_dec_digit(d as int),
{
    if d == 0 {
        '0'
    } else if d == 1 {
        '1'
    } else if d == 2 {
        '2'
    } else if d == 3 {
        '3'
    } else if d == 4 {
        '4'
    } else if d == 5 {
        '5'
    } else if d == 6 {
        '6'
    } else if d == 7 {
        '7'
    } else if d == 8 {
        '8'
    } else {
        '9'
    }
}

/// The decimal rendering of a non-negative integer, most significant digit
/// first, without padding.
pub open spec fn spec_decimal(n: int) -> Seq<char>
    decreases n,
{
    if n < 0 {
        seq![]
    } else if n < 10 {
        seq![spec_dec_digit(n)]
    } else {
        spec_decimal(n / 10).push(spec_dec_digit(n % 10))
    }
}

/// The length of a decimal rendering grows with the magnitude of the number.
pub proof fn lemma_decimal_len(n: int)
    requires
        0 <= n,
    ensures
        n < 10 ==> spec_decimal(n).len() == 1,
        10 <= n < 100 ==> spec_decimal(n).len() == 2,
        100 <= n < 1000 ==> spec_decimal(n).len() == 3,
        1000 <= n < 10000 ==> spec_decimal(n).len() == 4,
        10000 <= n ==> spec_decimal(n).len() >= 5,
    decreases n,
{
    if n >= 10 {
        lemma_decimal_len(n / 10);
    }
}

/// Appends the decimal rendering of `n`.
pub fn push_decimal(out: &mut String, n: u64)
    ensures
        final(out)@ == old(out)@ + spec_decimal(n as int),
    decreases n,
{
    if n >= 10 {
        push_decimal(out, n / 10);
    }
    let digit = dec_digit((n % 10) as u8);
    string_push(out, digit);
    proof {
        assert(out@ =~= old(out)@ + spec_decimal(n as int));
    }
}

/// A run of `k` zero characters.
pub open spec fn spec_zeros(k: int) -> Seq<char>
    decreases k,
{
    if k <= 0 {
        seq![]
    } else {
        seq!['0'] + spec_zeros(k - 1)
    }
}

/// The decimal rendering of `n`, zero-padded on the left to at least five
/// digits.
pub open spec fn spec_decimal_padded5(n: int) -> Seq<char> {
    spec_zeros(5 - spec_decimal(n).len()) + spec_decimal(n)
}

/// Appends the decimal rendering of `n`, zero-padded to at least five digits.
pub fn push_decimal_padded5(out: &mut String, n: u64)
    ensures
        final(out)@ == old(out)@ + spec_decimal_padded5(n as int),
{
    proof {
        lemma_decimal_len(n as int);
    }
    if n < 10 {
        out.append("0000");
    } else if n < 100 {
        out.append("000");
    } else if n < 1000 {
        out.append("00");
    } else if n < 10000 {
        out.append("0");
    }
    proof {
        reveal_with_fuel(spec_zeros, 6);
        reveal_strlit("0000");
        reveal_strlit("000");
        reveal_strlit("00");
        reveal_strlit("0");
        assert("0000"@ =~= spec_zeros(4));
        assert("000"@ =~= spec_zeros(3));
        assert("00"@ =~= spec_zeros(2));
        assert("0"@ =~= spec_zeros(1));
    }
    push_decimal(out, n);
    proof {
        assert(spec_zeros(0) =~= Seq::<char>::empty());
        assert(out@ =~= old(out)@ + spec_decimal_padded5(n as int));
    }
}

/// The upper-case hexadecimal digit for a value below sixteen.
pub open spec fn spec_hex_digit(d: int) -> char {
    if d == 0 {
        '0'
    } else if d == 1 {
        '1'
    } else if d == 2 {
        '2'
    } else if d == 3 {
        '3'
    } else if d == 4 {
        '4'
    } else if d == 5 {
        '5'
    } else if d == 6 {
        '6'
    } else if d == 7 {
        '7'
    } else if d == 8 {
        '8'
    } else if d == 9 {
        '9'
    } else if d == 10 {
        'A'
    } else if d == 11 {
        'B'
    } else if d == 12 {
        'C'
    } else if d == 13 {
        'D'
    } else if d == 14 {
        'E'
    } else {
        'F'
    }
}

/// The value of a hexadecimal digit character (either case), or -1 for any
/// other character.
pub open spec fn spec_hex_digit_val(c: char) -> int {
    let u = c as u32;
    if 48 <= u && u <= 57 {
        u - 48
    } else if 65 <= u && u <= 70 {
        u - 55
    } else if 97 <= u && u <= 102 {
        u - 87
    } else {
        -1
    }
}

/// Reading back an upper-case hexadecimal digit yields its value.
pub proof fn lemma_hex_digit_val(d: int)
    requires
        0 <= d < 16,
    ensures
        spec_hex_digit_val(spec_hex_digit(d)) == d,
{
}

/// The upper-case hexadecimal digit for a value below sixteen.
pub fn hex_digit(d: u8) -> (c: char)
    requires
        d < 16,
    ensures
        c == spec_hex_digit(d as int),
{
    if d == 0 {
        '0'
    } else if d == 1 {
        '1'
    } else if d == 2 {
        '2'
    } else if d == 3 {
        '3'
    } else if d == 4 {
        '4'
    } else if d == 5 {
        '5'
    } else if d == 6 {
        '6'
    } else if d == 7 {
        '7'
    } else if d == 8 {
        '8'
    } else if d == 9 {
        '9'
    } else if d == 10 {
        'A'
    } else if d == 11 {
        'B'
    } else if d == 12 {
        'C'
    } else if d == 13 {
        'D'
    } else if d == 14 {
        'E'
    } else {
        'F'
    }
}

/// The two upper-case hexadecimal digits of one byte.
pub open spec fn spec_hex_byte(b: u8) -> Seq<char> {
    seq![spec_hex_digit((b >> 4) as int), spec_hex_digit((b & 0x0f) as int)]
}

/// Appends the two upper-case hexadecimal digits of `b`.
pub fn push_hex_byte(out: &mut String, b: u8)
    ensures
        final(out)@ == old(out)@ + spec_hex_byte(b),
{
    proof {
        assert(0 <= (b >> 4) < 16 && 0 <= (b & 0x0f) < 16) by (bit_vector);
    }
    let hi = hex_digit(b >> 4);
    let lo = hex_digit(b & 0x0f);
    string_push(out, hi);
    string_push(out, lo);
    proof {
        assert(out@ =~= old(out)@ + spec_hex_byte(b));
    }
}

/// The value of one decimal digit character, or -1 for any other character.
pub open spec fn spec_digit_val(c: char) -> int {
    let u = c as u32;
    if 48 <= u && u <= 57 {
        u - 48
    } else {
        -1
    }
}

/// Whether every character of `s` is a decimal digit.
pub open spec fn spec_all_digits(s: Seq<char>) -> bool {
    forall|i: int| 0 <= i < s.len() ==> spec_digit_val(#[trigger] s[i]) >= 0
}

/// The number denoted by a digit sequence, most significant digit first.
pub open spec fn spec_digits_val(s: Seq<char>) -> int
    decreases s.len(),
{
    if s.len() == 0 {
        0
    } else {
        10 * spec_digits_val(s.drop_last()) + spec_digit_val(s.last())
    }
}

/// Ten to the power of `k`.
pub open spec fn spec_pow10(k: nat) -> int
    decreases k,
{
    if k == 0 {
        1
    } else {
        10 * spec_pow10((k - 1) as nat)
    }
}

/// Ten to any power is positive.
pub proof fn lemma_pow10_positive(k: nat)
    ensures
        spec_pow10(k) >= 1,
    decreases k,
{
    if k > 0 {
        lemma_pow10_positive((k - 1) as nat);
    }
}

/// Ten to the power grows with the exponent.
pub proof fn lemma_pow10_increases(a: nat, b: nat)
    requires
        a <= b,
    ensures
        spec_pow10(a) <= spec_pow10(b),
    decreases b,
{
    if a < b {
        lemma_pow10_increases(a, (b - 1) as nat);
        lemma_pow10_positive((b - 1) as nat);
    }
}

/// A digit sequence denotes a number below ten to its length.
pub proof fn lemma_digits_val_bound(s: Seq<char>)
    requires
        spec_all_digits(s),
    ensures
        0 <= spec_digits_val(s) < spec_pow10(s.len()),
    decreases s.len(),
{
    if s.len() > 0 {
        assert(spec_all_digits(s.drop_last()));
        lemma_digits_val_bound(s.drop_last());
        assert(spec_digit_val(s.last()) <= 9);
    }
}

/// Reading back a decimal digit yields its value.
pub proof fn lemma_dec_digit_val(d: int)
    requires
        0 <= d < 10,
    ensures
        spec_digit_val(spec_dec_digit(d)) == d,
{
}

/// The decimal rendering of a non-negative integer denotes the number itself
/// and consists of digits only.
pub proof fn lemma_decimal_value(n: int)
    requires
        0 <= n,
    ensures
        spec_all_digits(spec_decimal(n)),
        spec_digits_val(spec_decimal(n)) == n,
    decreases n,
{
    if n < 10 {
        lemma_dec_digit_val(n);
        let s = spec_decimal(n);
        assert(s.drop_last() =~= Seq::<char>::empty());
        assert(s.last() == spec_dec_digit(n));
        assert(spec_digits_val(Seq::<char>::empty()) == 0);
        assert(spec_digits_val(s) == 10 * 0 + spec_digit_val(spec_dec_digit(n)));
    } else {
        lemma_decimal_value(n / 10);
        lemma_dec_digit_val(n % 10);
        let s = spec_decimal(n);
        let p = spec_decimal(n / 10);
        assert(s.drop_last() =~= p);
        assert(s.last() == spec_dec_digit(n % 10));
        assert(spec_digits_val(s) == 10 * (n / 10) + n % 10);
        assert forall|i: int| 0 <= i < s.len() implies spec_digit_val(s[i]) >= 0 by {
            if i < p.len() {
                assert(s[i] == p[i]);
            } else {
                assert(s[i] == s.last());
            }
        }
    }
}

/// A run of zeros holds only the zero digit.
pub proof fn lemma_zeros_shape(k: int)
    ensures
        spec_zeros(k).len() == (if k <= 0 {
            0int
        } else {
            k
        }),
        forall|i: int| 0 <= i < spec_zeros(k).len() ==> #[trigger] spec_zeros(k)[i] == '0',
    decreases k,
{
    if k > 0 {
        lemma_zeros_shape(k - 1);
        assert forall|i: int| 0 <= i < spec_zeros(k).len() implies spec_zeros(k)[i] == '0' by {
            if i > 0 {
                assert(spec_zeros(k)[i] == spec_zeros(k - 1)[i - 1]);
            }
        }
    }
}

/// Leading zeros do not change the number a digit sequence denotes.
pub proof fn lemma_leading_zeros_value(k: int, s: Seq<char>)
    ensures
        spec_digits_val(spec_zeros(k) + s) == spec_digits_val(s),
    decreases s.len(),
{
    lemma_zeros_shape(k);
    if s.len() == 0 {
        assert(spec_zeros(k) + s =~= spec_zeros(k));
        lemma_zeros_val(k);
    } else {
        assert((spec_zeros(k) + s).drop_last() =~= spec_zeros(k) + s.drop_last());
        assert((spec_zeros(k) + s).last() == s.last());
        lemma_leading_zeros_value(k, s.drop_last());
    }
}

/// A run of zeros denotes zero.
proof fn lemma_zeros_val(k: int)
    ensures
        spec_digits_val(spec_zeros(k)) == 0,
    decreases k,
{
    lemma_zeros_shape(k);
    if k > 0 {
        lemma_zeros_val(k - 1);
        lemma_zeros_shape(k - 1);
        assert(spec_zeros(k).drop_last() =~= spec_zeros(k - 1));
        assert(spec_zeros(k).last() == '0');
    }
}

/// The padded decimal rendering still denotes the number itself.
pub proof fn lemma_padded5_value(n: int)
    requires
        0 <= n,
    ensures
        spec_digits_val(spec_decimal_padded5(n)) == n,
    decreases n,
{
    lemma_decimal_value(n);
    lemma_leading_zeros_value(5 - spec_decimal(n).len(), spec_decimal(n));
}

/// Whether two strings hold the same characters.
pub fn str_eq(a: &str, b: &str) -> (r: bool)
    ensures
        r == (a@ == b@),
{
    let alen = a.unicode_len();
    let blen = b.unicode_len();
    if alen != blen {
        return false;
    }
    let mut i: usize = 0;
    while i < alen
        invariant
            i <= alen,
            alen == a@.len() == b@.len(),
            forall|j: int| 0 <= j < i ==> a@[j] == b@[j],
        decreases alen - i,
    {
        if a.get_char(i) != b.get_char(i) {
            return false;
        }
        i = i + 1;
    }
    proof {
        assert(a@ =~= b@);
    }
    true
}

/// Whether `p` is a prefix of `s`.
pub open spec fn spec_starts_with(s: Seq<char>, p: Seq<char>) -> bool {
    p.len() <= s.len() && s.subrange(0, p.len() as int) == p
}

/// Whether `p` is a suffix of `s`.
pub open spec fn spec_ends_with(s: Seq<char>, p: Seq<char>) -> bool {
    p.len() <= s.len() && s.subrange(s.len() - p.len(), s.len() as int) == p
}

/// Whether the string `s` begins with the characters of `p`.
pub fn str_starts_with(s: &str, p: &str) -> (r: bool)
    ensures
        r == spec_starts_with(s@, p@),
{
    let slen = s.unicode_len();
    let plen = p.unicode_len();
    if plen > slen {
        return false;
    }
    let mut i: usize = 0;
    while i < plen
        invariant
            i <= plen <= slen,
            slen == s@.len(),
            plen == p@.len(),
            forall|j: int| 0 <= j < i ==> s@[j] == p@[j],
        decreases plen - i,
    {
        if s.get_char(i) != p.get_char(i) {
            proof {
                assert(s@.subrange(0, p@.len() as int)[i as int] == s@[i as int]);
            }
            return false;
        }
        i = i + 1;
    }
    proof {
        assert(s@.subrange(0, p@.len() as int) =~= p@);
    }
    true
}

/// Whether the string `s` ends with the characters of `p`.
pub fn str_ends_with(s: &str, p: &str) -> (r: bool)
    ensures
        r == spec_ends_with(s@, p@),
{
    let slen = s.unicode_len();
    let plen = p.unicode_len();
    if plen > slen {
        return false;
    }
    let off = slen - plen;
    let mut i: usize = 0;
    while i < plen
        invariant
            i <= plen <= slen,
            slen == s@.len(),
            plen == p@.len(),
            off == slen - plen,
            forall|j: int| 0 <= j < i ==> s@[off + j] == p@[j],
        decreases plen - i,
    {
        if s.get_char(off + i) != p.get_char(i) {
            proof {
                assert(s@.subrange(s@.len() - p@.len(), s@.len() as int)[i as int] == s@[off
                    + i as int]);
            }
            return false;
        }
        i = i + 1;
    }
    proof {
        assert(s@.subrange(s@.len() - p@.len(), s@.len() as int) =~= p@);
    }
    true
}

/// Strict lexicographic order on character sequences, by code point; on the
/// characters of valid UTF-8 this coincides with byte-wise order of the
/// encoded strings.
pub open spec fn spec_str_lt(a: Seq<char>, b: Seq<char>) -> bool
    decreases a.len(),
{
    if b.len() == 0 {
        false
    } else if a.len() == 0 {
        true
    } else if (a[0] as u32) < (b[0] as u32) {
        true
    } else if (b[0] as u32) < (a[0] as u32) {
        false
    } else {
        spec_str_lt(a.drop_first(), b.drop_first())
    }
}

/// Non-strict lexicographic order on character sequences.
pub open spec fn spec_str_le(a: Seq<char>, b: Seq<char>) -> bool {
    spec_str_lt(a, b) || a == b
}

/// Lexicographic order is total: two sequences are ordered one way, the other
/// way, or equal.
pub proof fn lemma_str_lt_total(a: Seq<char>, b: Seq<char>)
    ensures
        spec_str_lt(a, b) || spec_str_lt(b, a) || a == b,
    decreases a.len(),
{
    if a.len() == 0 && b.len() == 0 {
        assert(a =~= b);
    } else if a.len() > 0 && b.len() > 0 {
        if (a[0] as u32) == (b[0] as u32) {
            vstd::utf8::char_u32_cast(a[0], a[0] as u32);
            vstd::utf8::char_u32_cast(b[0], b[0] as u32);
            assert(a[0] == b[0]);
            lemma_str_lt_total(a.drop_first(), b.drop_first());
            if a.drop_first() == b.drop_first() {
                assert(a.drop_first().len() == b.drop_first().len());
                assert(a.len() == b.len());
                assert forall|k: int| 0 <= k < a.len() implies a[k] == b[k] by {
                    if k > 0 {
                        assert(a.drop_first()[k - 1] == a[k]);
                        assert(b.drop_first()[k - 1] == b[k]);
                    }
                }
                assert(a =~= b);
            }
        }
    }
}

/// Strict lexicographic order is transitive.
pub proof fn lemma_str_lt_trans(a: Seq<char>, b: Seq<char>, c: Seq<char>)
    requires
        spec_str_lt(a, b),
        spec_str_lt(b, c),
    ensures
        spec_str_lt(a, c),
    decreases a.len(),
{
    if a.len() > 0 && b.len() > 0 && c.len() > 0 {
        if (a[0] as u32) == (b[0] as u32) && (b[0] as u32) == (c[0] as u32) {
            lemma_str_lt_trans(a.drop_first(), b.drop_first(), c.drop_first());
        }
    }
}

/// Non-strict lexicographic order is transitive.
pub proof fn lemma_str_le_trans(a: Seq<char>, b: Seq<char>, c: Seq<char>)
    requires
        spec_str_le(a, b),
        spec_str_le(b, c),
    ensures
        spec_str_le(a, c),
{
    if spec_str_lt(a, b) && spec_str_lt(b, c) {
        lemma_str_lt_trans(a, b, c);
    }
}

/// Whether the string `a` comes strictly before `b` in lexicographic order.
pub fn str_lt(a: &str, b: &str) -> (r: bool)
    ensures
        r == spec_str_lt(a@, b@),
{
    let alen = a.unicode_len();
    let blen = b.unicode_len();
    let mut i: usize = 0;
    proof {
        assert(a@.skip(0) =~= a@);
        assert(b@.skip(0) =~= b@);
    }
    while i < alen && i < blen
        invariant
            i <= alen,
            i <= blen,
            alen == a@.len(),
            blen == b@.len(),
            spec_str_lt(a@, b@) == spec_str_lt(a@.skip(i as int), b@.skip(i as int)),
        decreases alen - i,
    {
        let ca = a.get_char(i);
        let cb = b.get_char(i);
        proof {
            assert(a@.skip(i as int)[0] == a@[i as int]);
            assert(b@.skip(i as int)[0] == b@[i as int]);
        }
        if (ca as u32) < (cb as u32) {
            return true;
        }
        if (cb as u32) < (ca as u32) {
            return false;
        }
        proof {
            assert(a@.skip(i as int).drop_first() =~= a@.skip(i + 1));
            assert(b@.skip(i as int).drop_first() =~= b@.skip(i + 1));
        }
        i = i + 1;
    }
    proof {
        if i == alen {
            assert(a@.skip(i as int) =~= Seq::<char>::empty());
        }
        if i == blen {
            assert(b@.skip(i as int) =~= Seq::<char>::empty());
        }
    }
    i == alen && i < blen
}

} // verus!
