//! Small text-building blocks shared by the identifier and writer modules:
//! appending characters, rendering integers in a radix, and the byte order
//! on strings.

use vstd::prelude::*;
use vstd::utf8::encode_utf8;

verus! {

/// The lowercase digit character for a digit value below sixteen.
pub open spec fn digit_char(d: nat) -> char {
    if d < 10 {
        ((d + 48) as u32) as char
    } else {
        ((d + 87) as u32) as char
    }
}

/// The digits of `n` in base `radix`, most significant first, without
/// leading zeros (zero is the single digit `0`).
pub open spec fn radix_digits(n: nat, radix: nat) -> Seq<char>
    recommends
        2 <= radix <= 16,
    decreases n,
{
    if radix < 2 || n < radix {
        seq![digit_char(n)]
    } else {
        proof {
            assert(n / radix < n) by (nonlinear_arith)
                requires
                    radix >= 2,
                    n >= radix,
            ;
        }
        radix_digits(n / radix, radix).push(digit_char(n % radix))
    }
}

/// Decimal text of a signed integer: a `-` in front of negative values.
pub open spec fn decimal_text(n: int) -> Seq<char> {
    if n < 0 {
        seq!['-'] + radix_digits((-n) as nat, 10)
    } else {
        radix_digits(n as nat, 10)
    }
}

/// Lowercase hexadecimal text of a natural number, without leading zeros.
pub open spec fn hex_text(n: nat) -> Seq<char> {
    radix_digits(n, 16)
}

/// The value of a digit character, `0`-`9` then `a`-`f`.
pub open spec fn digit_value(c: char) -> int {
    if '0' <= c && c <= '9' {
        c as int - 48
    } else {
        c as int - 87
    }
}

/// The number a sequence of digits denotes in base `radix`.
pub open spec fn digits_value(s: Seq<char>, radix: nat) -> int
    decreases s.len(),
{
    if s.len() == 0 {
        0
    } else {
        digits_value(s.drop_last(), radix) * radix + digit_value(s.last())
    }
}

/// The digits of `n` denote `n`, are all digit characters of the radix, and
/// start with a non-zero digit unless `n` is zero: the rendering is the
/// canonical one.
pub proof fn lemma_radix_digits_value(n: nat, radix: nat)
    requires
        2 <= radix <= 16,
    ensures
        digits_value(radix_digits(n, radix), radix) == n,
        radix_digits(n, radix).len() >= 1,
        forall|i: int|
            0 <= i < radix_digits(n, radix).len() ==> 0 <= #[trigger] digit_value(
                radix_digits(n, radix)[i],
            ) < radix,
        n > 0 ==> radix_digits(n, radix)[0] != '0',
    decreases n,
{
    if n < radix {
        assert(digit_value(digit_char(n)) == n);
        let s = radix_digits(n, radix);
        assert(s.drop_last() =~= Seq::<char>::empty());
        assert(digits_value(s.drop_last(), radix) == 0);
        assert(0 * radix == 0) by (nonlinear_arith);
        assert(digits_value(s, radix) == 0 * radix + digit_value(s.last()));
    } else {
        let q = n / radix;
        let r = n % radix;
        assert(0 <= r < radix && q * radix + r == n && 0 < q < n) by (nonlinear_arith)
            requires
                radix >= 2,
                n >= radix,
                q == n / radix,
                r == n % radix,
        ;
        lemma_radix_digits_value(q, radix);
        let s = radix_digits(n, radix);
        assert(s.drop_last() =~= radix_digits(q, radix));
        assert(digit_value(digit_char(r)) == r);
        assert(s[0] == radix_digits(q, radix)[0]);
        assert(s.last() == digit_char(r));
        assert(digits_value(s, radix) == q * radix + r);
    }
}

/// The decimal text of an integer: for `n >= 0` only the digits `0`-`9`,
/// no sign, denoting `n`, with no leading zero; for `n < 0` a `-` followed by
/// such digits denoting `-n`.
pub proof fn lemma_decimal_text(n: int)
    ensures
        n >= 0 ==> {
            &&& decimal_text(n).len() >= 1
            &&& forall|i: int|
                0 <= i < decimal_text(n).len() ==> '0' <= #[trigger] decimal_text(n)[i] <= '9'
            &&& digits_value(decimal_text(n), 10) == n
            &&& (n > 0 ==> decimal_text(n)[0] != '0')
        },
        n < 0 ==> {
            &&& decimal_text(n).len() >= 2
            &&& decimal_text(n)[0] == '-'
            &&& forall|i: int|
                1 <= i < decimal_text(n).len() ==> '0' <= #[trigger] decimal_text(n)[i] <= '9'
            &&& digits_value(decimal_text(n).drop_first(), 10) == -n
            &&& decimal_text(n)[1] != '0'
        },
{
    let m: nat = if n < 0 {
        (-n) as nat
    } else {
        n as nat
    };
    lemma_radix_digits_value(m, 10);
    lemma_decimal_digits_are_digits(m);
    if n < 0 {
        let t = decimal_text(n);
        assert(t.drop_first() =~= radix_digits(m, 10));
        assert forall|i: int| 1 <= i < t.len() implies '0' <= #[trigger] t[i] <= '9' by {
            assert(t[i] == radix_digits(m, 10)[i - 1]);
        }
    }
}

/// The base-ten digits of a number are all characters `0`-`9`.
proof fn lemma_decimal_digits_are_digits(n: nat)
    ensures
        forall|i: int|
            0 <= i < radix_digits(n, 10).len() ==> '0' <= #[trigger] radix_digits(n, 10)[i] <= '9',
    decreases n,
{
    if n >= 10 {
        let q = n / 10;
        let r = n % 10;
        assert(r < 10 && q < n);
        lemma_decimal_digits_are_digits(q);
        let s = radix_digits(n, 10);
        assert(s == radix_digits(q, 10).push(digit_char(r)));
        assert forall|i: int| 0 <= i < s.len() implies '0' <= #[trigger] s[i] <= '9' by {
            if i < s.len() - 1 {
                assert(s[i] == radix_digits(q, 10)[i]);
            } else {
                assert(s[i] == digit_char(r));
            }
        }
    } else {
        assert(radix_digits(n, 10) == seq![digit_char(n)]);
    }
}

/// Appends one character to a string.
/// Wraps `String::push`, which appends the character at the end of the string.
#[verifier::external_body]
pub fn push_char(s: &mut String, c: char)
    ensures
        final(s)@ == old(s)@.push(c),
{
    s.push(c);
}

/// A new, empty string with room reserved for `capacity` bytes.
/// Wraps `String::with_capacity`, which makes an empty string; the capacity
/// affects allocation only.
#[verifier::external_body]
pub fn string_with_capacity(capacity: usize) -> (s: String)
    ensures
        s@ == Seq::<char>::empty(),
{
    String::with_capacity(capacity)
}

/// Appends the digits of `n` in base `radix` to `out`.
pub fn push_radix(out: &mut String, n: u64, radix: u64)
    requires
        2 <= radix <= 16,
    ensures
        final(out)@ == old(out)@ + radix_digits(n as nat, radix as nat),
{
    // Collect digits least significant first, then emit them in reverse.
    let mut digits: Vec<char> = Vec::new();
    let mut rest: u64 = n;
    loop
        invariant_except_break
            2 <= radix <= 16,
            radix_digits(n as nat, radix as nat) =~= radix_digits(rest as nat, radix as nat)
                + digits@.reverse(),
        ensures
            radix_digits(n as nat, radix as nat) =~= digits@.reverse(),
        decreases rest,
    {
        let d: u64 = rest % radix;
        let c: char = if d < 10 {
            ((d + 48) as u8) as char
        } else {
            ((d + 87) as u8) as char
        };
        assert(c == digit_char(d as nat));
        let ghost before = digits@;
        digits.push(c);
        assert(digits@.reverse() =~= seq![c] + before.reverse());
        if rest < radix {
            assert(d == rest) by (nonlinear_arith)
                requires
                    d == rest % radix,
                    rest < radix,
            ;
            break;
        }
        assert(radix_digits(rest as nat, radix as nat) == radix_digits(
            (rest / radix) as nat,
            radix as nat,
        ).push(c));
        rest = rest / radix;
    }
    let ghost start = out@;
    let mut i: usize = digits.len();
    while i > 0
        invariant
            i <= digits.len(),
            out@ =~= start + digits@.reverse().take(digits.len() - i),
        decreases i,
    {
        i = i - 1;
        push_char(out, digits[i]);
    }
}

/// The characters of a string, in order.
pub fn chars_of(s: &str) -> (v: Vec<char>)
    ensures
        v@ == s@,
{
    broadcast use vstd::string::group_string_axioms;

    let mut v: Vec<char> = Vec::new();
    for c in it: s.chars()
        invariant
            it.seq() == s@,
            v@ == it.seq().take(it.index()),
    {
        v.push(c);
    }
    v
}

/// Lexicographic order on byte sequences: the first differing byte
/// decides, and a proper prefix comes first.
pub open spec fn bytes_lt(a: Seq<u8>, b: Seq<u8>) -> bool
    decreases a.len(),
{
    if a.len() == 0 {
        b.len() > 0
    } else if b.len() == 0 {
        false
    } else if a[0] != b[0] {
        a[0] < b[0]
    } else {
        bytes_lt(a.drop_first(), b.drop_first())
    }
}

/// The order of Rust's `str`: the byte order of the UTF-8 encodings.
pub open spec fn str_lt(a: Seq<char>, b: Seq<char>) -> bool {
    bytes_lt(encode_utf8(a), encode_utf8(b))
}

/// No byte sequence comes before itself.
pub proof fn lemma_bytes_lt_irreflexive(a: Seq<u8>)
    ensures
        !bytes_lt(a, a),
    decreases a.len(),
{
    if a.len() > 0 {
        lemma_bytes_lt_irreflexive(a.drop_first());
    }
}

/// The byte order is transitive.
pub proof fn lemma_bytes_lt_transitive(a: Seq<u8>, b: Seq<u8>, c: Seq<u8>)
    requires
        bytes_lt(a, b),
        bytes_lt(b, c),
    ensures
        bytes_lt(a, c),
    decreases a.len(),
{
    if a.len() > 0 && b.len() > 0 && c.len() > 0 && a[0] == b[0] && b[0] == c[0] {
        lemma_bytes_lt_transitive(a.drop_first(), b.drop_first(), c.drop_first());
    }
}

/// Two different byte sequences are ordered one way or the other.
pub proof fn lemma_bytes_lt_total(a: Seq<u8>, b: Seq<u8>)
    requires
        a != b,
    ensures
        bytes_lt(a, b) || bytes_lt(b, a),
    decreases a.len(),
{
    if a.len() > 0 && b.len() > 0 && a[0] == b[0] {
        if a.drop_first() == b.drop_first() {
            assert(a =~= seq![a[0]] + a.drop_first());
            assert(b =~= seq![b[0]] + b.drop_first());
        }
        lemma_bytes_lt_total(a.drop_first(), b.drop_first());
    } else if a.len() == 0 && b.len() == 0 {
        assert(a =~= b);
    }
}

/// The order on strings is a strict total order.
pub proof fn lemma_str_lt_strict_total(a: Seq<char>, b: Seq<char>, c: Seq<char>)
    ensures
        !str_lt(a, a),
        str_lt(a, b) && str_lt(b, c) ==> str_lt(a, c),
        a != b ==> str_lt(a, b) || str_lt(b, a),
{
    lemma_bytes_lt_irreflexive(encode_utf8(a));
    if str_lt(a, b) && str_lt(b, c) {
        lemma_bytes_lt_transitive(encode_utf8(a), encode_utf8(b), encode_utf8(c));
    }
    if a != b {
        vstd::utf8::encode_utf8_decode_utf8(a);
        vstd::utf8::encode_utf8_decode_utf8(b);
        lemma_bytes_lt_total(encode_utf8(a), encode_utf8(b));
    }
}

/// Whether `a` comes before `b` in the order of Rust's `str`.
pub fn str_less(a: &str, b: &str) -> (less: bool)
    ensures
        less == str_lt(a@, b@),
{
    let x = a.as_bytes();
    let y = b.as_bytes();
    let mut i: usize = 0;
    assert(x@.skip(0) =~= x@);
    assert(y@.skip(0) =~= y@);
    while i < x.len() && i < y.len()
        invariant
            x@ == encode_utf8(a@),
            y@ == encode_utf8(b@),
            i <= x@.len(),
            i <= y@.len(),
            bytes_lt(x@, y@) == bytes_lt(x@.skip(i as int), y@.skip(i as int)),
        decreases x@.len() - i,
    {
        if x[i] != y[i] {
            return x[i] < y[i];
        }
        assert(x@.skip(i as int).drop_first() =~= x@.skip(i + 1));
        assert(y@.skip(i as int).drop_first() =~= y@.skip(i + 1));
        i = i + 1;
    }
    i < y.len()
}

} // verus!
