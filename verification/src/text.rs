//! Short texts of bounded size: decimal numbers, and strings that hold at most so many bytes.

use vstd::prelude::*;
use vstd::string::{StrSliceExecFns, StringExecFns};
use vstd::utf8::{encode_utf8, is_ascii_chars, is_ascii_chars_encode_utf8};

verus! {

/// The number of bytes `s` takes in UTF-8.
pub open spec fn utf8_len(s: Seq<char>) -> nat {
    encode_utf8(s).len()
}

/// Appends `piece` to `s`, a string of at most `N` bytes, or leaves `s` as it is and fails when
/// the result would be longer: `heapless::String::push_str` on a `heapless::String<N>` that
/// holds `s`.
#[verifier::external_body]
pub(crate) fn push_str<const N: usize>(s: &mut String, piece: &str) -> (r: Result<(), ()>)
    requires
        utf8_len(old(s)@) <= N,
    ensures
        r is Ok <==> utf8_len(old(s)@) + utf8_len(piece@) <= N,
        final(s)@ == (if utf8_len(old(s)@) + utf8_len(piece@) <= N {
            old(s)@ + piece@
        } else {
            old(s)@
        }),
{
    let mut h: heapless::String<N> = heapless::String::try_from(s.as_str()).unwrap();
    let r = h.push_str(piece);
    *s = String::from(h.as_str());
    r
}

/// Encoding goes character by character, so the lengths of two texts add up.
pub proof fn lemma_utf8_len_concat(a: Seq<char>, b: Seq<char>)
    ensures
        encode_utf8(a + b) == encode_utf8(a) + encode_utf8(b),
        utf8_len(a + b) == utf8_len(a) + utf8_len(b),
    decreases a.len(),
{
    if a.len() == 0 {
        assert(a + b =~= b);
        assert(encode_utf8(a) + encode_utf8(b) =~= encode_utf8(b));
    } else {
        assert((a + b).drop_first() =~= a.drop_first() + b);
        lemma_utf8_len_concat(a.drop_first(), b);
        assert(encode_utf8(a + b) =~= encode_utf8(a) + encode_utf8(b));
    }
}

/// ASCII text takes one byte per character.
pub proof fn lemma_ascii_len(s: Seq<char>)
    requires
        is_ascii_chars(s),
    ensures
        utf8_len(s) == s.len(),
{
    is_ascii_chars_encode_utf8(s);
}

/// A text takes at least one byte per character and at most four.
pub proof fn lemma_utf8_len_bounds(s: Seq<char>)
    ensures
        s.len() <= utf8_len(s) <= 4 * s.len(),
    decreases s.len(),
{
    if s.len() > 0 {
        lemma_utf8_len_bounds(s.drop_first());
    }
}

/// `s` with `piece` appended, or `s` alone where both together take more than `cap` bytes.
pub open spec fn cat(cap: nat, s: Seq<char>, piece: Seq<char>) -> Seq<char> {
    if utf8_len(s) + utf8_len(piece) <= cap {
        s + piece
    } else {
        s
    }
}

/// Appends `piece` to a text of at most `N` bytes, if it fits; tells whether it did.
pub fn put<const N: usize>(s: &mut String, piece: &str) -> (r: bool)
    requires
        utf8_len(old(s)@) <= N,
    ensures
        r == (utf8_len(old(s)@) + utf8_len(piece@) <= N),
        final(s)@ == cat(N as nat, old(s)@, piece@),
        utf8_len(final(s)@) <= N,
{
    proof {
        lemma_utf8_len_concat(s@, piece@);
    }
    match push_str::<N>(s, piece) {
        Ok(_) => true,
        Err(_) => false,
    }
}

/// Appends `piece` to a text of at most `N` bytes that has room for it.
pub fn append<const N: usize>(s: &mut String, piece: &str)
    requires
        utf8_len(old(s)@) + utf8_len(piece@) <= N,
    ensures
        final(s)@ == old(s)@ + piece@,
        utf8_len(final(s)@) == utf8_len(old(s)@) + utf8_len(piece@),
{
    proof {
        lemma_utf8_len_concat(s@, piece@);
    }
    let _ = put::<N>(s, piece);
}

/// The text left when `pieces` are appended to `s` one by one up to the first that does not fit
/// in `cap` bytes.
pub open spec fn cat_all(cap: nat, s: Seq<char>, pieces: Seq<Seq<char>>) -> Seq<char>
    decreases pieces.len(),
{
    if pieces.len() == 0 || utf8_len(s) + utf8_len(pieces[0]) > cap {
        s
    } else {
        cat_all(cap, s + pieces[0], pieces.drop_first())
    }
}

/// The character of a decimal digit.
pub open spec fn digit(d: int) -> char {
    (48 + d) as char
}

/// `n` in decimal.
pub open spec fn dec(n: nat) -> Seq<char>
    decreases n,
{
    if n < 10 {
        seq![digit(n as int)]
    } else {
        dec(n / 10).push(digit(n as int % 10))
    }
}

/// `n` in decimal, with a leading `-` where it is negative.
pub open spec fn signed_dec(n: int) -> Seq<char> {
    if n < 0 {
        seq!['-'] + dec((-n) as nat)
    } else {
        dec(n as nat)
    }
}

/// `n` in decimal, with a leading zero where it has one digit.
pub open spec fn pad2(n: nat) -> Seq<char> {
    if n < 10 {
        seq!['0'] + dec(n)
    } else {
        dec(n)
    }
}

/// 10 to the power `k`.
pub open spec fn pow10(k: nat) -> nat
    decreases k,
{
    if k == 0 {
        1
    } else {
        10 * pow10((k - 1) as nat)
    }
}

/// A decimal number is ASCII digits, and as many as the powers of ten it reaches.
pub proof fn lemma_dec(n: nat, k: nat)
    requires
        0 < k,
        n < pow10(k),
    ensures
        is_ascii_chars(dec(n)),
        1 <= dec(n).len() <= k,
        utf8_len(dec(n)) == dec(n).len(),
        forall|i: int| 0 <= i < dec(n).len() ==> '0' <= #[trigger] dec(n)[i] <= '9',
    decreases n,
{
    if n >= 10 {
        assert(k > 1) by {
            assert(pow10(1) == 10) by {
                reveal_with_fuel(pow10, 2);
            }
        }
        lemma_dec(n / 10, (k - 1) as nat);
    }
    lemma_ascii_len(dec(n));
}

/// The number that a run of digits stands for.
pub open spec fn value(s: Seq<char>) -> int
    decreases s.len(),
{
    if s.len() == 0 {
        0
    } else {
        10 * value(s.drop_last()) + (s.last() as int - 48)
    }
}

/// Reading back a decimal number gives the number.
pub proof fn lemma_dec_value(n: nat)
    ensures
        value(dec(n)) == n,
    decreases n,
{
    if n >= 10 {
        lemma_dec_value(n / 10);
        assert(dec(n).drop_last() =~= dec(n / 10));
        assert(dec(n).last() as int == 48 + n as int % 10);
    } else {
        assert(dec(n).drop_last() =~= Seq::<char>::empty());
        assert(value(dec(n).drop_last()) == 0);
        assert(dec(n).last() as int == 48 + n);
    }
}

/// A leading zero does not change a number.
proof fn lemma_leading_zero(s: Seq<char>)
    ensures
        value(seq!['0'] + s) == value(s),
    decreases s.len(),
{
    let t = seq!['0'] + s;
    if s.len() == 0 {
        assert(t.drop_last() =~= Seq::<char>::empty());
        assert(value(t.drop_last()) == 0);
        assert(t.last() == '0');
    } else {
        assert(t.drop_last() =~= seq!['0'] + s.drop_last());
        assert(t.last() == s.last());
        lemma_leading_zero(s.drop_last());
    }
}

/// Reading back a number of at least two digits gives the number, and below 100 there are exactly
/// two.
pub proof fn lemma_pad2_value(n: nat)
    ensures
        value(pad2(n)) == n,
        n < 100 ==> pad2(n).len() == 2,
        n < 100 ==> forall|i: int| 0 <= i < 2 ==> '0' <= #[trigger] pad2(n)[i] <= '9',
        pad2(n).len() >= 2,
{
    lemma_dec_value(n);
    reveal_with_fuel(dec, 3);
    if n < 10 {
        lemma_leading_zero(dec(n));
    }
}

/// A signed number reads back: a leading `-` exactly where it is negative, then its magnitude.
pub proof fn lemma_signed_dec_value(n: int)
    ensures
        n < 0 <==> signed_dec(n)[0] == '-',
        n < 0 ==> value(signed_dec(n).drop_first()) == -n,
        n >= 0 ==> value(signed_dec(n)) == n,
{
    if n < 0 {
        lemma_dec_value((-n) as nat);
        assert(signed_dec(n).drop_first() =~= dec((-n) as nat));
    } else {
        lemma_dec_value(n as nat);
        lemma_dec_first(n as nat);
    }
}

/// A decimal number begins with a digit.
proof fn lemma_dec_first(n: nat)
    ensures
        dec(n).len() >= 1,
        '0' <= dec(n)[0] <= '9',
    decreases n,
{
    if n >= 10 {
        lemma_dec_first(n / 10);
    }
}

/// Where two texts are the same and each is split at the first `c` in it, the parts are the same.
pub proof fn lemma_split(a: Seq<char>, rest_a: Seq<char>, b: Seq<char>, rest_b: Seq<char>, c: char)
    requires
        a + rest_a == b + rest_b,
        rest_a.len() > 0 && rest_a[0] == c,
        rest_b.len() > 0 && rest_b[0] == c,
        forall|i: int| 0 <= i < a.len() ==> #[trigger] a[i] != c,
        forall|i: int| 0 <= i < b.len() ==> #[trigger] b[i] != c,
    ensures
        a == b,
        rest_a == rest_b,
{
    let whole = a + rest_a;
    assert(whole[a.len() as int] == c);
    assert((b + rest_b)[b.len() as int] == c);
    if a.len() < b.len() {
        assert(b[a.len() as int] == whole[a.len() as int]);
    }
    if b.len() < a.len() {
        assert(a[b.len() as int] == whole[b.len() as int]);
    }
    assert(a =~= whole.take(a.len() as int));
    assert(b =~= whole.take(a.len() as int));
    assert(rest_a =~= whole.skip(a.len() as int));
    assert(rest_b =~= whole.skip(a.len() as int));
}

fn digit_str(d: u64) -> (r: &'static str)
    requires
        d < 10,
    ensures
        r@ == seq![digit(d as int)],
{
    proof {
        reveal_strlit("0");
        reveal_strlit("1");
        reveal_strlit("2");
        reveal_strlit("3");
        reveal_strlit("4");
        reveal_strlit("5");
        reveal_strlit("6");
        reveal_strlit("7");
        reveal_strlit("8");
        reveal_strlit("9");
    }
    match d {
        0 => "0",
        1 => "1",
        2 => "2",
        3 => "3",
        4 => "4",
        5 => "5",
        6 => "6",
        7 => "7",
        8 => "8",
        _ => "9",
    }
}

/// `n` in decimal.
pub fn decimal(n: u64) -> (r: String)
    ensures
        r@ == dec(n as nat),
    decreases n,
{
    if n < 10 {
        String::from_str(digit_str(n))
    } else {
        let mut s = decimal(n / 10);
        s.append(digit_str(n % 10));
        s
    }
}

/// `n` in decimal, signed.
pub fn signed_decimal(n: i64) -> (r: String)
    ensures
        r@ == signed_dec(n as int),
{
    if n >= 0 {
        decimal(n as u64)
    } else {
        proof {
            reveal_strlit("-");
        }
        let magnitude: u64 = (-(n as i128)) as u64;
        let mut s = String::from_str("-");
        let digits = decimal(magnitude);
        s.append(digits.as_str());
        s
    }
}

/// `n` in decimal, at least two digits.
pub fn padded(n: u32) -> (r: String)
    ensures
        r@ == pad2(n as nat),
{
    if n < 10 {
        proof {
            reveal_strlit("0");
        }
        let mut s = String::from_str("0");
        let digits = decimal(n as u64);
        s.append(digits.as_str());
        s
    } else {
        decimal(n as u64)
    }
}

/// The number of characters of `s`.
pub fn char_count(s: &str) -> (r: usize)
    ensures
        r == s@.len(),
{
    s.unicode_len()
}

} // verus!
