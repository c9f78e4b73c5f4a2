use crate::codec::seq_decoding;
use crate::hex::{
    bytes_of_digits, first_non_hex_digit_at, hex_char, hex_decoding, hex_digits, hex_of, hex_value,
    is_bad_hex_char,
    name_decoding, XorNameFromHexError,
};
use crate::name::{
    common_prefix_bits, debug_form, distance_order, first_difference, lemma_first_difference,
    lex_order, XorName,
};
use std::cmp::Ordering;
use vstd::prelude::*;

verus! {

/// The reverse of an ordering.
pub open spec fn reversed(o: Ordering) -> Ordering {
    match o {
        Ordering::Less => Ordering::Greater,
        Ordering::Equal => Ordering::Equal,
        Ordering::Greater => Ordering::Less,
    }
}

/// The unsigned integer whose big-endian bytes are `s`.
pub open spec fn be_value(s: Seq<u8>) -> nat
    decreases s.len(),
{
    if s.len() == 0 {
        0
    } else {
        be_value(s.drop_last()) * 256 + s.last() as nat
    }
}

/// The bytewise XOR of two sequences of one length.
pub open spec fn xor_bytes(a: Seq<u8>, b: Seq<u8>) -> Seq<u8> {
    Seq::new(a.len(), |i: int| a[i] ^ b[i])
}

/// The ordering of two integers.
pub open spec fn int_order(x: int, y: int) -> Ordering {
    if x < y {
        Ordering::Less
    } else if x == y {
        Ordering::Equal
    } else {
        Ordering::Greater
    }
}

proof fn lemma_be_value_bound(s: Seq<u8>)
    ensures
        be_value(s) < pow256(s.len()),
    decreases s.len(),
{
    if s.len() > 0 {
        lemma_be_value_bound(s.drop_last());
        let v = be_value(s.drop_last());
        let p = pow256((s.len() - 1) as nat);
        let l = s.last() as int;
        assert(v * 256 + l < p * 256) by (nonlinear_arith)
            requires
                v < p,
                0 <= l < 256,
        ;
    }
}

/// `256` to the power `n`.
pub open spec fn pow256(n: nat) -> nat
    decreases n,
{
    if n == 0 {
        1
    } else {
        pow256((n - 1) as nat) * 256
    }
}

/// The value of `s` is that of its first `k` bytes, shifted, plus that of the rest.
proof fn lemma_be_value_split(s: Seq<u8>, k: int)
    requires
        0 <= k <= s.len(),
    ensures
        be_value(s) == be_value(s.subrange(0, k)) * pow256((s.len() - k) as nat) + be_value(
            s.subrange(k, s.len() as int),
        ),
    decreases s.len() - k,
{
    if k == s.len() {
        assert(s.subrange(0, k) =~= s);
        assert(s.subrange(k, s.len() as int).len() == 0);
        assert(be_value(s.subrange(k, s.len() as int)) == 0);
        assert(pow256(0) == 1);
        assert(be_value(s) * 1 + 0 == be_value(s));
    } else {
        lemma_be_value_split(s.drop_last(), k);
        let a = be_value(s.subrange(0, k));
        let r = s.subrange(k, s.len() as int);
        assert(s.drop_last().subrange(0, k) =~= s.subrange(0, k));
        assert(s.drop_last().subrange(k, s.len() - 1) =~= r.drop_last());
        let p = pow256((s.len() - 1 - k) as nat);
        let b = be_value(r.drop_last());
        let l = s.last() as int;
        assert(r.last() == s.last());
        assert(be_value(s) == be_value(s.drop_last()) * 256 + l);
        assert(be_value(r) == b * 256 + l);
        assert(pow256((s.len() - k) as nat) == p * 256);
        assert(be_value(s.drop_last()) == a * p + b);
        assert((a * p + b) * 256 + l == a * (p * 256) + (b * 256 + l)) by (nonlinear_arith);
    }
}

/// At the first byte where `x` and `y` differ, that byte decides their numeric order.
proof fn lemma_be_value_order(x: Seq<u8>, y: Seq<u8>, i: int)
    requires
        x.len() == y.len(),
        first_difference(x, y, i),
    ensures
        int_order(be_value(x) as int, be_value(y) as int) == int_order(x[i] as int, y[i] as int),
{
    let n = x.len();
    lemma_be_value_split(x, i);
    lemma_be_value_split(y, i);
    assert(x.subrange(0, i) =~= y.subrange(0, i));
    let xr = x.subrange(i, n as int);
    let yr = y.subrange(i, n as int);
    lemma_be_value_split(xr, 1);
    lemma_be_value_split(yr, 1);
    let m = (n - i - 1) as nat;
    let xt = xr.subrange(1, xr.len() as int);
    let yt = yr.subrange(1, yr.len() as int);
    lemma_be_value_bound(xt);
    lemma_be_value_bound(yt);
    assert(be_value(xr.subrange(0, 1)) == x[i] as nat) by {
        let h = xr.subrange(0, 1);
        assert(h.drop_last().len() == 0);
        assert(be_value(h.drop_last()) == 0);
        assert(h.last() == x[i]);
    }
    assert(be_value(yr.subrange(0, 1)) == y[i] as nat) by {
        let h = yr.subrange(0, 1);
        assert(h.drop_last().len() == 0);
        assert(be_value(h.drop_last()) == 0);
        assert(h.last() == y[i]);
    }
    let p = pow256(m);
    let xv = be_value(xt) as int;
    let yv = be_value(yt) as int;
    let xi = x[i] as int;
    let yi = y[i] as int;
    assert(xi < yi ==> xi * p + xv < yi * p + yv) by (nonlinear_arith)
        requires
            0 <= xv < p,
            0 <= yv < p,
    ;
    assert(yi < xi ==> yi * p + yv < xi * p + xv) by (nonlinear_arith)
        requires
            0 <= xv < p,
            0 <= yv < p,
    ;
    let c = be_value(x.subrange(0, i)) as int;
    let q = pow256((n - i) as nat) as int;
    let xs = be_value(xr) as int;
    let ys = be_value(yr) as int;
    assert(xs < ys ==> c * q + xs < c * q + ys);
    assert(ys < xs ==> c * q + ys < c * q + xs);
}

/// Names are ordered as the unsigned integers whose big-endian bytes they are.
pub proof fn lemma_order_is_numeric(a: XorName, b: XorName)
    ensures
        lex_order(a@, b@) == int_order(be_value(a@) as int, be_value(b@) as int),
{
    if a@ != b@ {
        lemma_first_difference(a@, b@);
        let i = choose|i: int| first_difference(a@, b@, i);
        lemma_be_value_order(a@, b@, i);
    }
}

/// Comparing by distance to `t` is comparing the integers `a xor t` and `b xor t`.
pub proof fn lemma_distance_is_xor_magnitude(t: XorName, a: XorName, b: XorName)
    ensures
        distance_order(t@, a@, b@) == int_order(
            be_value(xor_bytes(a@, t@)) as int,
            be_value(xor_bytes(b@, t@)) as int,
        ),
{
    let x = xor_bytes(a@, t@);
    let y = xor_bytes(b@, t@);
    if a@ == b@ {
        assert(x =~= y);
    } else {
        lemma_first_difference(a@, b@);
        let i = choose|i: int| first_difference(a@, b@, i);
        assert forall|j: int| 0 <= j < i implies x[j] == y[j] by {
            assert(a@[j] == b@[j]);
        }
        let p = a@[i];
        let q = b@[i];
        let u = t@[i];
        assert((p ^ u) != (q ^ u)) by (bit_vector)
            requires
                p != q,
        ;
        assert(first_difference(x, y, i));
        lemma_be_value_order(x, y, i);
    }
}

proof fn lemma_first_difference_symmetric(a: Seq<u8>, b: Seq<u8>)
    requires
        a.len() == b.len(),
        a != b,
    ensures
        (choose|i: int| first_difference(a, b, i)) == (choose|i: int| first_difference(b, a, i)),
        first_difference(a, b, choose|i: int| first_difference(a, b, i)),
{
    lemma_first_difference(a, b);
    lemma_first_difference(b, a);
    let i = choose|i: int| first_difference(a, b, i);
    let k = choose|i: int| first_difference(b, a, i);
    assert(first_difference(a, b, k));
}

/// Comparing `b` with `a` by distance to `t` gives the reverse of comparing
/// `a` with `b`; so, for distinct `a` and `b`, `a` is strictly closer exactly
/// when `b` is not closer or as close.
pub proof fn lemma_distance_antisymmetry(a: XorName, b: XorName, t: XorName)
    ensures
        distance_order(t@, b@, a@) == reversed(distance_order(t@, a@, b@)),
        a@ != b@ ==> ((distance_order(t@, a@, b@) == Ordering::Less) <==> !(distance_order(
            t@,
            b@,
            a@,
        ) != Ordering::Greater)),
{
    if a@ != b@ {
        lemma_first_difference_symmetric(a@, b@);
        let i = choose|i: int| first_difference(a@, b@, i);
        let p = a@[i];
        let q = b@[i];
        let u = t@[i];
        assert((p ^ u) != (q ^ u)) by (bit_vector)
            requires
                p != q,
        ;
    }
}

/// A name is strictly closer to itself than any other name is.
pub proof fn lemma_identity_closest(x: XorName, y: XorName)
    requires
        x@ != y@,
    ensures
        distance_order(x@, x@, y@) == Ordering::Less,
{
    lemma_first_difference(x@, y@);
    let i = choose|i: int| first_difference(x@, y@, i);
    let p = x@[i];
    let q = y@[i];
    assert((p ^ p) < (q ^ p)) by (bit_vector)
        requires
            p != q,
    ;
}

/// The common prefix of two names is between 0 and 512 bits long, is 512
/// bits exactly when they are equal, and does not depend on their order.
pub proof fn lemma_common_prefix_bounds(a: XorName, b: XorName)
    ensures
        0 <= common_prefix_bits(a@, b@) <= 512,
        common_prefix_bits(a@, b@) == 512 <==> a@ == b@,
        common_prefix_bits(a@, b@) == common_prefix_bits(b@, a@),
{
    if a@ != b@ {
        lemma_first_difference_symmetric(a@, b@);
        let i = choose|i: int| first_difference(a@, b@, i);
        let p = a@[i];
        let q = b@[i];
        let x = p ^ q;
        assert(x != 0 && x == q ^ p) by (bit_vector)
            requires
                p != q,
                x == p ^ q,
        ;
        vstd::std_specs::bits::axiom_u8_leading_zeros(x);
    }
}

/// The short form is 14 characters: the first 6 of the full hex form, `..`,
/// and the last 6 of the full hex form.
pub proof fn lemma_debug_form_shape(x: XorName)
    ensures
        debug_form(x@).len() == 14,
        debug_form(x@).subrange(6, 8) == seq!['.', '.'],
        debug_form(x@).subrange(0, 6) == hex_of(x@).subrange(0, 6),
        debug_form(x@).subrange(8, 14) == hex_of(x@).subrange(122, 128),
{
    let d = debug_form(x@);
    let h = hex_of(x@);
    assert(d.subrange(6, 8) =~= seq!['.', '.']);
    assert(d.subrange(0, 6) =~= h.subrange(0, 6));
    assert(d.subrange(8, 14) =~= h.subrange(122, 128));
}

proof fn lemma_hex_char(n: int)
    requires
        0 <= n < 16,
    ensures
        hex_value(hex_char(n)) == n,
{
}

proof fn lemma_filter_keeps_all(s: Seq<char>, pred: spec_fn(char) -> bool)
    requires
        forall|i: int| 0 <= i < s.len() ==> pred(s[i]),
    ensures
        s.filter(pred) == s,
    decreases s.len(),
{
    reveal(Seq::filter);
    if s.len() > 0 {
        lemma_filter_keeps_all(s.drop_last(), pred);
        assert(s.drop_last().push(s.last()) =~= s);
    }
}

/// Decoding the hex form of a name gives the name back.
pub proof fn lemma_hex_round_trip(x: XorName)
    ensures
        name_decoding(hex_of(x@)) == Ok::<Seq<u8>, XorNameFromHexError>(x@),
{
    lemma_hex_bytes_round_trip(x@);
}

/// Hex decoding of the hex form of any bytes gives them back.
pub proof fn lemma_hex_bytes_round_trip(b: Seq<u8>)
    ensures
        hex_decoding(hex_of(b)) == Ok::<Seq<u8>, XorNameFromHexError>(b),
{
    let s = hex_of(b);
    assert forall|i: int| 0 <= i < s.len() implies hex_value(#[trigger] s[i]) >= 0 && hex_value(
        s[i],
    ) == if i % 2 == 0 {
        b[i / 2] as int / 16
    } else {
        b[i / 2] as int % 16
    } by {
        if i % 2 == 0 {
            lemma_hex_char(b[i / 2] as int / 16);
        } else {
            lemma_hex_char(b[i / 2] as int % 16);
        }
    }
    assert(!exists|i: int| 0 <= i < s.len() && is_bad_hex_char(s[i]));
    lemma_filter_keeps_all(s, |c: char| hex_value(c) >= 0);
    assert(hex_digits(s) == s);
    let r = bytes_of_digits(s);
    assert forall|k: int| 0 <= k < b.len() implies r[k] == b[k] by {
        assert(s[2 * k] == hex_char(b[k] as int / 16));
        assert(s[2 * k + 1] == hex_char(b[k] as int % 16));
        assert((2 * k) / 2 == k);
        assert((2 * k + 1) / 2 == k);
    }
    assert(r =~= b);
}

/// Decoding text whose first character other than a hex digit stands at
/// `i` fails with that character and position, whatever the text's length.
pub proof fn lemma_decode_invalid_character(s: Seq<char>, i: int)
    requires
        first_non_hex_digit_at(s, i),
        i <= usize::MAX,
    ensures
        name_decoding(s) == Err::<Seq<u8>, XorNameFromHexError>(
            XorNameFromHexError::InvalidCharacter(s[i], i as usize),
        ),
{
    let k = choose|k: int| first_non_hex_digit_at(s, k);
    assert(first_non_hex_digit_at(s, k));
    if k < i {
        assert(hex_value(s[k]) >= 0);
    } else if i < k {
        assert(hex_value(s[i]) >= 0);
    }
}

proof fn lemma_all_digits_decoding(s: Seq<char>)
    requires
        forall|i: int| 0 <= i < s.len() ==> hex_value(#[trigger] s[i]) >= 0,
    ensures
        hex_digits(s) == s,
        !exists|i: int| 0 <= i < s.len() && is_bad_hex_char(s[i]),
{
    lemma_filter_keeps_all(s, |c: char| hex_value(c) >= 0);
}

/// Decoding text made of hex digits alone fails with an invalid length when
/// it is not 128 digits long.
pub proof fn lemma_decode_invalid_length(s: Seq<char>)
    requires
        forall|i: int| 0 <= i < s.len() ==> hex_value(#[trigger] s[i]) >= 0,
        s.len() != 128,
    ensures
        name_decoding(s) == Err::<Seq<u8>, XorNameFromHexError>(
            XorNameFromHexError::InvalidLength,
        ),
{
    lemma_all_digits_decoding(s);
}

/// The lowercase form of text made of hex digits.
pub open spec fn lower_hex(s: Seq<char>) -> Seq<char> {
    Seq::new(s.len(), |i: int| hex_char(hex_value(s[i])))
}

/// A successful decode takes exactly 128 hex digits, and the hex form of
/// what it gives is the text in lower case.
pub proof fn lemma_decoded_hex_form(s: Seq<char>, b: Seq<u8>)
    requires
        name_decoding(s) == Ok::<Seq<u8>, XorNameFromHexError>(b),
    ensures
        s.len() == 128,
        forall|i: int| 0 <= i < s.len() ==> hex_value(#[trigger] s[i]) >= 0,
        hex_of(b) == lower_hex(s),
{
    assert(!exists|i: int| 0 <= i < s.len() && hex_value(s[i]) < 0);
    lemma_all_digits_decoding(s);
    assert(b == bytes_of_digits(s));
    assert forall|i: int| 0 <= i < s.len() implies #[trigger] hex_of(b)[i] == lower_hex(s)[i] by {
        let k = i / 2;
        let hi = hex_value(s[2 * k]);
        let lo = hex_value(s[2 * k + 1]);
        assert(0 <= hi < 16 && 0 <= lo < 16);
        assert(b[k] == (16 * hi + lo) as u8);
        assert((16 * hi + lo) / 16 == hi && (16 * hi + lo) % 16 == lo && 16 * hi + lo < 256)
            by (nonlinear_arith)
            requires
                0 <= hi < 16,
                0 <= lo < 16,
        ;
        assert(b[k] as int == 16 * hi + lo);
        if i % 2 == 0 {
            assert(i == 2 * k);
        } else {
            assert(i == 2 * k + 1);
        }
    }
    assert(hex_of(b) =~= lower_hex(s));
}

/// Decoding the elements of a name written as a sequence gives the name back.
pub proof fn lemma_seq_round_trip(x: XorName)
    ensures
        seq_decoding(x@) == Ok::<Seq<u8>, crate::codec::SeqLengthError>(x@),
{
}

} // verus!
