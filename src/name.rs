use crate::hex::{
    decode_hex, encode_hex, first_non_hex_digit, first_non_hex_digit_at, hex_of, hex_value,
    name_decoding,
    XorNameFromHexError,
};
use crate::slices::{slice_as_u8_64_array, slice_equal};
use std::cmp::Ordering;
use vstd::prelude::*;

verus! {

/// Constant byte length of `XorName`.
pub const XOR_NAME_LEN: usize = 64;

/// Constant bit length of `XorName`.
pub const XOR_NAME_BITS: usize = 512;

/// A 512-bit number, stored most significant byte first, viewed as a point
/// in XOR space: the distance between `x` and `y` is `x xor y`.
#[derive(Clone, Copy, Debug, Eq, Ord, Hash)]
pub struct XorName(pub [u8; XOR_NAME_LEN]);

impl View for XorName {
    type V = Seq<u8>;

    open spec fn view(&self) -> Seq<u8> {
        self.0@
    }
}

/// The ordering of two bytes as unsigned numbers.
pub open spec fn byte_order(x: u8, y: u8) -> Ordering {
    if x < y {
        Ordering::Less
    } else if x == y {
        Ordering::Equal
    } else {
        Ordering::Greater
    }
}

/// `i` is the first index at which `a` and `b` differ.
pub open spec fn first_difference(a: Seq<u8>, b: Seq<u8>, i: int) -> bool {
    &&& 0 <= i < a.len()
    &&& i < b.len()
    &&& a[i] != b[i]
    &&& forall|j: int| 0 <= j < i ==> a[j] == b[j]
}

/// Number of leading bits in which `a` and `b` agree.
pub open spec fn common_prefix_bits(a: Seq<u8>, b: Seq<u8>) -> int {
    if a == b {
        8 * a.len() as int
    } else {
        let i = choose|i: int| first_difference(a, b, i);
        8 * i + (a[i] ^ b[i]).leading_zeros()
    }
}

/// Compares `a` and `b` by their XOR distance to `t`: the first byte where `a`
/// and `b` differ decides, by the size of its XOR with `t`.
pub open spec fn distance_order(t: Seq<u8>, a: Seq<u8>, b: Seq<u8>) -> Ordering {
    if a == b {
        Ordering::Equal
    } else {
        let i = choose|i: int| first_difference(a, b, i);
        byte_order(a[i] ^ t[i], b[i] ^ t[i])
    }
}

/// Lexicographic order of two byte sequences of one length.
pub open spec fn lex_order(a: Seq<u8>, b: Seq<u8>) -> Ordering {
    if a == b {
        Ordering::Equal
    } else {
        let i = choose|i: int| first_difference(a, b, i);
        byte_order(a[i], b[i])
    }
}

/// Two distinct sequences of one length have a first difference, and only one.
pub proof fn lemma_first_difference(a: Seq<u8>, b: Seq<u8>)
    requires
        a.len() == b.len(),
        a != b,
    ensures
        exists|i: int| first_difference(a, b, i),
        forall|i: int, k: int| first_difference(a, b, i) && first_difference(a, b, k) ==> i == k,
{
    if forall|j: int| 0 <= j < a.len() ==> a[j] == b[j] {
        assert(a =~= b);
    }
    let w = choose|j: int| 0 <= j < a.len() && a[j] != b[j];
    lemma_first_difference_below(a, b, w);
    assert forall|i: int, k: int| first_difference(a, b, i) && first_difference(a, b, k) implies i
        == k by {
        if i < k {
            assert(a[i] == b[i]);
        } else if k < i {
            assert(a[k] == b[k]);
        }
    }
}

proof fn lemma_first_difference_below(a: Seq<u8>, b: Seq<u8>, w: int)
    requires
        a.len() == b.len(),
        0 <= w < a.len(),
        a[w] != b[w],
    ensures
        exists|i: int| first_difference(a, b, i),
    decreases w,
{
    if forall|j: int| 0 <= j < w ==> a[j] == b[j] {
        assert(first_difference(a, b, w));
    } else {
        let v = choose|j: int| 0 <= j < w && a[j] != b[j];
        lemma_first_difference_below(a, b, v);
    }
}

/// The short form of a name: hex of its first three and last three bytes,
/// joined by `..`.
pub open spec fn debug_form(b: Seq<u8>) -> Seq<char> {
    hex_of(b.subrange(0, 3)) + seq!['.', '.'] + hex_of(b.subrange(61, 64))
}

/// Relies on rand::random::<u8>: a byte from the thread-local generator.
#[verifier::external_body]
fn random_byte() -> u8 {
    rand::random::<u8>()
}

impl XorName {
    /// Constructs a `XorName` from a `XOR_NAME_LEN` byte array.
    pub fn new(id: [u8; XOR_NAME_LEN]) -> (r: XorName)
        ensures
            r@ == id@,
    {
        XorName(id)
    }

    /// Returns the internal array.
    pub fn get_id(&self) -> (r: [u8; XOR_NAME_LEN])
        ensures
            r@ == self@,
    {
        self.0
    }

    /// Hex-encodes the `XorName` as a `String`.
    pub fn as_hex(&self) -> (r: String)
        ensures
            r@ == hex_of(self@),
    {
        encode_hex(self.0.as_slice())
    }

    /// Hex-decodes a `XorName` from a `&str`.
    pub fn from_hex(s: &str) -> (r: Result<XorName, XorNameFromHexError>)
        ensures
            match r {
                Ok(n) => name_decoding(s@) == Ok::<Seq<u8>, XorNameFromHexError>(n@),
                Err(e) => name_decoding(s@) == Err::<Seq<u8>, XorNameFromHexError>(e),
            },
    {
        if let Some(p) = first_non_hex_digit(s) {
            let c = s.get_char(p);
            proof {
                let k = choose|k: int| first_non_hex_digit_at(s@, k);
                assert(first_non_hex_digit_at(s@, k));
                if k < p {
                    assert(hex_value(s@[k]) >= 0);
                } else if p < k {
                    assert(hex_value(s@[p as int]) >= 0);
                }
            }
            return Err(XorNameFromHexError::InvalidCharacter(c, p));
        }
        let data = match decode_hex(s) {
            Ok(v) => v,
            Err(e) => return Err(e),
        };
        if data.len() != XOR_NAME_LEN {
            return Err(XorNameFromHexError::InvalidLength);
        }
        Ok(XorName(slice_as_u8_64_array(data.as_slice())))
    }

    /// A view of the bytes from `start` up to `end`.
    pub fn byte_slice(&self, start: usize, end: usize) -> (r: &[u8])
        requires
            start <= end <= XOR_NAME_LEN,
        ensures
            r@ == self@.subrange(start as int, end as int),
    {
        vstd::slice::slice_subrange(self.0.as_slice(), start, end)
    }

    /// The short form used in logs: `xxyyzz..aabbcc`.
    pub fn get_debug_id(&self) -> (r: String)
        ensures
            r@ == debug_form(self@),
    {
        let head = vec![self.0[0], self.0[1], self.0[2]];
        let tail = vec![self.0[61], self.0[62], self.0[63]];
        let mut s = encode_hex(head.as_slice());
        s.append("..");
        let t = encode_hex(tail.as_slice());
        s.append(t.as_str());
        proof {
            reveal_strlit("..");
            assert(head@ =~= self@.subrange(0, 3));
            assert(tail@ =~= self@.subrange(61, 64));
            assert(s@ =~= debug_form(self@));
        }
        s
    }

    /// A name whose bytes are drawn at random.
    pub fn random() -> XorName {
        let mut arr = [0u8; XOR_NAME_LEN];
        let mut i: usize = 0;
        while i < XOR_NAME_LEN
            invariant
                0 <= i <= XOR_NAME_LEN,
            decreases XOR_NAME_LEN - i,
        {
            arr[i] = random_byte();
            i += 1;
        }
        XorName(arr)
    }

    /// Same as `bucket_index`.
    pub fn bucket_distance(&self, name: &XorName) -> (r: usize)
        ensures
            r == common_prefix_bits(self@, name@),
    {
        self.bucket_index(name)
    }

    /// Same as `cmp_distance`.
    pub fn cmp_closeness(&self, lhs: &XorName, rhs: &XorName) -> (r: Ordering)
        ensures
            r == distance_order(self@, lhs@, rhs@),
    {
        self.cmp_distance(lhs, rhs)
    }

    /// Returns the number of leading bits in which `self` and `name` agree.
    pub fn bucket_index(&self, name: &XorName) -> (r: usize)
        ensures
            r == common_prefix_bits(self@, name@),
    {
        let mut byte_index: usize = 0;
        while byte_index < XOR_NAME_LEN
            invariant
                0 <= byte_index <= XOR_NAME_LEN,
                self@.len() == XOR_NAME_LEN,
                name@.len() == XOR_NAME_LEN,
                forall|j: int| 0 <= j < byte_index ==> self@[j] == name@[j],
            decreases XOR_NAME_LEN - byte_index,
        {
            if self.0[byte_index] != name.0[byte_index] {
                let x: u8 = self.0[byte_index] ^ name.0[byte_index];
                proof {
                    lemma_first_difference(self@, name@);
                    assert(first_difference(self@, name@, byte_index as int));
                    vstd::std_specs::bits::axiom_u8_leading_zeros(x);
                }
                return byte_index * 8 + x.leading_zeros() as usize;
            }
            byte_index += 1;
        }
        assert(self@ =~= name@);
        XOR_NAME_BITS
    }

    /// Compares `lhs` and `rhs` with respect to their distance from `self`.
    pub fn cmp_distance(&self, lhs: &XorName, rhs: &XorName) -> (r: Ordering)
        ensures
            r == distance_order(self@, lhs@, rhs@),
    {
        let mut i: usize = 0;
        while i < XOR_NAME_LEN
            invariant
                0 <= i <= XOR_NAME_LEN,
                lhs@.len() == XOR_NAME_LEN,
                rhs@.len() == XOR_NAME_LEN,
                forall|j: int| 0 <= j < i ==> lhs@[j] == rhs@[j],
            decreases XOR_NAME_LEN - i,
        {
            if lhs.0[i] != rhs.0[i] {
                let l: u8 = lhs.0[i] ^ self.0[i];
                let g: u8 = rhs.0[i] ^ self.0[i];
                proof {
                    lemma_first_difference(lhs@, rhs@);
                    assert(first_difference(lhs@, rhs@, i as int));
                }
                return if l < g {
                    Ordering::Less
                } else if l == g {
                    Ordering::Equal
                } else {
                    Ordering::Greater
                };
            }
            i += 1;
        }
        assert(lhs@ =~= rhs@);
        Ordering::Equal
    }
}

/// Returns true if `lhs` is closer to `target` than `rhs`, by XOR distance.
pub fn closer_to_target(lhs: &XorName, rhs: &XorName, target: &XorName) -> (r: bool)
    ensures
        r <==> distance_order(target@, lhs@, rhs@) == Ordering::Less,
{
    match target.cmp_closeness(lhs, rhs) {
        Ordering::Less => true,
        _ => false,
    }
}

/// Returns true if `lhs` is closer to `target` than `rhs`, or as close.
pub fn closer_to_target_or_equal(lhs: &XorName, rhs: &XorName, target: &XorName) -> (r: bool)
    ensures
        r <==> distance_order(target@, lhs@, rhs@) != Ordering::Greater,
{
    match target.cmp_closeness(lhs, rhs) {
        Ordering::Greater => false,
        _ => true,
    }
}

impl PartialEq for XorName {
    fn eq(&self, other: &XorName) -> (r: bool) {
        let r = slice_equal(self.0.as_slice(), other.0.as_slice());
        proof {
            if r {
                assert(self@ =~= other@);
            }
        }
        r
    }
}

impl vstd::std_specs::cmp::PartialEqSpecImpl for XorName {
    open spec fn obeys_eq_spec() -> bool {
        true
    }

    open spec fn eq_spec(&self, other: &XorName) -> bool {
        self@ == other@
    }
}

/// Names are ordered as unsigned integers, that is by their bytes in order.
impl PartialOrd for XorName {
    fn partial_cmp(&self, other: &XorName) -> (r: Option<Ordering>) {
        let mut i: usize = 0;
        while i < XOR_NAME_LEN
            invariant
                0 <= i <= XOR_NAME_LEN,
                self@.len() == XOR_NAME_LEN,
                other@.len() == XOR_NAME_LEN,
                forall|j: int| 0 <= j < i ==> self@[j] == other@[j],
            decreases XOR_NAME_LEN - i,
        {
            if self.0[i] != other.0[i] {
                proof {
                    lemma_first_difference(self@, other@);
                    assert(first_difference(self@, other@, i as int));
                }
                return if self.0[i] < other.0[i] {
                    Some(Ordering::Less)
                } else {
                    Some(Ordering::Greater)
                };
            }
            i += 1;
        }
        assert(self@ =~= other@);
        Some(Ordering::Equal)
    }
}

impl vstd::std_specs::cmp::PartialOrdSpecImpl for XorName {
    open spec fn obeys_partial_cmp_spec() -> bool {
        true
    }

    open spec fn partial_cmp_spec(&self, other: &XorName) -> Option<Ordering> {
        Some(lex_order(self@, other@))
    }
}

} // verus!
