//! Unadulterated byte strings: construction from heterogeneous sources,
//! byte-wise value semantics, read-only slicing, and one fallible, lossless
//! conversion to UTF-8 text.

use core::cmp::Ordering;
use vstd::prelude::*;
use vstd::slice::{slice_index_get, slice_subrange, slice_to_vec};
use vstd::std_specs::cmp::{PartialEqSpec, PartialOrdSpec};
use vstd::std_specs::iter::IteratorSpec;
use vstd::utf8::{decode_utf8, decode_utf8_encode_utf8, encode_utf8, valid_utf8};

verus! {

/// Relies on `String::into_bytes`: a `String` is stored as the UTF-8
/// encoding of its characters, and this consumes it into exactly those
/// bytes.
pub assume_specification[ String::into_bytes ](s: String) -> (v: Vec<u8>)
    ensures
        v@ == encode_utf8(s@),
;

/// Relies on `String::from_utf8`: it succeeds exactly when the bytes are
/// well-formed UTF-8, the resulting text is their decoding, and on failure
/// `FromUtf8Error::into_bytes` hands back the input bytes unchanged.
#[verifier::external_body]
fn vec_into_utf8(v: Vec<u8>) -> (r: Result<String, Vec<u8>>)
    ensures
        valid_utf8(v@) <==> r is Ok,
        r matches Ok(s) ==> s@ == decode_utf8(v@),
        r matches Err(w) ==> w@ == v@,
{
    match String::from_utf8(v) {
        Ok(s) => Ok(s),
        Err(e) => Err(e.into_bytes()),
    }
}

/// Lexicographic order on byte sequences: the first differing byte decides;
/// a proper prefix comes before any of its extensions.
pub open spec fn lex_cmp(a: Seq<u8>, b: Seq<u8>) -> Ordering
    decreases a.len(),
{
    if a.len() == 0 && b.len() == 0 {
        Ordering::Equal
    } else if a.len() == 0 {
        Ordering::Less
    } else if b.len() == 0 {
        Ordering::Greater
    } else if a[0] < b[0] {
        Ordering::Less
    } else if b[0] < a[0] {
        Ordering::Greater
    } else {
        lex_cmp(a.drop_first(), b.drop_first())
    }
}

/// A trait that encapsulates the admissible sources of a byte string:
/// an owned vector, a borrowed slice, or text whose UTF-8 bytes are taken.
///
/// `vec_view` is the mathematical content of the source: exactly the
/// elements, in order, that `into_vec` must hand over.
pub trait IntoVector<T>: Sized {
    /// The sequence of elements this source contributes.
    spec fn vec_view(&self) -> Seq<T>;

    /// Convert the underlying value to a vector holding exactly `vec_view`.
    fn into_vec(self) -> (v: Vec<T>)
        ensures
            v@ == self.vec_view(),
    ;
}

impl<T> IntoVector<T> for Vec<T> {
    open spec fn vec_view(&self) -> Seq<T> {
        self@
    }

    fn into_vec(self) -> Vec<T> {
        self
    }
}

impl<'a, T: Copy> IntoVector<T> for &'a [T] {
    open spec fn vec_view(&self) -> Seq<T> {
        self@
    }

    fn into_vec(self) -> Vec<T> {
        slice_to_vec(self)
    }
}

impl<'a> IntoVector<u8> for &'a str {
    open spec fn vec_view(&self) -> Seq<u8> {
        encode_utf8(self@)
    }

    fn into_vec(self) -> Vec<u8> {
        slice_to_vec(self.as_bytes())
    }
}

impl IntoVector<u8> for String {
    open spec fn vec_view(&self) -> Seq<u8> {
        encode_utf8(self@)
    }

    fn into_vec(self) -> Vec<u8> {
        self.into_bytes()
    }
}

/// A type that represents unadulterated byte strings.
///
/// Byte strings represent *any* 8 bit character encoding. There are no
/// restrictions placed on the type of encoding used: many CSV files in the
/// wild are not UTF-8 encoded, so a useful CSV parser must store raw field
/// and record data without interpreting it. Interpretation is deferred to
/// the caller, who may attempt a UTF-8 decode with
/// [`ByteString::into_utf8_string`].
///
/// The content is never mutated after construction: every operation is
/// read-only or consumes the buffer. Equality is byte-wise, ordering is
/// lexicographic by byte value, and the (derived) hash is a function of the
/// bytes alone, so the type is fit for use as a set or map key.
///
/// The derived `Debug` rendering shows the literal byte values (for example
/// `ByteString([255, 50, 48, 49])`), never an attempted text decode, since
/// the content may not be valid UTF-8.
#[derive(Debug, Eq, Ord, Hash)]
pub struct ByteString(Vec<u8>);

impl View for ByteString {
    type V = Seq<u8>;

    closed spec fn view(&self) -> Seq<u8> {
        self.0@
    }
}

impl ByteString {
    /// Create a new byte string from a vector or slice of bytes, or from
    /// text. The new buffer holds exactly the source's bytes, in order;
    /// nothing is validated or normalized.
    pub fn from_bytes<S: IntoVector<u8>>(bs: S) -> (r: ByteString)
        ensures
            r@ == bs.vec_view(),
    {
        ByteString(bs.into_vec())
    }

    /// Consumes this byte string into a vector of bytes.
    pub fn into_bytes(self) -> (v: Vec<u8>)
        ensures
            v@ == self@,
    {
        self.0
    }

    /// Returns this byte string as a slice of bytes.
    pub fn as_bytes(&self) -> (b: &[u8])
        ensures
            b@ == self@,
    {
        self.0.as_slice()
    }

    /// Return the number of bytes in the string.
    pub fn len(&self) -> (n: usize)
        ensures
            n == self@.len(),
    {
        self.0.len()
    }

    /// Returns whether the byte string is empty or not.
    pub fn is_empty(&self) -> (e: bool)
        ensures
            e == (self@.len() == 0),
    {
        self.0.is_empty()
    }

    /// Create a new byte string by draining a finite, lazily-produced
    /// sequence of bytes, fully and in order. The producer need not be
    /// restartable; it must follow the iterator laws and eventually end.
    pub fn from_byte_iter<I: Iterator<Item = u8>>(bytes: I) -> (r: ByteString)
        requires
            bytes.obeys_prophetic_iter_laws(),
            bytes.decrease() is Some,
        ensures
            r@ == bytes.remaining(),
    {
        let ghost orig: Seq<u8> = bytes.remaining();
        let mut it = bytes;
        let mut v: Vec<u8> = Vec::new();
        loop
            invariant
                it.obeys_prophetic_iter_laws(),
                it.decrease() is Some,
                v@ + it.remaining() == orig,
            ensures
                v@ == orig,
            decreases it.decrease()->0,
        {
            let ghost pre_rem = it.remaining();
            let ghost pre_v = v@;
            match it.next() {
                Some(x) => {
                    v.push(x);
                    proof {
                        assert(v@ + it.remaining() =~= pre_v + pre_rem);
                    }
                },
                None => {
                    proof {
                        assert(v@ + it.remaining() =~= v@);
                        assert(v@ =~= orig);
                    }
                    break;
                },
            }
        }
        ByteString(v)
    }

    /// Consumes the byte string and decodes it into a Unicode string.
    /// Succeeds exactly when the bytes are well-formed UTF-8; the text is
    /// then their decoding, stored as the very same byte sequence. If the
    /// decoding fails, the original `ByteString` is returned byte for byte,
    /// so nothing is lost and the caller may retry or inspect it.
    pub fn into_utf8_string(self) -> (r: Result<String, ByteString>)
        ensures
            valid_utf8(self@) <==> r is Ok,
            r matches Ok(s) ==> s@ == decode_utf8(self@) && encode_utf8(s@) == self@,
            r matches Err(b) ==> b@ == self@,
    {
        let ghost bytes: Seq<u8> = self@;
        match vec_into_utf8(self.0) {
            Ok(s) => {
                proof {
                    decode_utf8_encode_utf8(bytes);
                }
                Ok(s)
            },
            Err(v) => Err(ByteString(v)),
        }
    }

    /// Borrowed view of the bytes from `start` (inclusive) to the end.
    /// The offset must be in bounds; callers validate ranges derived from
    /// untrusted input before calling.
    pub fn slice_from(&self, start: usize) -> (b: &[u8])
        requires
            start <= self@.len(),
        ensures
            b@ == self@.skip(start as int),
    {
        let b = slice_subrange(self.0.as_slice(), start, self.0.len());
        proof {
            assert(self@.subrange(start as int, self@.len() as int) =~= self@.skip(start as int));
        }
        b
    }

    /// Borrowed view of the bytes from the start up to `end` (exclusive).
    /// The offset must be in bounds; callers validate ranges derived from
    /// untrusted input before calling.
    pub fn slice_to(&self, end: usize) -> (b: &[u8])
        requires
            end <= self@.len(),
        ensures
            b@ == self@.take(end as int),
    {
        let b = slice_subrange(self.0.as_slice(), 0, end);
        proof {
            assert(self@.subrange(0, end as int) =~= self@.take(end as int));
        }
        b
    }

    /// Borrowed view of the half-open byte range `start..end`. The offsets
    /// must satisfy `start <= end <= len()`; callers validate ranges derived
    /// from untrusted input before calling.
    pub fn slice(&self, start: usize, end: usize) -> (b: &[u8])
        requires
            start <= end <= self@.len(),
        ensures
            b@ == self@.subrange(start as int, end as int),
    {
        slice_subrange(self.0.as_slice(), start, end)
    }

    /// Compares the raw bytes to the UTF-8 encoding of the given text,
    /// without building an intermediate byte string: true exactly when the
    /// byte sequences match.
    pub fn equiv(&self, other: &str) -> (r: bool)
        ensures
            r == (self@ == encode_utf8(other@)),
    {
        bytes_equal(self.0.as_slice(), other.as_bytes())
    }
}

/// Byte-wise equality of two slices.
fn bytes_equal(a: &[u8], b: &[u8]) -> (r: bool)
    ensures
        r == (a@ == b@),
{
    if a.len() != b.len() {
        return false;
    }
    let mut i: usize = 0;
    while i < a.len()
        invariant
            i <= a@.len(),
            a@.len() == b@.len(),
            forall|k: int| 0 <= k < i ==> a@[k] == b@[k],
        decreases a@.len() - i,
    {
        if *slice_index_get(a, i) != *slice_index_get(b, i) {
            return false;
        }
        i = i + 1;
    }
    proof {
        assert(a@ =~= b@);
    }
    true
}

/// Byte-for-byte copy of a vector.
fn clone_byte_vec(v: &Vec<u8>) -> (r: Vec<u8>)
    ensures
        r@ == v@,
{
    let mut r: Vec<u8> = Vec::new();
    let mut i: usize = 0;
    while i < v.len()
        invariant
            i <= v@.len(),
            r@ == v@.subrange(0, i as int),
        decreases v@.len() - i,
    {
        r.push(v[i]);
        proof {
            assert(r@ =~= v@.subrange(0, i + 1));
        }
        i = i + 1;
    }
    proof {
        assert(r@ =~= v@);
    }
    r
}

/// Lexicographic comparison of two slices, byte by byte.
fn compare_bytes(a: &[u8], b: &[u8]) -> (r: Ordering)
    ensures
        r == lex_cmp(a@, b@),
{
    let mut i: usize = 0;
    proof {
        assert(a@.skip(0) =~= a@);
        assert(b@.skip(0) =~= b@);
    }
    while i < a.len() && i < b.len()
        invariant
            i <= a@.len(),
            i <= b@.len(),
            lex_cmp(a@, b@) == lex_cmp(a@.skip(i as int), b@.skip(i as int)),
        decreases a@.len() - i,
    {
        let x = *slice_index_get(a, i);
        let y = *slice_index_get(b, i);
        proof {
            assert(a@.skip(i as int)[0] == a@[i as int]);
            assert(b@.skip(i as int)[0] == b@[i as int]);
        }
        if x < y {
            return Ordering::Less;
        }
        if y < x {
            return Ordering::Greater;
        }
        proof {
            assert(a@.skip(i as int).drop_first() =~= a@.skip(i + 1));
            assert(b@.skip(i as int).drop_first() =~= b@.skip(i + 1));
        }
        i = i + 1;
    }
    proof {
        assert(a@.skip(i as int).len() == a@.len() - i);
        assert(b@.skip(i as int).len() == b@.len() - i);
    }
    if a.len() == b.len() {
        Ordering::Equal
    } else if a.len() < b.len() {
        Ordering::Less
    } else {
        Ordering::Greater
    }
}

impl PartialEq for ByteString {
    /// Two byte strings are equal exactly when their byte sequences are.
    fn eq(&self, other: &ByteString) -> bool {
        bytes_equal(self.0.as_slice(), other.0.as_slice())
    }
}

impl vstd::std_specs::cmp::PartialEqSpecImpl for ByteString {
    open spec fn obeys_eq_spec() -> bool {
        true
    }

    open spec fn eq_spec(&self, other: &ByteString) -> bool {
        self@ == other@
    }
}

impl PartialOrd for ByteString {
    /// Byte strings are totally ordered, lexicographically by byte value.
    fn partial_cmp(&self, other: &ByteString) -> Option<Ordering> {
        Some(compare_bytes(self.0.as_slice(), other.0.as_slice()))
    }
}

impl vstd::std_specs::cmp::PartialOrdSpecImpl for ByteString {
    open spec fn obeys_partial_cmp_spec() -> bool {
        true
    }

    open spec fn partial_cmp_spec(&self, other: &ByteString) -> Option<Ordering> {
        Some(lex_cmp(self@, other@))
    }
}

impl Clone for ByteString {
    /// The clone holds the same bytes.
    fn clone(&self) -> (r: Self)
        ensures
            r@ == self@,
    {
        ByteString(clone_byte_vec(&self.0))
    }
}

/// UTF-8 round trip: the encoding of any character sequence is well-formed
/// UTF-8 and decodes back to the same characters. Together with the
/// contracts of `from_bytes` and `into_utf8_string`, a byte string built
/// from text always converts back to that text unchanged.
pub proof fn lemma_utf8_round_trip(s: Seq<char>)
    ensures
        valid_utf8(encode_utf8(s)),
        decode_utf8(encode_utf8(s)) == s,
{
    vstd::utf8::encode_utf8_valid_utf8(s);
    vstd::utf8::encode_utf8_decode_utf8(s);
}

/// Equality consistency: `==` on byte strings means exactly that the byte
/// sequences are equal, so two buffers built from the same bytes are equal
/// and two built from different bytes are not.
pub proof fn lemma_eq_is_byte_eq(a: &ByteString, b: &ByteString)
    ensures
        a.eq_spec(b) <==> a@ == b@,
{
}

/// Ordering consistency: comparing two byte strings always yields the
/// lexicographic order of their byte sequences.
pub proof fn lemma_cmp_is_lex_cmp(a: &ByteString, b: &ByteString)
    ensures
        a.partial_cmp_spec(b) == Some(lex_cmp(a@, b@)),
{
}

/// The order agrees with equality: two byte sequences compare `Equal`
/// exactly when they are the same sequence.
pub proof fn lemma_lex_cmp_equal_iff(a: Seq<u8>, b: Seq<u8>)
    ensures
        lex_cmp(a, b) == Ordering::Equal <==> a == b,
    decreases a.len(),
{
    if a.len() == 0 && b.len() == 0 {
        assert(a =~= b);
    } else if a.len() != 0 && b.len() != 0 && a[0] == b[0] {
        lemma_lex_cmp_equal_iff(a.drop_first(), b.drop_first());
        if lex_cmp(a, b) == Ordering::Equal {
            assert(a.drop_first() == b.drop_first());
            assert forall|i: int| 0 <= i < a.len() implies a[i] == b[i] by {
                if i > 0 {
                    assert(a[i] == a.drop_first()[i - 1]);
                    assert(b[i] == b.drop_first()[i - 1]);
                }
            }
            assert(a =~= b);
        }
    }
}

/// The order is antisymmetric: swapping the operands swaps `Less` and
/// `Greater`.
pub proof fn lemma_lex_cmp_antisymmetric(a: Seq<u8>, b: Seq<u8>)
    ensures
        lex_cmp(a, b) == Ordering::Less <==> lex_cmp(b, a) == Ordering::Greater,
    decreases a.len(),
{
    if a.len() != 0 && b.len() != 0 && a[0] == b[0] {
        lemma_lex_cmp_antisymmetric(a.drop_first(), b.drop_first());
    }
}

} // verus!
