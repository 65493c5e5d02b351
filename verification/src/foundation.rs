//! Foundation value types: ranges, class names, boxed values, strings and
//! byte buffers.

use vstd::prelude::*;
use std::marker::PhantomData;
use std::ops::Range;
use crate::encode::{Encode, Encoding};
use vstd::utf8::encode_utf8;

verus! {

/// A range of indices: `length` indices starting at `location`.
#[derive(Clone, Copy, Debug, PartialEq, Eq, Structural)]
pub struct NSRange {
    pub location: usize,
    pub length: usize,
}

/// The `NSRange` covering the same indices as `range`.
pub open spec fn range_to_nsrange(range: Range<usize>) -> NSRange {
    NSRange { location: range.start, length: (range.end - range.start) as usize }
}

impl NSRange {
    /// The `NSRange` covering the indices of `range`, which must not end
    /// before it starts.
    pub fn from_range(range: Range<usize>) -> (r: NSRange)
        requires
            range.start <= range.end,
        ensures
            r == range_to_nsrange(range),
            r.location == range.start,
            r.location + r.length == range.end,
    {
        NSRange { location: range.start, length: range.end - range.start }
    }

    /// The `Range` covering the indices of this range, whose end must fit in
    /// a `usize`.
    pub fn as_range(&self) -> (r: Range<usize>)
        requires
            self.location + self.length <= usize::MAX,
        ensures
            r.start == self.location,
            r.end == self.location + self.length,
    {
        Range { start: self.location, end: self.location + self.length }
    }
}

/// Converting a `Range` to an `NSRange` keeps its start and its end, and
/// converting an `NSRange` whose end fits in a `usize` to a `Range` and back
/// gives the same `NSRange`.
pub proof fn lemma_range_roundtrip(range: Range<usize>, r: NSRange)
    requires
        range.start <= range.end,
        r.location + r.length <= usize::MAX,
    ensures
        range_to_nsrange(range).location == range.start,
        range_to_nsrange(range).location + range_to_nsrange(range).length == range.end,
        range_to_nsrange(Range { start: r.location, end: (r.location + r.length) as usize }) == r,
{
}

/// The name of a class, tagged with the type that stands for its instances.
pub struct ClassName<T> {
    name: &'static str,
    phantom: PhantomData<T>,
}

impl<T> View for ClassName<T> {
    type V = Seq<char>;

    closed spec fn view(&self) -> Seq<char> {
        self.name@
    }
}

impl<T> ClassName<T> {
    /// The class name `name`.
    pub fn from_str(name: &'static str) -> (c: ClassName<T>)
        ensures
            c@ == name@,
    {
        ClassName { name, phantom: PhantomData }
    }

    /// The class name as a string.
    pub fn as_str(&self) -> (s: &'static str)
        ensures
            s@ == self@,
    {
        self.name
    }
}

/// A boxed value of type `T`, together with the type encoding it was boxed
/// with.
pub struct NSValue<T: Copy + Encode> {
    value: T,
    encoding: Encoding,
}

impl<T: Copy + Encode> NSValue<T> {
    /// The value held.
    pub closed spec fn held(&self) -> T {
        self.value
    }

    /// The code string of the encoding the value was boxed with.
    pub closed spec fn encoding_spec(&self) -> Seq<char> {
        self.encoding@
    }

    #[verifier::type_invariant]
    closed spec fn inv(&self) -> bool {
        self.encoding@ == T::encoding_spec()
    }

    /// Boxes `value`, with the encoding of `T`.
    pub fn from_value(value: T) -> (v: NSValue<T>)
        ensures
            v.held() == value,
            v.encoding_spec() == T::encoding_spec(),
    {
        NSValue { value, encoding: T::encode() }
    }

    /// The value held.
    pub fn value(&self) -> (v: T)
        ensures
            v == self.held(),
    {
        self.value
    }

    /// The code string of the encoding the value was boxed with: always the
    /// encoding of `T`.
    pub fn encoding(&self) -> (s: &str)
        ensures
            s@ == self.encoding_spec(),
            s@ == T::encoding_spec(),
    {
        proof {
            use_type_invariant(self);
        }
        self.encoding.as_str()
    }
}

/// An immutable string.
pub struct NSString {
    text: String,
}

impl View for NSString {
    type V = Seq<char>;

    closed spec fn view(&self) -> Seq<char> {
        self.text@
    }
}

impl NSString {
    /// A string holding the characters of `string`.
    pub fn from_str(string: &str) -> (s: NSString)
        ensures
            s@ == string@,
    {
        NSString { text: string.to_owned() }
    }

    /// The characters of the string.
    pub fn as_str(&self) -> (s: &str)
        ensures
            s@ == self@,
    {
        self.text.as_str()
    }

    /// The length of the string's UTF-8 encoding, in bytes.
    pub fn len(&self) -> (n: usize)
        ensures
            n == encode_utf8(self@).len() as usize,
    {
        self.text.as_str().len()
    }

    /// Whether this string has the same characters as `other`.
    pub fn is_equal(&self, other: &NSString) -> (b: bool)
        ensures
            b == (self@ == other@),
    {
        self.text == other.text
    }

    /// A copy of the string.
    pub fn copy(&self) -> (s: NSString)
        ensures
            s@ == self@,
    {
        NSString { text: self.text.clone() }
    }
}

/// An immutable buffer of bytes.
pub struct NSData {
    bytes: Vec<u8>,
}

impl View for NSData {
    type V = Seq<u8>;

    closed spec fn view(&self) -> Seq<u8> {
        self.bytes@
    }
}

impl NSData {
    /// A buffer holding a copy of `bytes`.
    pub fn with_bytes(bytes: &[u8]) -> (d: NSData)
        ensures
            d@ == bytes@,
    {
        let mut v: Vec<u8> = Vec::new();
        let mut i: usize = 0;
        while i < bytes.len()
            invariant
                i <= bytes@.len(),
                v@ == bytes@.take(i as int),
            decreases bytes@.len() - i,
        {
            v.push(bytes[i]);
            proof {
                assert(bytes@.take(i + 1) =~= bytes@.take(i as int).push(bytes@[i as int]));
            }
            i = i + 1;
        }
        assert(bytes@.take(i as int) =~= bytes@);
        NSData { bytes: v }
    }

    /// The number of bytes held.
    pub fn len(&self) -> (n: usize)
        ensures
            n == self@.len(),
    {
        self.bytes.len()
    }

    /// The bytes held.
    pub fn bytes(&self) -> (b: &[u8])
        ensures
            b@ == self@,
    {
        self.bytes.as_slice()
    }
}

} // verus!
