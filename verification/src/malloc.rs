//! Buffers and strings handed out by the runtime, which the receiver owns
//! and frees when it is done with them.

use vstd::prelude::*;
use vstd::utf8::{decode_utf8, valid_utf8};

verus! {

/// A buffer of `T`s handed out by the runtime.
pub struct MallocBuffer<T> {
    data: Vec<T>,
}

impl<T> View for MallocBuffer<T> {
    type V = Seq<T>;

    closed spec fn view(&self) -> Seq<T> {
        self.data@
    }
}

impl<T> MallocBuffer<T> {
    /// Takes over the buffer `buf`; `None` for a null buffer.
    pub fn new(buf: Option<Vec<T>>) -> (r: Option<MallocBuffer<T>>)
        ensures
            match buf {
                Some(v) => r matches Some(b) && b@ == v@,
                None => r is None,
            },
    {
        match buf {
            Some(data) => Some(MallocBuffer { data }),
            None => None,
        }
    }

    /// The elements of the buffer.
    pub fn as_slice(&self) -> (s: &[T])
        ensures
            s@ == self@,
    {
        self.data.as_slice()
    }

    /// The number of elements of the buffer.
    pub fn len(&self) -> (n: usize)
        ensures
            n == self@.len(),
    {
        self.data.len()
    }
}

/// `String::from_utf8`: the string whose UTF-8 encoding is `bytes`, or
/// `None` where `bytes` is not valid UTF-8. Its documentation promises an
/// error exactly for bytes that are not valid UTF-8, and otherwise a string
/// made of those bytes.
#[verifier::external_body]
fn string_from_utf8(bytes: Vec<u8>) -> (r: Option<String>)
    ensures
        r is Some <==> valid_utf8(bytes@),
        r matches Some(s) ==> s@ == decode_utf8(bytes@),
{
    String::from_utf8(bytes).ok()
}

/// A string handed out by the runtime as its bytes, which must be valid
/// UTF-8.
pub struct MallocString {
    text: String,
}

impl View for MallocString {
    type V = Seq<char>;

    closed spec fn view(&self) -> Seq<char> {
        self.text@
    }
}

impl MallocString {
    /// Takes over the bytes of a C string (without its terminating nul);
    /// `None` for a null string or one that is not valid UTF-8.
    pub fn new(bytes: Option<Vec<u8>>) -> (r: Option<MallocString>)
        ensures
            match bytes {
                Some(b) => {
                    &&& r is Some <==> valid_utf8(b@)
                    &&& r matches Some(s) ==> s@ == decode_utf8(b@)
                },
                None => r is None,
            },
    {
        match bytes {
            Some(b) => match string_from_utf8(b) {
                Some(text) => Some(MallocString { text }),
                None => None,
            },
            None => None,
        }
    }

    /// The string's characters.
    pub fn as_str(&self) -> (s: &str)
        ensures
            s@ == self@,
    {
        self.text.as_str()
    }
}

} // verus!
