//! Objective-C type encodings: the code strings that describe the types
//! of instance variables, method arguments and return values (`i` for an
//! `int`, `@` for an object, `{CustomStruct=QQQQ}` for a structure), and
//! the encodings of Rust types and of argument lists.

use vstd::prelude::*;
use vstd::string::StringExecFns;

verus! {

/// An Objective-C type encoding, held as its code string (for example `"I"`
/// for an `unsigned int` or `"@"` for an object).
#[derive(Clone, Debug)]
pub struct Encoding {
    code: String,
}

impl View for Encoding {
    type V = Seq<char>;

    closed spec fn view(&self) -> Seq<char> {
        self.code@
    }
}

impl Encoding {
    /// Builds an encoding from its code string.
    pub fn from_str(code: &str) -> (e: Encoding)
        ensures
            e@ == code@,
    {
        Encoding { code: code.to_owned() }
    }

    /// The code string of this encoding.
    pub fn as_str(&self) -> (s: &str)
        ensures
            s@ == self@,
    {
        self.code.as_str()
    }

    /// The encoding used for types whose encoding is not known: `"?"`.
    pub fn unknown() -> (e: Encoding)
        ensures
            e@ == seq!['?'],
    {
        proof {
            reveal_strlit("?");
        }
        Encoding::from_str("?")
    }

    /// Whether two encodings have the same code string.
    pub fn same(&self, other: &Encoding) -> (b: bool)
        ensures
            b == (self@ == other@),
    {
        self.code == other.code
    }

    /// Whether this encoding's code string is `s`.
    pub fn is_str(&self, s: &str) -> (b: bool)
        ensures
            b == (self@ == s@),
    {
        let other = s.to_owned();
        self.code == other
    }

    /// The encoding of a struct named `name` whose fields have the given
    /// encodings: `{`, the name, `=`, the fields' codes, then `}`.
    pub fn for_struct(name: &str, fields: &[Encoding]) -> (e: Encoding)
        ensures
            e@ == seq!['{'] + name@ + seq!['='] + concat_codes(encodings_view(fields@)) + seq!['}'],
    {
        let ghost codes = encodings_view(fields@);
        proof {
            reveal_strlit("{");
            reveal_strlit("=");
            reveal_strlit("}");
        }
        let mut s = String::from_str("{");
        s.append(name);
        s.append("=");
        let ghost head = s@;
        assert(head =~= seq!['{'] + name@ + seq!['=']);
        let mut i: usize = 0;
        while i < fields.len()
            invariant
                i <= fields@.len(),
                codes == encodings_view(fields@),
                s@ == head + concat_codes(codes.take(i as int)),
            decreases fields@.len() - i,
        {
            proof {
                assert(codes.take(i + 1).drop_last() =~= codes.take(i as int));
            }
            s.append(fields[i].as_str());
            proof {
                assert(s@ =~= head + concat_codes(codes.take(i + 1)));
            }
            i = i + 1;
        }
        proof {
            assert(codes.take(i as int) =~= codes);
        }
        s.append("}");
        Encoding { code: s }
    }

    /// A copy of this encoding.
    pub fn duplicate(&self) -> (e: Encoding)
        ensures
            e@ == self@,
    {
        Encoding { code: self.code.clone() }
    }
}


impl PartialEq for Encoding {
    fn eq(&self, other: &Encoding) -> (b: bool) {
        self.code == other.code
    }
}

impl vstd::std_specs::cmp::PartialEqSpecImpl for Encoding {
    open spec fn obeys_eq_spec() -> bool {
        true
    }

    open spec fn eq_spec(&self, other: &Encoding) -> bool {
        self@ == other@
    }
}

/// Types that have an Objective-C type encoding.
pub trait Encode {
    /// The code string of the type's encoding.
    spec fn encoding_spec() -> Seq<char>;

    /// Returns the encoding of `Self`.
    fn encode() -> (e: Encoding)
        ensures
            e@ == Self::encoding_spec(),
    ;
}

impl Encode for i8 {
    open spec fn encoding_spec() -> Seq<char> {
        seq!['c']
    }

    fn encode() -> (e: Encoding) {
        proof {
            reveal_strlit("c");
        }
        Encoding::from_str("c")
    }
}

impl Encode for i16 {
    open spec fn encoding_spec() -> Seq<char> {
        seq!['s']
    }

    fn encode() -> (e: Encoding) {
        proof {
            reveal_strlit("s");
        }
        Encoding::from_str("s")
    }
}

impl Encode for i32 {
    open spec fn encoding_spec() -> Seq<char> {
        seq!['i']
    }

    fn encode() -> (e: Encoding) {
        proof {
            reveal_strlit("i");
        }
        Encoding::from_str("i")
    }
}

impl Encode for i64 {
    open spec fn encoding_spec() -> Seq<char> {
        seq!['q']
    }

    fn encode() -> (e: Encoding) {
        proof {
            reveal_strlit("q");
        }
        Encoding::from_str("q")
    }
}

impl Encode for u8 {
    open spec fn encoding_spec() -> Seq<char> {
        seq!['C']
    }

    fn encode() -> (e: Encoding) {
        proof {
            reveal_strlit("C");
        }
        Encoding::from_str("C")
    }
}

impl Encode for u16 {
    open spec fn encoding_spec() -> Seq<char> {
        seq!['S']
    }

    fn encode() -> (e: Encoding) {
        proof {
            reveal_strlit("S");
        }
        Encoding::from_str("S")
    }
}

impl Encode for u32 {
    open spec fn encoding_spec() -> Seq<char> {
        seq!['I']
    }

    fn encode() -> (e: Encoding) {
        proof {
            reveal_strlit("I");
        }
        Encoding::from_str("I")
    }
}

impl Encode for u64 {
    open spec fn encoding_spec() -> Seq<char> {
        seq!['Q']
    }

    fn encode() -> (e: Encoding) {
        proof {
            reveal_strlit("Q");
        }
        Encoding::from_str("Q")
    }
}

impl Encode for bool {
    open spec fn encoding_spec() -> Seq<char> {
        seq!['B']
    }

    fn encode() -> (e: Encoding) {
        proof {
            reveal_strlit("B");
        }
        Encoding::from_str("B")
    }
}

impl Encode for () {
    open spec fn encoding_spec() -> Seq<char> {
        seq!['v']
    }

    fn encode() -> (e: Encoding) {
        proof {
            reveal_strlit("v");
        }
        Encoding::from_str("v")
    }
}

impl Encode for isize {
    open spec fn encoding_spec() -> Seq<char> {
        if usize::BITS == 32 {
            seq!['i']
        } else {
            seq!['q']
        }
    }

    fn encode() -> (e: Encoding) {
        if usize::BITS == 32 {
            proof {
                reveal_strlit("i");
            }
            Encoding::from_str("i")
        } else {
            proof {
                reveal_strlit("q");
            }
            Encoding::from_str("q")
        }
    }
}

impl Encode for usize {
    open spec fn encoding_spec() -> Seq<char> {
        if usize::BITS == 32 {
            seq!['I']
        } else {
            seq!['Q']
        }
    }

    fn encode() -> (e: Encoding) {
        if usize::BITS == 32 {
            proof {
                reveal_strlit("I");
            }
            Encoding::from_str("I")
        } else {
            proof {
                reveal_strlit("Q");
            }
            Encoding::from_str("Q")
        }
    }
}

/// The integer types encode as one character each: `c`, `s`, `i` and `q`
/// for the signed integers of 8, 16, 32 and 64 bits, and for each unsigned
/// integer the upper-case letter of the signed one of its width; `bool` is
/// `B` and `()` is `v`. No two integer types share a code.
pub proof fn lemma_integer_encodings()
    ensures
        i8::encoding_spec() == seq!['c'],
        i16::encoding_spec() == seq!['s'],
        i32::encoding_spec() == seq!['i'],
        i64::encoding_spec() == seq!['q'],
        u8::encoding_spec().len() == 1 && u8::encoding_spec()[0] as u32 + 32 == i8::encoding_spec()[0] as u32,
        u16::encoding_spec().len() == 1 && u16::encoding_spec()[0] as u32 + 32 == i16::encoding_spec()[0] as u32,
        u32::encoding_spec().len() == 1 && u32::encoding_spec()[0] as u32 + 32 == i32::encoding_spec()[0] as u32,
        u64::encoding_spec().len() == 1 && u64::encoding_spec()[0] as u32 + 32 == i64::encoding_spec()[0] as u32,
        bool::encoding_spec() == seq!['B'],
        <()>::encoding_spec() == seq!['v'],
        ({
            let codes = seq![
                i8::encoding_spec(),
                i16::encoding_spec(),
                i32::encoding_spec(),
                i64::encoding_spec(),
                u8::encoding_spec(),
                u16::encoding_spec(),
                u32::encoding_spec(),
                u64::encoding_spec(),
            ];
            forall|a: int, b: int| 0 <= a < b < 8 ==> #[trigger] codes[a] != #[trigger] codes[b]
        }),
{
    let codes = seq![
        i8::encoding_spec(),
        i16::encoding_spec(),
        i32::encoding_spec(),
        i64::encoding_spec(),
        u8::encoding_spec(),
        u16::encoding_spec(),
        u32::encoding_spec(),
        u64::encoding_spec(),
    ];
    assert forall|a: int, b: int| 0 <= a < b < 8 implies #[trigger] codes[a] != #[trigger] codes[b] by {
        assert(codes[a][0] != codes[b][0]);
    }
}

/// `isize` and `usize` encode as the signed and unsigned integers of their
/// own width: `q` and `Q` on a 64-bit target, `i` and `I` on a 32-bit one.
pub proof fn lemma_pointer_sized_encodings()
    ensures
        usize::BITS == 64 ==> isize::encoding_spec() == i64::encoding_spec() && isize::encoding_spec() == seq!['q'],
        usize::BITS == 64 ==> usize::encoding_spec() == u64::encoding_spec() && usize::encoding_spec() == seq!['Q'],
        usize::BITS == 32 ==> isize::encoding_spec() == i32::encoding_spec() && isize::encoding_spec() == seq!['i'],
        usize::BITS == 32 ==> usize::encoding_spec() == u32::encoding_spec() && usize::encoding_spec() == seq!['I'],
{
}

/// Returns the encoding of `T`.
pub fn encode<T: Encode>() -> (e: Encoding)
    ensures
        e@ == T::encoding_spec(),
{
    T::encode()
}

/// Returns the encoding of `T` when `T` has one. Every type that implements
/// `Encode` has one, so the result is always `Some`.
pub fn maybe_encode<T: Encode>() -> (e: Option<Encoding>)
    ensures
        e is Some,
        e.unwrap()@ == T::encoding_spec(),
{
    Some(T::encode())
}

/// The code strings of a sequence of encodings.
pub open spec fn encodings_view(v: Seq<Encoding>) -> Seq<Seq<char>> {
    v.map_values(|e: Encoding| e@)
}

/// The concatenation of a sequence of code strings.
pub open spec fn concat_codes(codes: Seq<Seq<char>>) -> Seq<char>
    decreases codes.len(),
{
    if codes.len() == 0 {
        seq![]
    } else {
        concat_codes(codes.drop_last()) + codes.last()
    }
}

/// Types that represent a group of method arguments, each of which has an
/// Objective-C type encoding.
pub trait EncodeArguments {
    /// The code strings of the arguments' encodings, in order.
    spec fn encodings_spec() -> Seq<Seq<char>>;

    /// Returns the encodings of the arguments, in order.
    fn encodings() -> (v: Vec<Encoding>)
        ensures
            encodings_view(v@) == Self::encodings_spec(),
    ;
}

impl EncodeArguments for () {
    open spec fn encodings_spec() -> Seq<Seq<char>> {
        seq![]
    }

    fn encodings() -> (v: Vec<Encoding>) {
        let v: Vec<Encoding> = Vec::new();
        assert(encodings_view(v@) =~= seq![]);
        v
    }
}

impl<A: Encode> EncodeArguments for (A,) {
    open spec fn encodings_spec() -> Seq<Seq<char>> {
        seq![A::encoding_spec()]
    }

    fn encodings() -> (v: Vec<Encoding>) {
        let mut v: Vec<Encoding> = Vec::new();
        v.push(A::encode());
        assert(encodings_view(v@) =~= Self::encodings_spec());
        v
    }
}

impl<A: Encode, B: Encode> EncodeArguments for (A, B) {
    open spec fn encodings_spec() -> Seq<Seq<char>> {
        seq![A::encoding_spec(), B::encoding_spec()]
    }

    fn encodings() -> (v: Vec<Encoding>) {
        let mut v: Vec<Encoding> = Vec::new();
        v.push(A::encode());
        v.push(B::encode());
        assert(encodings_view(v@) =~= Self::encodings_spec());
        v
    }
}

impl<A: Encode, B: Encode, C: Encode> EncodeArguments for (A, B, C) {
    open spec fn encodings_spec() -> Seq<Seq<char>> {
        seq![A::encoding_spec(), B::encoding_spec(), C::encoding_spec()]
    }

    fn encodings() -> (v: Vec<Encoding>) {
        let mut v: Vec<Encoding> = Vec::new();
        v.push(A::encode());
        v.push(B::encode());
        v.push(C::encode());
        assert(encodings_view(v@) =~= Self::encodings_spec());
        v
    }
}

impl<A: Encode, B: Encode, C: Encode, D: Encode> EncodeArguments for (A, B, C, D) {
    open spec fn encodings_spec() -> Seq<Seq<char>> {
        seq![A::encoding_spec(), B::encoding_spec(), C::encoding_spec(), D::encoding_spec()]
    }

    fn encodings() -> (v: Vec<Encoding>) {
        let mut v: Vec<Encoding> = Vec::new();
        v.push(A::encode());
        v.push(B::encode());
        v.push(C::encode());
        v.push(D::encode());
        assert(encodings_view(v@) =~= Self::encodings_spec());
        v
    }
}

} // verus!
