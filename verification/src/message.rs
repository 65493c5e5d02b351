//! Sending messages: finding the implementation that a message runs, and
//! verifying that a message's argument and return types match the
//! encodings of the method it reaches.

use vstd::prelude::*;
use vstd::string::StringExecFns;
use crate::text::{decimal, decimal_string};
use crate::encode::{encodings_view, Encode, EncodeArguments, Encoding};
use crate::declare::{method_types, plus_two};
use crate::runtime::{find_method, is_first_method, Class, Method, MethodModel, Object, Receiver, Runtime, RuntimeModel, Sel, Super};

verus! {

/// Why a message failed verification.
#[derive(Debug)]
pub enum VerificationError {
    /// The message was sent to nil.
    NilReceiver(Sel),
    /// The class has no method for the selector.
    MethodNotFound(Class, Sel),
    /// The method (named by its selector) returns the first type, not the
    /// second one, which was given.
    MismatchedReturn(Sel, Encoding, Encoding),
    /// The method accepts the first number of arguments (receiver and
    /// selector included), not the second one, which was given.
    MismatchedArgumentsCount(Sel, usize, usize),
    /// At the given argument index, the method expects the first type, not
    /// the second one, which was given.
    MismatchedArgument(Sel, usize, Encoding, Encoding),
}

/// The text that describes the error `e`, in runtime `m`.
pub open spec fn error_message<I>(e: VerificationError, m: RuntimeModel<I>) -> Seq<char> {
    match e {
        VerificationError::NilReceiver(s) => "Messaging "@ + s@ + " to nil"@,
        VerificationError::MethodNotFound(c, s) => "Method "@ + s@ + " not found on class "@
            + m.classes[c.idx as int].name,
        VerificationError::MismatchedReturn(s, expected, given) => "Return type code "@ + given@
            + " does not match expected "@ + expected@ + " for method "@ + s@,
        VerificationError::MismatchedArgumentsCount(s, expected, given) => "Method "@ + s@ + " accepts "@
            + decimal(expected as nat) + " arguments, but "@ + decimal(given as nat) + " were given"@,
        VerificationError::MismatchedArgument(s, i, expected, given) => "Method "@ + s@
            + " expected argument at index "@ + decimal(i as nat) + " with type code "@ + expected@
            + " but was given "@ + given@,
    }
}

impl VerificationError {
    /// The text that describes this error; a class it names must exist in
    /// `rt`.
    pub fn message<I>(&self, rt: &Runtime<I>) -> (s: String)
        requires
            *self matches VerificationError::MethodNotFound(c, _) ==> rt@.valid_class(c),
        ensures
            s@ == error_message(*self, rt@),
    {
        match self {
            VerificationError::NilReceiver(sel) => {
                let mut s = String::from_str("Messaging ");
                s.append(sel.name());
                s.append(" to nil");
                s
            },
            VerificationError::MethodNotFound(cls, sel) => {
                let mut s = String::from_str("Method ");
                s.append(sel.name());
                s.append(" not found on class ");
                s.append(cls.name(rt));
                s
            },
            VerificationError::MismatchedReturn(sel, expected, given) => {
                let mut s = String::from_str("Return type code ");
                s.append(given.as_str());
                s.append(" does not match expected ");
                s.append(expected.as_str());
                s.append(" for method ");
                s.append(sel.name());
                s
            },
            VerificationError::MismatchedArgumentsCount(sel, expected, given) => {
                let mut s = String::from_str("Method ");
                s.append(sel.name());
                s.append(" accepts ");
                s.append(decimal_string(*expected).as_str());
                s.append(" arguments, but ");
                s.append(decimal_string(*given).as_str());
                s.append(" were given");
                s
            },
            VerificationError::MismatchedArgument(sel, i, expected, given) => {
                let mut s = String::from_str("Method ");
                s.append(sel.name());
                s.append(" expected argument at index ");
                s.append(decimal_string(*i).as_str());
                s.append(" with type code ");
                s.append(expected.as_str());
                s.append(" but was given ");
                s.append(given.as_str());
                s
            },
        }
    }
}

/// An error encountered while sending a message.
#[derive(Debug)]
pub struct MessageError(pub VerificationError);

impl MessageError {
    /// The text that describes this error; a class it names must exist in
    /// `rt`.
    pub fn message<I>(&self, rt: &Runtime<I>) -> (s: String)
        requires
            self.0 matches VerificationError::MethodNotFound(c, _) ==> rt@.valid_class(c),
        ensures
            s@ == error_message(self.0, rt@),
    {
        self.0.message(rt)
    }
}

/// Whether a given argument encoding fits the expected one: an argument of
/// unknown encoding fits anything.
pub open spec fn arg_fits(arg: Option<Encoding>, expected: Seq<char>) -> bool {
    match arg {
        Some(a) => a@ == expected,
        None => true,
    }
}

/// Whether `j` is the first of the given arguments that does not fit the
/// method's types (`types` holds the return type, the receiver and the
/// selector before the other arguments).
pub open spec fn is_first_mismatch(types: Seq<Seq<char>>, args: Seq<Option<Encoding>>, j: int) -> bool {
    &&& 0 <= j < args.len()
    &&& j + 3 < types.len()
    &&& !arg_fits(args[j], types[j + 3])
    &&& forall|k: int| 0 <= k < j && k + 3 < types.len() ==> arg_fits(#[trigger] args[k], types[k + 3])
}

/// Whether some argument does not fit the method's types.
pub open spec fn has_mismatch(types: Seq<Seq<char>>, args: Seq<Option<Encoding>>) -> bool {
    exists|j: int| 0 <= j < args.len() && j + 3 < types.len() && !arg_fits(#[trigger] args[j], types[j + 3])
}

/// Whether a method with the given types accepts a message with the given
/// argument encodings and return encoding.
pub open spec fn signature_matches(types: Seq<Seq<char>>, args: Seq<Seq<char>>, ret: Seq<char>) -> bool {
    &&& types.len() == args.len() + 3
    &&& types[0] == ret
    &&& forall|j: int| 0 <= j < args.len() ==> #[trigger] types[j + 3] == args[j]
}

/// The method that a message sent to `r` with selector `sel` reaches.
pub open spec fn target_method<I>(m: RuntimeModel<I>, r: Receiver, sel: Seq<char>) -> Option<
    MethodModel<I>,
> {
    match m.lookup_method(m.dispatch_class(r), sel) {
        Some(found) => Some(m.method_at(found)),
        None => None,
    }
}

/// The method of class `c` (or of its superclasses) for selector `sel`.
pub open spec fn class_method<I>(m: RuntimeModel<I>, c: Class, sel: Seq<char>) -> Option<MethodModel<I>> {
    match m.lookup_method(c.idx as int, sel) {
        Some(found) => Some(m.method_at(found)),
        None => None,
    }
}

/// Checks that `method` returns the type encoded by `ret`; an unknown
/// return encoding is accepted.
pub fn verify_return<I>(method: &Method<I>, ret: Option<Encoding>) -> (r: Result<(), VerificationError>)
    ensures
        match ret {
            Some(e) => if e@ == method@.types[0] {
                r is Ok
            } else {
                r matches Err(VerificationError::MismatchedReturn(s, expected, given)) && s@ == method@.name
                    && expected@ == method@.types[0] && given@ == e@
            },
            None => r is Ok,
        },
{
    let expected = method.return_type();
    match ret {
        Some(ret) => {
            if !ret.same(expected) {
                Err(VerificationError::MismatchedReturn(method.name().duplicate(), expected.duplicate(), ret))
            } else {
                Ok(())
            }
        },
        None => Ok(()),
    }
}

/// Checks that `args` fit the arguments of `method` that follow the receiver
/// and the selector, and that there are as many of them.
pub fn verify_arguments<I>(method: &Method<I>, args: &[Option<Encoding>]) -> (r: Result<
    (),
    VerificationError,
>)
    requires
        method@.types.len() >= 3,
    ensures
        has_mismatch(method@.types, args@) ==> exists|j: int|
            #[trigger] is_first_mismatch(method@.types, args@, j) && (r matches Err(e) && mismatch_error(
                e,
                method@.name,
                method@.types,
                args@[j].unwrap()@,
                j,
            )),
        !has_mismatch(method@.types, args@) && args@.len() + 3 != method@.types.len() ==> (r matches Err(
            VerificationError::MismatchedArgumentsCount(s, expected, n),
        ) && s@ == method@.name && expected == method@.types.len() - 1 && n == plus_two(args@.len())),
        !has_mismatch(method@.types, args@) && args@.len() + 3 == method@.types.len() ==> r is Ok,
{
    let expected_count = method.arguments_count();
    let mut j: usize = 0;
    while j < args.len()
        invariant
            j <= args@.len(),
            expected_count == method@.types.len() - 1,
            method@.types.len() >= 3,
            forall|k: int| 0 <= k < j && k + 3 < method@.types.len() ==> arg_fits(#[trigger] args@[k], method@.types[k + 3]),
        decreases args@.len() - j,
    {
        if j < expected_count - 2 {
            match (&args[j], method.argument_type(j + 2)) {
                (Some(arg), Some(expected)) => {
                    if !arg.same(expected) {
                        proof {
                            assert(is_first_mismatch(method@.types, args@, j as int));
                        }
                        return Err(
                            VerificationError::MismatchedArgument(
                                method.name().duplicate(),
                                j + 2,
                                expected.duplicate(),
                                arg.duplicate(),
                            ),
                        );
                    }
                },
                _ => {},
            }
        }
        j = j + 1;
    }
    proof {
        if has_mismatch(method@.types, args@) {
            let k = choose|k: int| 0 <= k < args@.len() && k + 3 < method@.types.len() && !arg_fits(#[trigger] args@[k], method@.types[k + 3]);
            assert(arg_fits(args@[k], method@.types[k + 3]));
        }
    }
    let given = args.len().saturating_add(2);
    if given == expected_count {
        Ok(())
    } else {
        Err(VerificationError::MismatchedArgumentsCount(method.name().duplicate(), expected_count, given))
    }
}

/// Finds the method of `cls` (or of its superclasses) for selector `sel`.
pub fn verify_selector<'a, I>(rt: &'a Runtime<I>, cls: Class, sel: &Sel) -> (r: Result<&'a Method<I>, VerificationError>)
    requires
        rt@.wf(),
        rt@.valid_class(cls),
    ensures
        match class_method(rt@, cls, sel@) {
            Some(m) => r is Ok && r.unwrap()@ == m,
            None => r matches Err(VerificationError::MethodNotFound(c, s)) && c == cls && s@ == sel@,
        },
{
    match cls.instance_method(rt, sel) {
        Some(method) => Ok(method),
        None => Err(VerificationError::MethodNotFound(cls, sel.duplicate())),
    }
}

/// The given encodings, each known.
fn known_encodings(encs: &Vec<Encoding>) -> (r: Vec<Option<Encoding>>)
    ensures
        r@.len() == encs@.len(),
        forall|i: int| 0 <= i < r@.len() ==> (#[trigger] r@[i]) is Some && r@[i].unwrap()@ == encs@[i]@,
{
    let mut r: Vec<Option<Encoding>> = Vec::new();
    let mut i: usize = 0;
    while i < encs.len()
        invariant
            i <= encs@.len(),
            r@.len() == i,
            forall|k: int| 0 <= k < r@.len() ==> (#[trigger] r@[k]) is Some && r@[k].unwrap()@ == encs@[k]@,
        decreases encs@.len() - i,
    {
        r.push(Some(encs[i].duplicate()));
        i = i + 1;
    }
    r
}

/// Whether `e` reports that the argument at index `j + 2` (counting the
/// receiver and the selector) of the method named `name` with types `types`
/// was given the type `given`.
pub open spec fn mismatch_error(e: VerificationError, name: Seq<char>, types: Seq<Seq<char>>, given: Seq<char>, j: int) -> bool {
    e matches VerificationError::MismatchedArgument(s, i, expected, g) && s@ == name && i == j + 2 && expected@
        == types[j + 3] && g@ == given
}

/// Whether `j` is the first of the argument types `args` that differs from
/// the type the method expects there (`types` holds the return type, the
/// receiver and the selector before the other arguments).
pub open spec fn is_first_code_mismatch(types: Seq<Seq<char>>, args: Seq<Seq<char>>, j: int) -> bool {
    &&& 0 <= j < args.len()
    &&& j + 3 < types.len()
    &&& types[j + 3] != args[j]
    &&& forall|k: int| 0 <= k < j && k + 3 < types.len() ==> #[trigger] types[k + 3] == args[k]
}

/// Whether some argument type of `args` differs from the type the method
/// expects there.
pub open spec fn has_code_mismatch(types: Seq<Seq<char>>, args: Seq<Seq<char>>) -> bool {
    exists|j: int| 0 <= j < args.len() && j + 3 < types.len() && #[trigger] types[j + 3] != args[j]
}

/// Whether `e` is the error that verifying a message with argument types
/// `args` and return type `ret` against the method named `name` with types
/// `types` gives: a mismatched return type first, then the first
/// mismatched argument, then a mismatched number of arguments.
pub open spec fn is_signature_error(
    e: VerificationError,
    name: Seq<char>,
    types: Seq<Seq<char>>,
    args: Seq<Seq<char>>,
    ret: Seq<char>,
) -> bool {
    if types[0] != ret {
        e matches VerificationError::MismatchedReturn(s, expected, given) && s@ == name && expected@ == types[0]
            && given@ == ret
    } else if has_code_mismatch(types, args) {
        exists|j: int| #[trigger] is_first_code_mismatch(types, args, j) && mismatch_error(e, name, types, args[j], j)
    } else {
        e matches VerificationError::MismatchedArgumentsCount(s, expected, given) && s@ == name && expected
            == types.len() - 1 && given == plus_two(args.len())
    }
}

/// Verifies that the method that class `cls` has for selector `sel`
/// accepts arguments of the types `A` and returns the type `R`.
pub fn verify_message_signature<A: EncodeArguments, R: Encode, I>(rt: &Runtime<I>, cls: Class, sel: &Sel) -> (r: Result<(), MessageError>)
    requires
        rt@.wf(),
        rt@.valid_class(cls),
    ensures
        match class_method(rt@, cls, sel@) {
            None => r matches Err(MessageError(VerificationError::MethodNotFound(c, s))) && c == cls && s@ == sel@,
            Some(m) => if signature_matches(m.types, A::encodings_spec(), R::encoding_spec()) {
                r is Ok
            } else {
                r matches Err(MessageError(e)) && is_signature_error(
                    e,
                    sel@,
                    m.types,
                    A::encodings_spec(),
                    R::encoding_spec(),
                )
            },
        },
{
    let method = match verify_selector(rt, cls, sel) {
        Ok(m) => m,
        Err(e) => {
            return Err(MessageError(e));
        },
    };
    proof {
        let found = rt@.lookup_method(cls.idx as int, sel@).unwrap();
        crate::runtime::lemma_lookup_method_found(rt@, cls.idx as int, sel@);
        lemma_method_types(rt@, found);
    }
    match verify_return(method, Some(R::encode())) {
        Ok(()) => {},
        Err(e) => {
            return Err(MessageError(e));
        },
    }
    let encs = A::encodings();
    let args = known_encodings(&encs);
    let res = verify_arguments(method, args.as_slice());
    proof {
        let types = method@.types;
        let want = A::encodings_spec();
        assert(encodings_view(encs@) == want);
        assert(args@.len() == want.len());
        assert forall|j: int| 0 <= j < want.len() implies args@[j] is Some && args@[j].unwrap()@ == #[trigger] want[j] by {
            assert(encodings_view(encs@)[j] == encs@[j]@);
        }
        assert forall|j: int| 0 <= j < want.len() implies (arg_fits(#[trigger] args@[j], types[j + 3]) <==> types[j + 3]
            == want[j]) by {
            assert(args@[j] is Some && args@[j].unwrap()@ == want[j]);
        }
        assert(has_mismatch(types, args@) == has_code_mismatch(types, want)) by {
            if has_mismatch(types, args@) {
                let j = choose|j: int| 0 <= j < args@.len() && j + 3 < types.len() && !arg_fits(#[trigger] args@[j], types[j + 3]);
                assert(types[j + 3] != want[j]);
            }
            if has_code_mismatch(types, want) {
                let j = choose|j: int| 0 <= j < want.len() && j + 3 < types.len() && #[trigger] types[j + 3] != want[j];
                assert(!arg_fits(args@[j], types[j + 3]));
            }
        }
        assert forall|j: int| is_first_mismatch(types, args@, j) implies is_first_code_mismatch(types, want, j) by {
            assert forall|k: int| 0 <= k < j && k + 3 < types.len() implies #[trigger] types[k + 3] == want[k] by {
                assert(arg_fits(args@[k], types[k + 3]));
            }
            assert(!arg_fits(args@[j], types[j + 3]));
        }
        if signature_matches(types, want, R::encoding_spec()) {
            assert(!has_code_mismatch(types, want)) by {
                if has_code_mismatch(types, want) {
                    let j = choose|j: int| 0 <= j < want.len() && j + 3 < types.len() && #[trigger] types[j + 3] != want[j];
                    assert(types[j + 3] == want[j]);
                }
            }
        } else if types[0] == R::encoding_spec() && has_code_mismatch(types, want) {
            let j = choose|j: int| #[trigger] is_first_mismatch(types, args@, j) && (res matches Err(e)
                && mismatch_error(e, method@.name, types, args@[j].unwrap()@, j));
            assert(is_first_code_mismatch(types, want, j));
            assert(args@[j].unwrap()@ == want[j]);
        } else if !has_code_mismatch(types, want) && types.len() == want.len() + 3 {
            assert forall|j: int| 0 <= j < want.len() implies #[trigger] types[j + 3] == want[j] by {
                if types[j + 3] != want[j] {
                    assert(has_code_mismatch(types, want));
                }
            }
            assert(signature_matches(types, want, R::encoding_spec()));
        }
    }
    match res {
        Ok(()) => Ok(()),
        Err(e) => Err(MessageError(e)),
    }
}

/// Every method in a well-formed runtime has a return type, a receiver
/// and a selector.
proof fn lemma_method_types<I>(m: RuntimeModel<I>, found: (int, int))
    requires
        m.wf(),
        0 <= found.0 < m.classes.len(),
        0 <= found.1 < m.classes[found.0].methods.len(),
    ensures
        m.method_at(found).types.len() >= 3,
{
    assert(m.class_wf(found.0));
}

/// Looking up a method depends only on the classes, and only on class `c`
/// and the classes before it; the method found belongs to one of those.
proof fn lemma_lookup_method_unchanged<I>(m1: RuntimeModel<I>, m2: RuntimeModel<I>, c: int, bound: int, sel: Seq<char>)
    requires
        m1.classes.len() == m2.classes.len(),
        c <= bound,
        forall|k: int| 0 <= k <= bound && k < m1.classes.len() ==> #[trigger] m1.classes[k] == m2.classes[k],
    ensures
        m1.lookup_method(c, sel) == m2.lookup_method(c, sel),
        m1.lookup_method(c, sel) matches Some(f) ==> 0 <= f.0 <= c,
    decreases c,
{
    if 0 <= c < m1.classes.len() {
        assert(m1.classes[c] == m2.classes[c]);
        match m1.classes[c].superclass {
            Some(p) => {
                if p < c {
                    lemma_lookup_method_unchanged(m1, m2, p as int, bound, sel);
                }
            },
            None => {},
        }
    }
}

/// Appending a method with another selector to a list of methods does not
/// change which method the selector finds.
proof fn lemma_find_method_push_other<I>(ms: Seq<MethodModel<I>>, mm: MethodModel<I>, sel: Seq<char>)
    requires
        sel != mm.name,
    ensures
        find_method(ms.push(mm), sel) == find_method(ms, sel),
{
    let ms2 = ms.push(mm);
    crate::runtime::lemma_find_method(ms, sel);
    crate::runtime::lemma_find_method(ms2, sel);
    match find_method(ms2, sel) {
        Some(k) => {
            assert(k < ms.len());
            assert(ms2[k] == ms[k]);
            match find_method(ms, sel) {
                Some(i) => {
                    if i < k {
                        assert(ms2[i] == ms[i]);
                    } else if k < i {
                        assert(ms[k].name == sel);
                    }
                },
                None => {
                    assert(ms[k].name == sel);
                },
            }
        },
        None => {
            match find_method(ms, sel) {
                Some(i) => {
                    assert(ms2[i] == ms[i]);
                },
                None => {},
            }
        },
    }
}

/// Once a method is added to a class that had none with its selector, a
/// message with that selector sent to an instance of the class runs it,
/// overriding any method of a superclass; messages with other selectors
/// reach what they reached before; and messages dispatched from any class
/// that precedes it, such as its superclasses, are not affected.
pub proof fn lemma_added_method_dispatch<I>(m: RuntimeModel<I>, c: Class, mm: MethodModel<I>)
    requires
        m.wf(),
        m.valid_class(c),
        find_method(m.classes[c.idx as int].methods, mm.name) is None,
    ensures
        class_method(m.with_method(c, mm), c, mm.name) == Some(mm),
        forall|sel: Seq<char>| sel != mm.name ==> #[trigger] class_method(m.with_method(c, mm), c, sel)
            == class_method(m, c, sel),
        forall|d: Class, sel: Seq<char>| d.idx < c.idx ==> #[trigger] class_method(m.with_method(c, mm), d, sel)
            == class_method(m, d, sel),
{
    let m2 = m.with_method(c, mm);
    let ci = c.idx as int;
    let ms = m.classes[ci].methods;
    let ms2 = ms.push(mm);
    assert(m2.classes[ci].methods == ms2);
    crate::runtime::lemma_find_method(ms, mm.name);
    crate::runtime::lemma_find_method(ms2, mm.name);
    assert(is_first_method(ms2, mm.name, ms.len() as int));
    match find_method(ms2, mm.name) {
        Some(i) => {
            if i != ms.len() {
                assert(ms2[i] == ms[i]);
            }
        },
        None => {},
    }
    assert forall|sel: Seq<char>| sel != mm.name implies #[trigger] class_method(m2, c, sel) == class_method(m, c, sel) by {
        lemma_find_method_push_other(ms, mm, sel);
        crate::runtime::lemma_find_method(ms, sel);
        match find_method(ms, sel) {
            Some(i) => {
                assert(ms2[i] == ms[i]);
            },
            None => {
                assert(m2.classes[ci].superclass == m.classes[ci].superclass);
                match m.classes[ci].superclass {
                    Some(p) => {
                        if p < ci {
                            assert forall|k: int| 0 <= k <= p && k < m.classes.len() implies #[trigger] m.classes[k]
                                == m2.classes[k] by {
                            }
                            lemma_lookup_method_unchanged(m, m2, p as int, p as int, sel);
                        }
                    },
                    None => {},
                }
            },
        }
    }
    assert forall|d: Class, sel: Seq<char>| d.idx < c.idx implies #[trigger] class_method(m2, d, sel) == class_method(
        m,
        d,
        sel,
    ) by {
        assert forall|k: int| 0 <= k <= d.idx && k < m.classes.len() implies #[trigger] m.classes[k] == m2.classes[k] by {
        }
        lemma_lookup_method_unchanged(m, m2, d.idx as int, d.idx as int, sel);
    }
}

/// A method declared with return type `ret` and
/// argument types `args` accepts exactly the messages with arguments of the
/// types `args` that return the type `ret`.
pub proof fn lemma_declared_signature_matches(
    ret: Seq<char>,
    args: Seq<Seq<char>>,
    given_args: Seq<Seq<char>>,
    given_ret: Seq<char>,
)
    ensures
        signature_matches(method_types(ret, args), given_args, given_ret) <==> (given_args == args && given_ret
            == ret),
{
    let types = method_types(ret, args);
    assert(types.len() == args.len() + 3);
    assert(types[0] == ret);
    assert forall|j: int| 0 <= j < args.len() implies #[trigger] types[j + 3] == args[j] by {
    }
    if signature_matches(types, given_args, given_ret) {
        assert forall|j: int| 0 <= j < args.len() implies given_args[j] == args[j] by {
            assert(types[j + 3] == args[j]);
            assert(types[j + 3] == given_args[j]);
        }
        assert(given_args =~= args);
    }
}

/// Which method a selector finds depends only on the methods' names.
proof fn lemma_find_method_same_names<I>(ms1: Seq<MethodModel<I>>, ms2: Seq<MethodModel<I>>, sel: Seq<char>)
    requires
        ms1.len() == ms2.len(),
        forall|i: int| 0 <= i < ms1.len() ==> #[trigger] ms1[i].name == ms2[i].name,
    ensures
        find_method(ms1, sel) == find_method(ms2, sel),
{
    crate::runtime::lemma_find_method(ms1, sel);
    crate::runtime::lemma_find_method(ms2, sel);
    match find_method(ms1, sel) {
        Some(i) => {
            assert(ms2[i].name == ms1[i].name);
            match find_method(ms2, sel) {
                Some(k) => {
                    assert(ms1[k].name == ms2[k].name);
                },
                None => {},
            }
        },
        None => {
            match find_method(ms2, sel) {
                Some(k) => {
                    assert(ms1[k].name == ms2[k].name);
                },
                None => {},
            }
        },
    }
}

/// Lookups give the same positions in runtimes whose methods have the same
/// names.
proof fn lemma_lookup_method_same_names<I>(m1: RuntimeModel<I>, m2: RuntimeModel<I>, c: int, sel: Seq<char>)
    requires
        crate::runtime::same_but_implementations(m1, m2),
    ensures
        m1.lookup_method(c, sel) == m2.lookup_method(c, sel),
    decreases c,
{
    if 0 <= c < m1.classes.len() {
        assert(m2.classes[c].methods.len() == m1.classes[c].methods.len());
        assert forall|i: int| 0 <= i < m1.classes[c].methods.len() implies #[trigger] m1.classes[c].methods[i].name
            == m2.classes[c].methods[i].name by {
            assert(m2.classes[c].methods[i].name == m1.classes[c].methods[i].name);
        }
        lemma_find_method_same_names(m1.classes[c].methods, m2.classes[c].methods, sel);
        match m1.classes[c].superclass {
            Some(p) => {
                if p < c {
                    lemma_lookup_method_same_names(m1, m2, p as int, sel);
                }
            },
            None => {},
        }
    }
}

/// Once the implementation of the method that a message reaches has been
/// replaced, the message reaches the same method, now with the new
/// implementation; every message reaches the method (by position) that it
/// reached before.
pub proof fn lemma_set_implementation_dispatch<I>(m: RuntimeModel<I>, c: Class, sel: Seq<char>, imp: I)
    requires
        m.wf(),
        m.valid_class(c),
        m.lookup_method(c.idx as int, sel) is Some,
    ensures
        ({
            let found = m.lookup_method(c.idx as int, sel).unwrap();
            let m2 = m.with_implementation(found, imp);
            &&& class_method(m2, c, sel) == Some(MethodModel { imp: imp, ..m.method_at(found) })
            &&& forall|d: int, s: Seq<char>| #[trigger] m2.lookup_method(d, s) == m.lookup_method(d, s)
        }),
{
    let found = m.lookup_method(c.idx as int, sel).unwrap();
    let m2 = m.with_implementation(found, imp);
    crate::runtime::lemma_lookup_method_found(m, c.idx as int, sel);
    assert(crate::runtime::same_but_implementations(m, m2)) by {
        assert forall|k: int| 0 <= k < m.classes.len() implies m2.classes[k].methods.len() == m.classes[k].methods.len()
            by {
        }
    }
    assert forall|d: int, s: Seq<char>| #[trigger] m2.lookup_method(d, s) == m.lookup_method(d, s) by {
        lemma_lookup_method_same_names(m, m2, d, s);
    }
    lemma_lookup_method_same_names(m, m2, c.idx as int, sel);
}

/// Types that may be sent Objective-C messages: objects and classes.
pub trait Message {
    /// The receiver that messages sent to `self` go to.
    spec fn receiver_spec(&self) -> Receiver;

    /// The receiver that messages sent to `self` go to.
    fn receiver(&self) -> (r: Receiver)
        ensures
            r == self.receiver_spec(),
    ;

    /// Verifies that the method that `self` runs for selector `sel` accepts
    /// arguments of the types `A` and returns the type `R`.
    fn verify_message<A: EncodeArguments, R: Encode, I>(&self, rt: &Runtime<I>, sel: &Sel) -> (r: Result<
        (),
        MessageError,
    >)
        requires
            rt@.wf(),
            rt@.valid_receiver(self.receiver_spec()),
        ensures
            match target_method(rt@, self.receiver_spec(), sel@) {
                None => r matches Err(MessageError(VerificationError::MethodNotFound(c, s))) && c.idx
                    == rt@.dispatch_class(self.receiver_spec()) && s@ == sel@,
                Some(m) => if signature_matches(m.types, A::encodings_spec(), R::encoding_spec()) {
                    r is Ok
                } else {
                    r matches Err(MessageError(e)) && is_signature_error(
                        e,
                        sel@,
                        m.types,
                        A::encodings_spec(),
                        R::encoding_spec(),
                    )
                },
            },
    {
        let cls = self.receiver().dispatch_class(rt);
        verify_message_signature::<A, R, I>(rt, cls, sel)
    }
}

impl Message for Object {
    open spec fn receiver_spec(&self) -> Receiver {
        Receiver::Instance(*self)
    }

    fn receiver(&self) -> (r: Receiver) {
        Receiver::Instance(*self)
    }
}

impl Message for Class {
    open spec fn receiver_spec(&self) -> Receiver {
        Receiver::ClassObject(*self)
    }

    fn receiver(&self) -> (r: Receiver) {
        Receiver::ClassObject(*self)
    }
}

/// Types that can be converted to a message receiver, or to nil.
pub trait ToMessage {
    /// The receiver `self` stands for, or `None` for nil.
    spec fn id_spec(&self) -> Option<Receiver>;

    /// The receiver `self` stands for, or `None` for nil.
    fn as_id_ptr(&self) -> (r: Option<Receiver>)
        ensures
            r == self.id_spec(),
    ;

    /// Whether `self` is nil.
    fn is_nil(&self) -> (b: bool)
        ensures
            b == (self.id_spec() is None),
    {
        self.as_id_ptr().is_none()
    }
}

impl ToMessage for Object {
    open spec fn id_spec(&self) -> Option<Receiver> {
        Some(Receiver::Instance(*self))
    }

    fn as_id_ptr(&self) -> (r: Option<Receiver>) {
        Some(Receiver::Instance(*self))
    }
}

impl ToMessage for Class {
    open spec fn id_spec(&self) -> Option<Receiver> {
        Some(Receiver::ClassObject(*self))
    }

    fn as_id_ptr(&self) -> (r: Option<Receiver>) {
        Some(Receiver::ClassObject(*self))
    }
}

impl ToMessage for Receiver {
    open spec fn id_spec(&self) -> Option<Receiver> {
        Some(*self)
    }

    fn as_id_ptr(&self) -> (r: Option<Receiver>) {
        Some(*self)
    }
}

impl ToMessage for Option<Object> {
    open spec fn id_spec(&self) -> Option<Receiver> {
        match *self {
            Some(o) => Some(Receiver::Instance(o)),
            None => None,
        }
    }

    fn as_id_ptr(&self) -> (r: Option<Receiver>) {
        match *self {
            Some(o) => Some(Receiver::Instance(o)),
            None => None,
        }
    }
}

impl ToMessage for Option<Receiver> {
    open spec fn id_spec(&self) -> Option<Receiver> {
        *self
    }

    fn as_id_ptr(&self) -> (r: Option<Receiver>) {
        *self
    }
}

/// Finds the implementation that a message with selector `sel` sent to `r`
/// runs, with the receiver it runs on. Fails when no method is found, as
/// the runtime does for an unrecognized selector.
pub fn msg_send_fn<'a, I>(rt: &'a Runtime<I>, r: Receiver, sel: &Sel) -> (res: Result<(&'a I, Receiver), MessageError>)
    requires
        rt@.wf(),
        rt@.valid_receiver(r),
    ensures
        match target_method(rt@, r, sel@) {
            Some(m) => res matches Ok((imp, recv)) && *imp == m.imp && recv == r,
            None => res matches Err(MessageError(VerificationError::MethodNotFound(c, s))) && c.idx
                == rt@.dispatch_class(r) && s@ == sel@,
        },
{
    let cls = r.dispatch_class(rt);
    match cls.instance_method(rt, sel) {
        Some(method) => Ok((method.implementation(), r)),
        None => Err(MessageError(VerificationError::MethodNotFound(cls, sel.duplicate()))),
    }
}

/// Finds the implementation that a message with selector `sel` sent to
/// `super` runs: the method of `sup.superclass` (or of its superclasses),
/// run on `sup.receiver`.
pub fn msg_send_super_fn<'a, I>(rt: &'a Runtime<I>, sup: &Super, sel: &Sel) -> (res: Result<(&'a I, Receiver), MessageError>)
    requires
        rt@.wf(),
        rt@.valid_class(sup.superclass),
    ensures
        match class_method(rt@, sup.superclass, sel@) {
            Some(m) => res matches Ok((imp, recv)) && *imp == m.imp && recv == sup.receiver,
            None => res matches Err(MessageError(VerificationError::MethodNotFound(c, s))) && c
                == sup.superclass && s@ == sel@,
        },
{
    match sup.superclass.instance_method(rt, sel) {
        Some(method) => Ok((method.implementation(), sup.receiver)),
        None => Err(MessageError(VerificationError::MethodNotFound(sup.superclass, sel.duplicate()))),
    }
}

/// Sends a message with selector `sel` to `obj`: gives the implementation
/// to run and its receiver, or `None` when `obj` is nil (a message to nil
/// does nothing and returns zero).
pub fn send_message<'a, I, T: ToMessage>(rt: &'a Runtime<I>, obj: &T, sel: &Sel) -> (res: Result<
    Option<(&'a I, Receiver)>,
    MessageError,
>)
    requires
        rt@.wf(),
        obj.id_spec() matches Some(r) ==> rt@.valid_receiver(r),
    ensures
        match obj.id_spec() {
            None => res matches Ok(None),
            Some(r) => match target_method(rt@, r, sel@) {
                Some(m) => res matches Ok(Some((imp, recv))) && *imp == m.imp && recv == r,
                None => res matches Err(MessageError(VerificationError::MethodNotFound(c, s)))
                    && c.idx == rt@.dispatch_class(r) && s@ == sel@,
            },
        },
{
    match obj.as_id_ptr() {
        None => Ok(None),
        Some(r) => match msg_send_fn(rt, r, sel) {
            Ok(found) => Ok(Some(found)),
            Err(e) => Err(e),
        },
    }
}

/// Sends a message with selector `sel` to `obj` after verifying that the
/// method it reaches accepts arguments of the types `A` and returns the
/// type `R`; a message to nil is an error.
pub fn send_message_verified<'a, A: EncodeArguments, R: Encode, I, T: ToMessage>(
    rt: &'a Runtime<I>,
    obj: &T,
    sel: &Sel,
) -> (res: Result<(&'a I, Receiver), MessageError>)
    requires
        rt@.wf(),
        obj.id_spec() matches Some(r) ==> rt@.valid_receiver(r),
    ensures
        match obj.id_spec() {
            None => res matches Err(MessageError(VerificationError::NilReceiver(s))) && s@ == sel@,
            Some(r) => match target_method(rt@, r, sel@) {
                Some(m) => if signature_matches(m.types, A::encodings_spec(), R::encoding_spec()) {
                    res matches Ok((imp, recv)) && *imp == m.imp && recv == r
                } else {
                    res matches Err(MessageError(e)) && is_signature_error(
                        e,
                        sel@,
                        m.types,
                        A::encodings_spec(),
                        R::encoding_spec(),
                    )
                },
                None => res matches Err(MessageError(VerificationError::MethodNotFound(c, s)))
                    && c.idx == rt@.dispatch_class(r) && s@ == sel@,
            },
        },
{
    match obj.as_id_ptr() {
        None => Err(MessageError(VerificationError::NilReceiver(sel.duplicate()))),
        Some(r) => {
            let cls = r.dispatch_class(rt);
            match verify_message_signature::<A, R, I>(rt, cls, sel) {
                Ok(()) => msg_send_fn(rt, r, sel),
                Err(e) => Err(e),
            }
        },
    }
}

/// Sends a message with selector `sel` to `obj`, running the
/// implementation of `superclass` (or of its superclasses); `None` when
/// `obj` is nil.
pub fn send_super_message<'a, I, T: ToMessage>(
    rt: &'a Runtime<I>,
    obj: &T,
    superclass: Class,
    sel: &Sel,
) -> (res: Result<Option<(&'a I, Receiver)>, MessageError>)
    requires
        rt@.wf(),
        rt@.valid_class(superclass),
    ensures
        match obj.id_spec() {
            None => res matches Ok(None),
            Some(r) => match class_method(rt@, superclass, sel@) {
                Some(m) => res matches Ok(Some((imp, recv))) && *imp == m.imp && recv == r,
                None => res matches Err(MessageError(VerificationError::MethodNotFound(c, s)))
                    && c == superclass && s@ == sel@,
            },
        },
{
    match obj.as_id_ptr() {
        None => Ok(None),
        Some(r) => {
            let sup = Super { receiver: r, superclass };
            match msg_send_super_fn(rt, &sup, sel) {
                Ok(found) => Ok(Some(found)),
                Err(e) => Err(e),
            }
        },
    }
}

/// Sends a message with selector `sel` to `obj`, running the
/// implementation of `superclass`, after verifying that it accepts
/// arguments of the types `A` and returns the type `R`; a message to nil is
/// an error.
pub fn send_super_message_verified<'a, A: EncodeArguments, R: Encode, I, T: ToMessage>(
    rt: &'a Runtime<I>,
    obj: &T,
    superclass: Class,
    sel: &Sel,
) -> (res: Result<(&'a I, Receiver), MessageError>)
    requires
        rt@.wf(),
        rt@.valid_class(superclass),
    ensures
        match obj.id_spec() {
            None => res matches Err(MessageError(VerificationError::NilReceiver(s))) && s@ == sel@,
            Some(r) => match class_method(rt@, superclass, sel@) {
                Some(m) => if signature_matches(m.types, A::encodings_spec(), R::encoding_spec()) {
                    res matches Ok((imp, recv)) && *imp == m.imp && recv == r
                } else {
                    res matches Err(MessageError(e)) && is_signature_error(
                        e,
                        sel@,
                        m.types,
                        A::encodings_spec(),
                        R::encoding_spec(),
                    )
                },
                None => res matches Err(MessageError(VerificationError::MethodNotFound(c, s)))
                    && c == superclass && s@ == sel@,
            },
        },
{
    match obj.as_id_ptr() {
        None => Err(MessageError(VerificationError::NilReceiver(sel.duplicate()))),
        Some(r) => match verify_message_signature::<A, R, I>(rt, superclass, sel) {
            Ok(()) => msg_send_super_fn(rt, &Super { receiver: r, superclass }, sel),
            Err(e) => Err(e),
        },
    }
}

} // verus!
