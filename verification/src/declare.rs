//! Declaring classes.
//!
//! A class is declared with `ClassDecl`, which allocates it with a
//! superclass and a name; instance variables and methods are then added to
//! it before it is registered with the runtime.
//!
//! A method is described by a `MethodDecl`, built from a selector, an
//! implementation and the types of the method's receiver, arguments and
//! return value. The selector and the implementation must take the same
//! number of arguments: one for every `:` in the selector.

use vstd::prelude::*;
use vstd::string::StrSliceExecFns;
use vstd::string::StringExecFns;
use crate::text::{decimal, decimal_string};
use crate::encode::{concat_codes, encodings_view, Encode, EncodeArguments, Encoding};
use crate::runtime::{no_nul, Class, ClassModel, IvarModel, Method, MethodModel, Object, Runtime, RuntimeModel, Sel};

verus! {

/// The number of `:` characters in `s`.
pub open spec fn count_colons(s: Seq<char>) -> nat
    decreases s.len(),
{
    if s.len() == 0 {
        0
    } else {
        count_colons(s.drop_last()) + if s.last() == ':' {
            1nat
        } else {
            0nat
        }
    }
}

/// `n + 2`, or `usize::MAX` if that does not fit in a `usize`.
pub open spec fn plus_two(n: nat) -> nat {
    if n + 2 <= usize::MAX {
        n + 2
    } else {
        usize::MAX as nat
    }
}

/// The number of arguments a selector takes, besides the receiver and the
/// selector itself: the number of `:` in its name.
pub fn selector_arguments(sel: &Sel) -> (n: usize)
    ensures
        n == count_colons(sel@),
{
    let name = sel.name();
    let len = name.unicode_len();
    let mut n: usize = 0;
    let mut i: usize = 0;
    while i < len
        invariant
            i <= len,
            len == name@.len(),
            name@ == sel@,
            n == count_colons(name@.take(i as int)),
            n <= i,
        decreases len - i,
    {
        proof {
            assert(name@.take(i + 1).drop_last() =~= name@.take(i as int));
        }
        if name.get_char(i) == ':' {
            n = n + 1;
        }
        i = i + 1;
    }
    proof {
        assert(name@.take(i as int) =~= name@);
    }
    n
}

/// An error returned when a selector and an implementation accept unequal
/// numbers of arguments (the receiver and the selector included).
#[derive(Clone, Copy, Debug, PartialEq, Eq, Structural)]
pub struct UnequalArgsError {
    sel_args: usize,
    fn_args: usize,
}

impl UnequalArgsError {
    /// The number of arguments the selector accepts.
    pub closed spec fn sel_args_spec(self) -> nat {
        self.sel_args as nat
    }

    /// The number of arguments the implementation accepts.
    pub closed spec fn fn_args_spec(self) -> nat {
        self.fn_args as nat
    }

    /// The number of arguments the selector accepts.
    pub fn sel_args(&self) -> (n: usize)
        ensures
            n == self.sel_args_spec(),
    {
        self.sel_args
    }

    /// The number of arguments the implementation accepts.
    pub fn fn_args(&self) -> (n: usize)
        ensures
            n == self.fn_args_spec(),
    {
        self.fn_args
    }

    /// The text that describes this error.
    pub fn message(&self) -> (s: String)
        ensures
            s@ == "Selector accepts "@ + decimal(self.sel_args_spec()) + " arguments, but function accepts "@
                + decimal(self.fn_args_spec()),
    {
        let mut s = String::from_str("Selector accepts ");
        s.append(decimal_string(self.sel_args).as_str());
        s.append(" arguments, but function accepts ");
        s.append(decimal_string(self.fn_args).as_str());
        s
    }
}

/// The code strings of a method's types: the return type `ret`, the
/// receiver (the object code `@`, whether the method is an instance or a
/// class method), the selector (`:`), then the arguments `args`.
pub open spec fn method_types(ret: Seq<char>, args: Seq<Seq<char>>) -> Seq<Seq<char>> {
    seq![ret, seq!['@'], seq![':']] + args
}

/// Checks that the selector `sel` takes `fn_args` arguments (besides the
/// receiver and the selector).
fn check_arguments_count(sel: &Sel, fn_args: usize) -> (r: Result<(), UnequalArgsError>)
    ensures
        r is Ok <==> count_colons(sel@) == fn_args,
        r matches Err(e) ==> e.sel_args_spec() == plus_two(count_colons(sel@)) && e.fn_args_spec()
            == plus_two(fn_args as nat),
{
    let sel_args = selector_arguments(sel);
    if sel_args == fn_args {
        Ok(())
    } else {
        Err(
            UnequalArgsError {
                sel_args: sel_args.saturating_add(2),
                fn_args: fn_args.saturating_add(2),
            },
        )
    }
}

/// Checks that the selector `sel` takes as many arguments as an
/// implementation with the arguments `A`.
pub fn imp_for<A: EncodeArguments>(sel: &Sel) -> (r: Result<(), UnequalArgsError>)
    ensures
        r is Ok <==> count_colons(sel@) == A::encodings_spec().len(),
        r matches Err(e) ==> e.sel_args_spec() == plus_two(count_colons(sel@)) && e.fn_args_spec()
            == plus_two(A::encodings_spec().len()),
{
    let args = A::encodings();
    assert(encodings_view(args@).len() == args@.len());
    check_arguments_count(sel, args.len())
}

/// The type encoding string of a method with receiver type `C`, argument
/// types `A` and return type `R`: the return type's code, `@` for the
/// receiver (a class receiver is an object too), `:` for the selector, then
/// the arguments' codes.
pub fn method_type_encoding<C: Encode, A: EncodeArguments, R: Encode>() -> (s: String)
    ensures
        s@ == concat_codes(method_types(R::encoding_spec(), A::encodings_spec())),
{
    let types = method_encodings(R::encode(), A::encodings());
    let ghost codes = encodings_view(types@);
    let mut s = String::new();
    let mut i: usize = 0;
    while i < types.len()
        invariant
            i <= types@.len(),
            codes == encodings_view(types@),
            s@ == concat_codes(codes.take(i as int)),
        decreases types@.len() - i,
    {
        proof {
            assert(codes.take(i + 1).drop_last() =~= codes.take(i as int));
        }
        s.append(types[i].as_str());
        i = i + 1;
    }
    proof {
        assert(codes.take(i as int) =~= codes);
    }
    s
}

/// The encodings of a method: its return type `ret`, the receiver (`@`),
/// the selector (`:`), then its arguments `args`.
fn method_encodings(ret: Encoding, args: Vec<Encoding>) -> (v: Vec<Encoding>)
    ensures
        encodings_view(v@) == method_types(ret@, encodings_view(args@)),
{
    let ghost ret_code = ret@;
    let ghost recv_code = seq!['@'];
    let mut v: Vec<Encoding> = Vec::new();
    v.push(ret);
    v.push(Object::encode());
    proof {
        reveal_strlit(":");
        assert(":"@ =~= seq![':']);
    }
    v.push(Encoding::from_str(":"));
    let ghost prefix = encodings_view(v@);
    assert(prefix =~= seq![ret_code, recv_code, seq![':']]);
    let mut i: usize = 0;
    while i < args.len()
        invariant
            i <= args@.len(),
            encodings_view(v@) == prefix + encodings_view(args@).take(i as int),
            prefix == seq![ret_code, recv_code, seq![':']],
        decreases args@.len() - i,
    {
        let ghost old_v = v@;
        v.push(args[i].duplicate());
        proof {
            assert(v@ == old_v.push(v@[v@.len() - 1]));
            assert(encodings_view(v@) =~= encodings_view(old_v).push(encodings_view(args@)[i as int]));
            assert(encodings_view(v@) =~= prefix + encodings_view(args@).take(i + 1));
        }
        i = i + 1;
    }
    proof {
        assert(encodings_view(args@).take(i as int) =~= encodings_view(args@));
    }
    v
}

/// A method to be added to a class: its selector, its implementation, and
/// the encodings of its return type, receiver, selector and arguments.
pub struct MethodDecl<I> {
    method: Method<I>,
}

impl<I> View for MethodDecl<I> {
    type V = MethodModel<I>;

    closed spec fn view(&self) -> MethodModel<I> {
        self.method@
    }
}

impl<I> MethodDecl<I> {
    /// Declares a method for selector `sel` implemented by `imp`, whose
    /// receiver has type `C` (an object or a class, encoded `@` either way),
    /// whose arguments have the types `A` and which returns the type `R`. Fails when the selector does not take as many
    /// arguments as `A` holds.
    pub fn new<C: Encode, A: EncodeArguments, R: Encode>(sel: Sel, imp: I) -> (r: Result<
        MethodDecl<I>,
        UnequalArgsError,
    >)
        ensures
            r is Ok <==> count_colons(sel@) == A::encodings_spec().len(),
            r matches Ok(d) ==> d@ == (MethodModel {
                name: sel@,
                types: method_types(R::encoding_spec(), A::encodings_spec()),
                imp: imp,
            }),
            r matches Err(e) ==> e.sel_args_spec() == plus_two(count_colons(sel@)) && e.fn_args_spec()
                == plus_two(A::encodings_spec().len()),
    {
        MethodDecl::with_types(sel, R::encode(), A::encodings(), imp)
    }

    /// Declares a method for selector `sel` implemented by `imp`, with the
    /// given encodings of its return type and its arguments; its receiver is
    /// encoded `@`.
    /// Fails when the selector does not take as many arguments as `args`
    /// holds.
    pub fn with_types(sel: Sel, ret: Encoding, args: Vec<Encoding>, imp: I) -> (r: Result<
        MethodDecl<I>,
        UnequalArgsError,
    >)
        ensures
            r is Ok <==> count_colons(sel@) == args@.len(),
            r matches Ok(d) ==> d@ == (MethodModel {
                name: sel@,
                types: method_types(ret@, encodings_view(args@)),
                imp: imp,
            }),
            r matches Err(e) ==> e.sel_args_spec() == plus_two(count_colons(sel@)) && e.fn_args_spec()
                == plus_two(args@.len()),
    {
        match check_arguments_count(&sel, args.len()) {
            Ok(()) => {
                let types = method_encodings(ret, args);
                proof {
                    assert(encodings_view(types@).len() == types@.len());
                }
                Ok(MethodDecl { method: Method::new(sel, types, imp) })
            },
            Err(e) => Err(e),
        }
    }
}

/// A class being declared: allocated, not yet registered.
pub struct ClassDecl {
    cls: Class,
}

impl ClassDecl {
    /// The class being declared.
    pub closed spec fn class_spec(self) -> Class {
        self.cls
    }

    /// Whether the class being declared is allocated in `rt` and not yet
    /// registered or disposed.
    pub open spec fn is_pending<I>(self, rt: RuntimeModel<I>) -> bool {
        &&& rt.is_live_class(self.class_spec().idx as int)
        &&& !rt.classes[self.class_spec().idx as int].registered
    }

    /// The class being declared.
    pub fn class(&self) -> (c: Class)
        ensures
            c == self.class_spec(),
    {
        self.cls
    }

    /// Starts declaring a class named `name` with the given superclass.
    /// Returns `None` when the name is already used by a live class, when
    /// the superclass is not a registered class, or when the runtime has no
    /// room for more classes.
    pub fn new<I>(rt: &mut Runtime<I>, superclass: Class, name: &str) -> (r: Option<ClassDecl>)
        requires
            old(rt)@.wf(),
            no_nul(name@),
            old(rt)@.valid_class(superclass),
        ensures
            final(rt)@.wf(),
            final(rt)@.objects == old(rt)@.objects,
            old(rt)@.can_allocate(Some(superclass), name@) && old(rt)@.classes.len() + 2 < usize::MAX
                ==> r is Some,
            !old(rt)@.can_allocate(Some(superclass), name@) ==> r is None,
            r is None ==> final(rt)@ == old(rt)@,
            r matches Some(d) ==> {
                let pair = old(rt)@.new_class_pair(Some(superclass), name@);
                &&& d.class_spec().idx == old(rt)@.classes.len()
                &&& final(rt)@.classes == old(rt)@.classes.push(pair.0).push(pair.1)
                &&& d.is_pending(final(rt)@)
            },
    {
        match rt.allocate_class_pair(Some(superclass), name) {
            Some(cls) => Some(ClassDecl { cls }),
            None => None,
        }
    }

    /// Starts declaring a root class (one without a superclass) named
    /// `name`. Returns `None` when the name is already used by a live class
    /// or when the runtime has no room for more classes.
    pub fn root<I>(rt: &mut Runtime<I>, name: &str) -> (r: Option<ClassDecl>)
        requires
            old(rt)@.wf(),
            no_nul(name@),
        ensures
            final(rt)@.wf(),
            final(rt)@.objects == old(rt)@.objects,
            !old(rt)@.name_in_use(name@) && old(rt)@.classes.len() + 2 < usize::MAX ==> r is Some,
            old(rt)@.name_in_use(name@) ==> r is None,
            r is None ==> final(rt)@ == old(rt)@,
            r matches Some(d) ==> {
                let pair = old(rt)@.new_class_pair(None, name@);
                &&& d.class_spec().idx == old(rt)@.classes.len()
                &&& final(rt)@.classes == old(rt)@.classes.push(pair.0).push(pair.1)
                &&& d.is_pending(final(rt)@)
            },
    {
        match rt.allocate_class_pair(None, name) {
            Some(cls) => Some(ClassDecl { cls }),
            None => None,
        }
    }

    /// Adds an instance variable of type `T` named `name`, laid out by the
    /// size and alignment of `T`. The class must not declare an instance
    /// variable of that name yet, and must have room for another.
    pub fn add_ivar<T: Encode, I>(&mut self, rt: &mut Runtime<I>, name: &str)
        requires
            old(rt)@.wf(),
            no_nul(name@),
            old(self).is_pending(old(rt)@),
            old(rt)@.can_add_ivar(
                old(self).class_spec(),
                name@,
                vstd::layout::size_of::<T>(),
                vstd::layout::align_of::<T>(),
            ),
        ensures
            final(rt)@.wf(),
            *final(self) == *old(self),
            final(self).is_pending(final(rt)@),
            final(rt)@ == old(rt)@.with_ivar(
                old(self).class_spec(),
                name@,
                T::encoding_spec(),
                vstd::layout::size_of::<T>(),
                vstd::layout::align_of::<T>(),
            ),
    {
        let size = core::mem::size_of::<T>();
        let align = core::mem::align_of::<T>();
        rt.add_ivar(self.cls, name, T::encode(), size, align);
    }

    /// Adds the instance method `method`. The class must not declare a
    /// method with its selector yet.
    pub fn add_method<I>(&mut self, rt: &mut Runtime<I>, method: MethodDecl<I>)
        requires
            old(rt)@.wf(),
            old(self).is_pending(old(rt)@),
            crate::runtime::find_method(old(rt)@.classes[old(self).class_spec().idx as int].methods, method@.name)
                is None,
        ensures
            final(rt)@.wf(),
            *final(self) == *old(self),
            final(self).is_pending(final(rt)@),
            final(rt)@ == old(rt)@.with_method(old(self).class_spec(), method@),
    {
        rt.add_method(self.cls, method.method);
    }

    /// Adds the class method `method`, a method of the metaclass. The
    /// metaclass must not declare a method with its selector yet.
    pub fn add_class_method<I>(&mut self, rt: &mut Runtime<I>, method: MethodDecl<I>)
        requires
            old(rt)@.wf(),
            old(self).is_pending(old(rt)@),
            crate::runtime::find_method(
                old(rt)@.classes[old(rt)@.classes[old(self).class_spec().idx as int].meta as int].methods,
                method@.name,
            ) is None,
        ensures
            final(rt)@.wf(),
            *final(self) == *old(self),
            final(self).is_pending(final(rt)@),
            ({
                let meta = old(rt)@.classes[old(self).class_spec().idx as int].meta as int;
                final(rt)@.classes == old(rt)@.classes.update(
                    meta,
                    ClassModel { methods: old(rt)@.classes[meta].methods.push(method@), ..old(rt)@.classes[meta] },
                )
            }),
            final(rt)@.objects == old(rt)@.objects,
    {
        proof {
            assert(rt@.class_wf(self.cls.idx as int));
        }
        let meta = self.cls.metaclass(rt);
        rt.add_method(meta, method.method);
    }

    /// Registers the declared class, returning it.
    pub fn register<I>(self, rt: &mut Runtime<I>) -> (c: Class)
        requires
            old(rt)@.wf(),
            self.is_pending(old(rt)@),
        ensures
            final(rt)@.wf(),
            c == self.class_spec(),
            final(rt)@.is_registered_class(c.idx as int),
            final(rt)@ == old(rt)@.with_registered(c),
    {
        proof {
            assert(rt@.class_wf(self.cls.idx as int));
        }
        rt.register_class_pair(self.cls);
        self.cls
    }

    /// Gives up declaring the class, disposing of it; its name can be used
    /// again.
    pub fn dispose<I>(self, rt: &mut Runtime<I>)
        requires
            old(rt)@.wf(),
            self.is_pending(old(rt)@),
        ensures
            final(rt)@.wf(),
            !final(rt)@.name_in_use(old(rt)@.classes[self.class_spec().idx as int].name),
            final(rt)@ == (RuntimeModel {
                classes: old(rt)@.classes.update(
                    self.class_spec().idx as int,
                    ClassModel { disposed: true, ..old(rt)@.classes[self.class_spec().idx as int] },
                ).update(
                    old(rt)@.classes[self.class_spec().idx as int].meta as int,
                    ClassModel {
                        disposed: true,
                        ..old(rt)@.classes[old(rt)@.classes[self.class_spec().idx as int].meta as int]
                    },
                ),
                objects: old(rt)@.objects,
            }),
    {
        proof {
            assert(rt@.class_wf(self.cls.idx as int));
        }
        let ghost old_m = rt@;
        rt.dispose_class_pair(self.cls);
        proof {
            let m = rt@;
            let ci = self.cls.idx as int;
            let name = old_m.classes[ci].name;
            if m.name_in_use(name) {
                let k = choose|k: int| m.is_live_class(k) && #[trigger] m.classes[k].name == name;
                assert(old_m.is_live_class(k));
                assert(old_m.is_live_class(ci));
            }
        }
    }
}

} // verus!
