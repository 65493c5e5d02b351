//! The state of an Objective-C runtime: its classes, their instance
//! variables and methods, and the objects created from them.
//!
//! A runtime is created holding the root class `NSObject`, whose only
//! instance variable is `isa`. Further classes are allocated as a class /
//! metaclass pair, given instance variables and methods, and then registered.
//! An instance variable is placed at the first multiple of its alignment
//! past the end of the ones before it, those of the superclasses first; an
//! instance holds the value of each instance variable of its class and of
//! its superclasses in a slot of its own.

use vstd::prelude::*;
use crate::encode::{concat_codes, Encode, Encoding};
use vstd::string::StringExecFns;

verus! {

/// The Objective-C boolean type (a signed char on the platforms whose
/// runtime defines it so).
pub type BOOL = i8;

/// The Objective-C true value.
pub const YES: BOOL = 1;

/// The Objective-C false value.
pub const NO: BOOL = 0;

/// The size in bytes of a pointer, such as `isa`; instance sizes are
/// rounded up to a multiple of it.
pub const WORD_SIZE: usize = 8;

/// The size in bytes of a class object: its `isa`, its superclass, its
/// method cache, its vtable and its data, a word each.
pub const CLASS_OBJECT_SIZE: usize = 40;

/// The largest number of instance variable slots an instance may have, so
/// that every offset and instance size fits in an `isize`.
pub const MAX_SLOTS: usize = 0x0fff_ffff;

/// The largest size in bytes that an instance may have.
pub const MAX_INSTANCE_SIZE: usize = 0x7fff_ffff;

/// `n` rounded up to the next multiple of `a`.
pub open spec fn align_up(n: nat, a: nat) -> nat
    recommends
        a > 0,
{
    if n % a == 0 {
        n
    } else {
        (n + (a - n % a)) as nat
    }
}

/// Rounding `n` up to a multiple of `a` gives the least multiple of `a`
/// that is at least `n`: a multiple of `a`, no less than `n`, and less than
/// `n + a`. An instance variable is placed there, and an instance's size is
/// rounded up to a whole word the same way.
pub proof fn lemma_align_up(n: nat, a: nat)
    requires
        a > 0,
    ensures
        align_up(n, a) % a == 0,
        n <= align_up(n, a) < n + a,
        n % a == 0 ==> align_up(n, a) == n,
{
    let r = n % a;
    assert(n == a * (n / a) + r && 0 <= r < a) by {
        vstd::arithmetic::div_mod::lemma_fundamental_div_mod(n as int, a as int);
    }
    if r != 0 {
        let q = n / a;
        assert(n + (a - r) == a * (q + 1)) by (nonlinear_arith)
            requires
                n == a * q + r,
        ;
        vstd::arithmetic::div_mod::lemma_mod_multiples_basic((q + 1) as int, a as int);
        assert((q + 1) * a == a * (q + 1)) by (nonlinear_arith);
    }
}

/// Whether `s` holds no nul character, so that it can be handed to the
/// runtime as a C string.
pub open spec fn no_nul(s: Seq<char>) -> bool {
    forall|i: int| 0 <= i < s.len() ==> s[i] != '\0'
}

/// A method selector: the name of a method, such as `foo` or `setFoo:`.
#[derive(Clone, Debug)]
pub struct Sel {
    name: String,
}

impl View for Sel {
    type V = Seq<char>;

    closed spec fn view(&self) -> Seq<char> {
        self.name@
    }
}

impl Sel {
    /// The selector with the given name.
    pub fn register(name: &str) -> (s: Sel)
        requires
            no_nul(name@),
        ensures
            s@ == name@,
    {
        Sel { name: name.to_owned() }
    }

    /// The name of this selector.
    pub fn name(&self) -> (n: &str)
        ensures
            n@ == self@,
    {
        self.name.as_str()
    }

    /// Whether two selectors have the same name.
    pub fn same(&self, other: &Sel) -> (b: bool)
        ensures
            b == (self@ == other@),
    {
        self.name == other.name
    }

    /// A copy of this selector.
    pub fn duplicate(&self) -> (s: Sel)
        ensures
            s@ == self@,
    {
        Sel { name: self.name.clone() }
    }
}

impl PartialEq for Sel {
    fn eq(&self, other: &Sel) -> (b: bool) {
        self.name == other.name
    }
}

impl vstd::std_specs::cmp::PartialEqSpecImpl for Sel {
    open spec fn obeys_eq_spec() -> bool {
        true
    }

    open spec fn eq_spec(&self, other: &Sel) -> bool {
        self@ == other@
    }
}

/// A handle to a class or metaclass of a runtime.
#[derive(Clone, Copy, Debug, PartialEq, Eq, Structural)]
pub struct Class {
    pub idx: usize,
}

/// A handle to an instance of a class of a runtime.
#[derive(Clone, Copy, Debug, PartialEq, Eq, Structural)]
pub struct Object {
    pub idx: usize,
}

/// Something a message can be sent to: an instance, or a class object.
#[derive(Clone, Copy, Debug, PartialEq, Eq, Structural)]
pub enum Receiver {
    Instance(Object),
    ClassObject(Class),
}

/// Specifies the superclass of an instance, for messages sent to `super`.
#[derive(Clone, Copy, Debug, PartialEq, Eq, Structural)]
pub struct Super {
    /// The receiver of the message.
    pub receiver: Receiver,
    /// The class whose implementation is to be used.
    pub superclass: Class,
}

/// What an instance variable is: its name, its type encoding, the slot
/// that holds its value in an instance, and its offset in bytes within an
/// instance.
pub struct IvarModel {
    pub name: Seq<char>,
    pub encoding: Seq<char>,
    pub slot: nat,
    pub offset: nat,
}

/// An instance variable of a class.
pub struct Ivar {
    name: String,
    encoding: Encoding,
    slot: usize,
    offset: usize,
}

impl View for Ivar {
    type V = IvarModel;

    closed spec fn view(&self) -> IvarModel {
        IvarModel { name: self.name@, encoding: self.encoding@, slot: self.slot as nat, offset: self.offset as nat }
    }
}

impl Ivar {
    #[verifier::type_invariant]
    closed spec fn slot_in_range(self) -> bool {
        &&& self.slot < MAX_SLOTS
        &&& self.offset <= MAX_INSTANCE_SIZE
    }

    /// The name of this instance variable.
    pub fn name(&self) -> (n: &str)
        ensures
            n@ == self@.name,
    {
        self.name.as_str()
    }

    /// The offset in bytes of this instance variable within an instance.
    pub fn offset(&self) -> (o: isize)
        ensures
            o as int == self@.offset,
    {
        proof {
            use_type_invariant(self);
        }
        self.offset as isize
    }

    /// The type encoding of this instance variable.
    pub fn type_encoding(&self) -> (e: &Encoding)
        ensures
            e@ == self@.encoding,
    {
        &self.encoding
    }
}

/// What a method is: its selector name, the encodings of its return type and
/// of its arguments (the receiver and the selector first), and its
/// implementation.
pub struct MethodModel<I> {
    pub name: Seq<char>,
    pub types: Seq<Seq<char>>,
    pub imp: I,
}

/// A method of a class: `types` holds the return type's encoding followed by
/// the encodings of the arguments, the receiver and the selector first.
pub struct Method<I> {
    name: Sel,
    types: Vec<Encoding>,
    imp: I,
}

impl<I> View for Method<I> {
    type V = MethodModel<I>;

    closed spec fn view(&self) -> MethodModel<I> {
        MethodModel {
            name: self.name@,
            types: self.types@.map_values(|e: Encoding| e@),
            imp: self.imp,
        }
    }
}

/// Whether `types` can be a method's type codes: a return type, the
/// receiver, whose code is the object code `@` (for class methods too), and
/// the selector, whose code is `:`, come before any other argument.
pub open spec fn method_codes_ok(types: Seq<Seq<char>>) -> bool {
    &&& types.len() >= 3
    &&& types[1] == seq!['@']
    &&& types[2] == seq![':']
}

impl<I> Method<I> {
    #[verifier::type_invariant]
    closed spec fn has_receiver_and_selector(self) -> bool {
        method_codes_ok(self.types@.map_values(|e: Encoding| e@))
    }

    /// Builds a method from its selector, its type encodings (return type,
    /// receiver, selector, then the other arguments) and its implementation.
    pub fn new(name: Sel, types: Vec<Encoding>, imp: I) -> (m: Method<I>)
        requires
            method_codes_ok(types@.map_values(|e: Encoding| e@)),
        ensures
            m@.name == name@,
            m@.types == types@.map_values(|e: Encoding| e@),
            m@.imp == imp,
    {
        Method { name, types, imp }
    }

    /// The selector of this method.
    pub fn name(&self) -> (s: &Sel)
        ensures
            s@ == self@.name,
    {
        &self.name
    }

    /// The method's full type encoding string: the codes of its return type
    /// and of its arguments, concatenated.
    pub fn type_encoding(&self) -> (s: String)
        ensures
            s@ == concat_codes(self@.types),
    {
        let ghost codes = self@.types;
        let mut s = String::new();
        let mut i: usize = 0;
        while i < self.types.len()
            invariant
                i <= self.types@.len(),
                codes == self@.types,
                codes.len() == self.types@.len(),
                s@ == concat_codes(codes.take(i as int)),
            decreases self.types@.len() - i,
        {
            proof {
                assert(codes.take(i + 1).drop_last() =~= codes.take(i as int));
                assert(codes[i as int] == self.types@[i as int]@);
            }
            s.append(self.types[i].as_str());
            i = i + 1;
        }
        proof {
            assert(codes.take(i as int) =~= codes);
        }
        s
    }

    /// The encoding of this method's return type.
    pub fn return_type(&self) -> (e: &Encoding)
        ensures
            e@ == self@.types[0],
    {
        proof {
            use_type_invariant(self);
        }
        &self.types[0]
    }

    /// The encoding of the argument at `index` (the receiver is argument 0
    /// and the selector argument 1), or `None` if there is no such argument.
    pub fn argument_type(&self, index: usize) -> (e: Option<&Encoding>)
        ensures
            index + 1 < self@.types.len() ==> e is Some && e.unwrap()@ == self@.types[index + 1],
            index + 1 >= self@.types.len() ==> e is None,
            index == 0 ==> e is Some && e.unwrap()@ == seq!['@'],
            index == 1 ==> e is Some && e.unwrap()@ == seq![':'],
    {
        proof {
            use_type_invariant(self);
        }
        if index < self.types.len() - 1 {
            Some(&self.types[index + 1])
        } else {
            None
        }
    }

    /// The number of arguments of this method, the receiver and the selector
    /// included.
    pub fn arguments_count(&self) -> (n: usize)
        ensures
            n == self@.types.len() - 1,
            n >= 2,
            self@.types.len() <= usize::MAX,
    {
        proof {
            use_type_invariant(self);
        }
        self.types.len() - 1
    }

    /// The implementation of this method.
    pub fn implementation(&self) -> (imp: &I)
        ensures
            *imp == self@.imp,
    {
        &self.imp
    }
}

/// What a class (or metaclass) is.
pub struct ClassModel<I> {
    pub name: Seq<char>,
    pub superclass: Option<nat>,
    pub meta: nat,
    pub is_meta: bool,
    pub ivars: Seq<IvarModel>,
    pub methods: Seq<MethodModel<I>>,
    pub registered: bool,
    pub disposed: bool,
    pub first_slot: nat,
    pub byte_size: nat,
}

struct ClassData<I> {
    name: String,
    superclass: Option<usize>,
    meta: usize,
    is_meta: bool,
    ivars: Vec<Ivar>,
    methods: Vec<Method<I>>,
    registered: bool,
    disposed: bool,
    first_slot: usize,
    byte_size: usize,
}

impl<I> View for ClassData<I> {
    type V = ClassModel<I>;

    closed spec fn view(&self) -> ClassModel<I> {
        ClassModel {
            name: self.name@,
            superclass: match self.superclass {
                Some(s) => Some(s as nat),
                None => None,
            },
            meta: self.meta as nat,
            is_meta: self.is_meta,
            ivars: self.ivars@.map_values(|v: Ivar| v@),
            methods: self.methods@.map_values(|m: Method<I>| m@),
            registered: self.registered,
            disposed: self.disposed,
            first_slot: self.first_slot as nat,
            byte_size: self.byte_size as nat,
        }
    }
}

/// What an instance is: its class, the values of its instance variable
/// slots, and its retain count (zero once it has been deallocated).
pub struct ObjectModel {
    pub class: nat,
    pub slots: Seq<u64>,
    pub retain_count: nat,
}

struct ObjectData {
    class: usize,
    slots: Vec<u64>,
    retain_count: usize,
}

impl View for ObjectData {
    type V = ObjectModel;

    closed spec fn view(&self) -> ObjectModel {
        ObjectModel {
            class: self.class as nat,
            slots: self.slots@,
            retain_count: self.retain_count as nat,
        }
    }
}

/// What a runtime is: its classes and its objects.
pub struct RuntimeModel<I> {
    pub classes: Seq<ClassModel<I>>,
    pub objects: Seq<ObjectModel>,
}

/// The number of elements of `s` that are the object with index `idx`.
pub open spec fn occurrences(s: Seq<Object>, idx: int) -> nat
    decreases s.len(),
{
    if s.len() == 0 {
        0
    } else {
        occurrences(s.drop_last(), idx) + if s.last().idx == idx {
            1nat
        } else {
            0nat
        }
    }
}

/// Occurrences in a prefix are at most occurrences in the whole.
pub proof fn lemma_occurrences_prefix(s: Seq<Object>, i: int, idx: int)
    requires
        0 <= i <= s.len(),
    ensures
        occurrences(s.take(i), idx) <= occurrences(s, idx),
    decreases s.len() - i,
{
    if i < s.len() {
        lemma_occurrences_prefix(s, i + 1, idx);
        assert(s.take(i + 1).drop_last() =~= s.take(i));
    } else {
        assert(s.take(i) =~= s);
    }
}

/// Whether `i` is the first index of `methods` whose selector is `sel`.
pub open spec fn is_first_method<I>(methods: Seq<MethodModel<I>>, sel: Seq<char>, i: int) -> bool {
    &&& 0 <= i < methods.len()
    &&& methods[i].name == sel
    &&& forall|j: int| 0 <= j < i ==> (#[trigger] methods[j]).name != sel
}

/// The index of the first method of `methods` with the selector `sel`.
pub open spec fn find_method<I>(methods: Seq<MethodModel<I>>, sel: Seq<char>) -> Option<int> {
    if exists|i: int| is_first_method(methods, sel, i) {
        Some(choose|i: int| is_first_method(methods, sel, i))
    } else {
        None
    }
}

/// Whether `i` is the first index of `ivars` whose name is `name`.
pub open spec fn is_first_ivar(ivars: Seq<IvarModel>, name: Seq<char>, i: int) -> bool {
    &&& 0 <= i < ivars.len()
    &&& ivars[i].name == name
    &&& forall|j: int| 0 <= j < i ==> (#[trigger] ivars[j]).name != name
}

/// The index of the first instance variable of `ivars` named `name`.
pub open spec fn find_ivar(ivars: Seq<IvarModel>, name: Seq<char>) -> Option<int> {
    if exists|i: int| is_first_ivar(ivars, name, i) {
        Some(choose|i: int| is_first_ivar(ivars, name, i))
    } else {
        None
    }
}

/// `find_method` gives the first index whose selector is `sel`, and `None`
/// when no method has that selector.
pub proof fn lemma_find_method<I>(methods: Seq<MethodModel<I>>, sel: Seq<char>)
    ensures
        match find_method(methods, sel) {
            Some(i) => is_first_method(methods, sel, i),
            None => forall|j: int| 0 <= j < methods.len() ==> methods[j].name != sel,
        },
{
    if !(exists|i: int| is_first_method(methods, sel, i)) {
        assert forall|j: int| 0 <= j < methods.len() implies methods[j].name != sel by {
            if methods[j].name == sel {
                lemma_first_method_exists(methods, sel, j);
            }
        }
    }
}

proof fn lemma_first_method_exists<I>(methods: Seq<MethodModel<I>>, sel: Seq<char>, j: int)
    requires
        0 <= j < methods.len(),
        methods[j].name == sel,
    ensures
        exists|i: int| is_first_method(methods, sel, i),
    decreases j,
{
    if exists|k: int| 0 <= k < j && methods[k].name == sel {
        let k = choose|k: int| 0 <= k < j && methods[k].name == sel;
        lemma_first_method_exists(methods, sel, k);
    } else {
        assert(is_first_method(methods, sel, j));
    }
}

/// The first index with a given selector is unique.
proof fn lemma_first_method_unique<I>(methods: Seq<MethodModel<I>>, sel: Seq<char>, i: int)
    requires
        is_first_method(methods, sel, i),
    ensures
        find_method(methods, sel) == Some(i),
{
    let k = choose|k: int| is_first_method(methods, sel, k);
    if k < i {
        assert(methods[k].name != sel);
    } else if k > i {
        assert(methods[i].name != sel);
    }
}

/// `find_ivar` gives the first index whose name is `name`, and `None` when
/// no instance variable has that name.
pub proof fn lemma_find_ivar(ivars: Seq<IvarModel>, name: Seq<char>)
    ensures
        match find_ivar(ivars, name) {
            Some(i) => is_first_ivar(ivars, name, i),
            None => forall|j: int| 0 <= j < ivars.len() ==> ivars[j].name != name,
        },
{
    if !(exists|i: int| is_first_ivar(ivars, name, i)) {
        assert forall|j: int| 0 <= j < ivars.len() implies ivars[j].name != name by {
            if ivars[j].name == name {
                lemma_first_ivar_exists(ivars, name, j);
            }
        }
    }
}

proof fn lemma_first_ivar_exists(ivars: Seq<IvarModel>, name: Seq<char>, j: int)
    requires
        0 <= j < ivars.len(),
        ivars[j].name == name,
    ensures
        exists|i: int| is_first_ivar(ivars, name, i),
    decreases j,
{
    if exists|k: int| 0 <= k < j && ivars[k].name == name {
        let k = choose|k: int| 0 <= k < j && ivars[k].name == name;
        lemma_first_ivar_exists(ivars, name, k);
    } else {
        assert(is_first_ivar(ivars, name, j));
    }
}

proof fn lemma_first_ivar_unique(ivars: Seq<IvarModel>, name: Seq<char>, i: int)
    requires
        is_first_ivar(ivars, name, i),
    ensures
        find_ivar(ivars, name) == Some(i),
{
    let k = choose|k: int| is_first_ivar(ivars, name, k);
    if k < i {
        assert(ivars[k].name != name);
    } else if k > i {
        assert(ivars[i].name != name);
    }
}

/// Searches `methods` for the selector `sel`.
fn search_methods<I>(methods: &Vec<Method<I>>, sel: &Sel) -> (r: Option<usize>)
    ensures
        match r {
            Some(i) => find_method(methods@.map_values(|m: Method<I>| m@), sel@) == Some(i as int),
            None => find_method(methods@.map_values(|m: Method<I>| m@), sel@) is None,
        },
{
    let ghost all = methods@.map_values(|m: Method<I>| m@);
    let mut i: usize = 0;
    while i < methods.len()
        invariant
            i <= methods@.len(),
            all == methods@.map_values(|m: Method<I>| m@),
            forall|j: int| 0 <= j < i ==> (#[trigger] all[j]).name != sel@,
        decreases methods@.len() - i,
    {
        if methods[i].name.same(sel) {
            proof {
                lemma_first_method_unique(all, sel@, i as int);
            }
            return Some(i);
        }
        i = i + 1;
    }
    proof {
        lemma_find_method(all, sel@);
        if find_method(all, sel@) is Some {
            let k = find_method(all, sel@).unwrap();
            assert(all[k].name != sel@);
        }
    }
    None
}

/// Searches `ivars` for the name `name`.
fn search_ivars(ivars: &Vec<Ivar>, name: &String) -> (r: Option<usize>)
    ensures
        match r {
            Some(i) => find_ivar(ivars@.map_values(|v: Ivar| v@), name@) == Some(i as int),
            None => find_ivar(ivars@.map_values(|v: Ivar| v@), name@) is None,
        },
{
    let ghost all = ivars@.map_values(|v: Ivar| v@);
    let mut i: usize = 0;
    while i < ivars.len()
        invariant
            i <= ivars@.len(),
            all == ivars@.map_values(|v: Ivar| v@),
            forall|j: int| 0 <= j < i ==> (#[trigger] all[j]).name != name@,
        decreases ivars@.len() - i,
    {
        if ivars[i].name == *name {
            proof {
                lemma_first_ivar_unique(all, name@, i as int);
            }
            return Some(i);
        }
        i = i + 1;
    }
    proof {
        lemma_find_ivar(all, name@);
        if find_ivar(all, name@) is Some {
            let k = find_ivar(all, name@).unwrap();
            assert(all[k].name != name@);
        }
    }
    None
}

impl<I> RuntimeModel<I> {
    /// Whether `c` is a class (or metaclass) of the runtime.
    pub open spec fn valid_class(self, c: Class) -> bool {
        c.idx < self.classes.len()
    }

    /// The class that `c` names.
    pub open spec fn class_of(self, c: Class) -> ClassModel<I> {
        self.classes[c.idx as int]
    }

    /// The number of instance variable slots of an instance of class `c`.
    pub open spec fn total_slots(self, c: int) -> nat {
        self.classes[c].first_slot + self.classes[c].ivars.len()
    }

    /// The class and index of the method that an instance of class `c`
    /// runs for selector `sel`: the first class, going up from `c` through
    /// its superclasses, that has a method with that selector.
    pub open spec fn lookup_method(self, c: int, sel: Seq<char>) -> Option<(int, int)>
        decreases c,
    {
        if !(0 <= c < self.classes.len()) {
            None
        } else {
            match find_method(self.classes[c].methods, sel) {
                Some(i) => Some((c, i)),
                None => match self.classes[c].superclass {
                    Some(s) => if s < c {
                        self.lookup_method(s as int, sel)
                    } else {
                        None
                    },
                    None => None,
                },
            }
        }
    }

    /// The class and index of the instance variable named `name` of class
    /// `c` or of the nearest of its superclasses that has one.
    pub open spec fn lookup_ivar(self, c: int, name: Seq<char>) -> Option<(int, int)>
        decreases c,
    {
        if !(0 <= c < self.classes.len()) {
            None
        } else {
            match find_ivar(self.classes[c].ivars, name) {
                Some(i) => Some((c, i)),
                None => match self.classes[c].superclass {
                    Some(s) => if s < c {
                        self.lookup_ivar(s as int, name)
                    } else {
                        None
                    },
                    None => None,
                },
            }
        }
    }

    /// The method found by `lookup_method`.
    pub open spec fn method_at(self, found: (int, int)) -> MethodModel<I> {
        self.classes[found.0].methods[found.1]
    }

    /// The instance variable found by `lookup_ivar`.
    pub open spec fn ivar_at(self, found: (int, int)) -> IvarModel {
        self.classes[found.0].ivars[found.1]
    }

    /// Whether `c` is a class (not a metaclass) that is allocated and not
    /// disposed, registered or not.
    pub open spec fn is_live_class(self, c: int) -> bool {
        &&& 0 <= c < self.classes.len()
        &&& !self.classes[c].is_meta
        &&& !self.classes[c].disposed
    }

    /// Whether a live class is named `name`.
    pub open spec fn name_in_use(self, name: Seq<char>) -> bool {
        exists|c: int| self.is_live_class(c) && #[trigger] self.classes[c].name == name
    }

    /// Whether `c` is a registered class (not a metaclass).
    pub open spec fn is_registered_class(self, c: int) -> bool {
        &&& 0 <= c < self.classes.len()
        &&& !self.classes[c].is_meta
        &&& self.classes[c].registered
    }

    /// Whether the registered class `c` is named `name`.
    pub open spec fn is_class_named(self, c: int, name: Seq<char>) -> bool {
        self.is_registered_class(c) && self.classes[c].name == name
    }

    /// Whether object `o` exists (live or deallocated).
    pub open spec fn valid_object(self, o: Object) -> bool {
        o.idx < self.objects.len()
    }

    /// Whether object `o` exists and has not been deallocated.
    pub open spec fn is_live(self, o: Object) -> bool {
        self.valid_object(o) && self.objects[o.idx as int].retain_count > 0
    }

    /// The class that messages sent to `r` are looked up in: an instance's
    /// class, or a class object's metaclass.
    pub open spec fn dispatch_class(self, r: Receiver) -> int {
        match r {
            Receiver::Instance(o) => self.objects[o.idx as int].class as int,
            Receiver::ClassObject(c) => self.classes[c.idx as int].meta as int,
        }
    }

    /// Whether `r` can receive messages: a live instance, or a registered
    /// class.
    pub open spec fn valid_receiver(self, r: Receiver) -> bool {
        match r {
            Receiver::Instance(o) => self.is_live(o),
            Receiver::ClassObject(c) => self.is_registered_class(c.idx as int),
        }
    }


    /// The class and metaclass that allocating a class pair named `name`
    /// with the given superclass appends to the runtime.
    pub open spec fn new_class_pair(self, superclass: Option<Class>, name: Seq<char>) -> (
        ClassModel<I>,
        ClassModel<I>,
    ) {
        let n = self.classes.len();
        let cls = ClassModel {
            name: name,
            superclass: match superclass {
                Some(s) => Some(s.idx as nat),
                None => None,
            },
            meta: n + 1,
            is_meta: false,
            ivars: seq![],
            methods: seq![],
            registered: false,
            disposed: false,
            first_slot: match superclass {
                Some(s) => self.total_slots(s.idx as int),
                None => 0,
            },
            byte_size: match superclass {
                Some(s) => self.classes[s.idx as int].byte_size,
                None => WORD_SIZE as nat,
            },
        };
        let meta = ClassModel {
            name: name,
            superclass: match superclass {
                Some(s) => Some(self.classes[s.idx as int].meta),
                None => Some(n),
            },
            meta: n + 1,
            is_meta: true,
            ivars: seq![],
            methods: seq![],
            registered: false,
            disposed: false,
            first_slot: 0,
            byte_size: CLASS_OBJECT_SIZE as nat,
        };
        (cls, meta)
    }

    /// Whether a class pair named `name` can be allocated with the given
    /// superclass: the name is not in use, and the superclass (if any) is a
    /// registered class.
    pub open spec fn can_allocate(self, superclass: Option<Class>, name: Seq<char>) -> bool {
        &&& !self.name_in_use(name)
        &&& match superclass {
            Some(s) => self.is_registered_class(s.idx as int),
            None => true,
        }
    }


    /// Whether an instance variable named `name`, of `size` bytes aligned
    /// to `align` bytes, can be added to `c`: `c` is an allocated,
    /// unregistered class (not a metaclass) that declares no instance
    /// variable of that name, has room for another slot, and stays within
    /// the largest instance size with the variable placed at the first
    /// multiple of `align` past its current size.
    pub open spec fn can_add_ivar(self, c: Class, name: Seq<char>, size: nat, align: nat) -> bool {
        &&& self.is_live_class(c.idx as int)
        &&& !self.classes[c.idx as int].registered
        &&& find_ivar(self.classes[c.idx as int].ivars, name) is None
        &&& self.total_slots(c.idx as int) < MAX_SLOTS
        &&& align > 0
        &&& align_up(self.classes[c.idx as int].byte_size, align) + size <= MAX_INSTANCE_SIZE
    }

    /// Class `c` with an instance variable named `name`, of `size` bytes
    /// aligned to `align` bytes and encoded `encoding`, added in the next
    /// slot, at the first multiple of `align` past the class's size, which
    /// grows to the variable's end.
    pub open spec fn with_ivar(self, c: Class, name: Seq<char>, encoding: Seq<char>, size: nat, align: nat) -> RuntimeModel<I> {
        let cls = self.classes[c.idx as int];
        let offset = align_up(cls.byte_size, align);
        RuntimeModel {
            classes: self.classes.update(
                c.idx as int,
                ClassModel {
                    ivars: cls.ivars.push(
                        IvarModel { name, encoding, slot: self.total_slots(c.idx as int), offset },
                    ),
                    byte_size: offset + size,
                    ..cls
                },
            ),
            objects: self.objects,
        }
    }


    /// Where the instance variable named `name` of object `o` is declared.
    pub open spec fn object_ivar(self, o: Object, name: Seq<char>) -> Option<(int, int)> {
        self.lookup_ivar(self.objects[o.idx as int].class as int, name)
    }

    /// The value of slot `slot` of object `o`.
    pub open spec fn slot_value(self, o: Object, slot: nat) -> u64 {
        self.objects[o.idx as int].slots[slot as int]
    }

    /// The runtime with slot `slot` of object `o` set to `v`.
    pub open spec fn with_slot(self, o: Object, slot: nat, v: u64) -> RuntimeModel<I> {
        RuntimeModel {
            classes: self.classes,
            objects: self.objects.update(
                o.idx as int,
                ObjectModel {
                    slots: self.objects[o.idx as int].slots.update(slot as int, v),
                    ..self.objects[o.idx as int]
                },
            ),
        }
    }

    /// The indices below `n` of the registered classes, in increasing order.
    pub open spec fn registered_indices(self, n: int) -> Seq<int>
        decreases n,
    {
        if n <= 0 {
            seq![]
        } else if self.is_registered_class(n - 1) {
            self.registered_indices(n - 1).push(n - 1)
        } else {
            self.registered_indices(n - 1)
        }
    }

    /// Whether class `c` is `target` or inherits from it.
    pub open spec fn inherits_from(self, c: int, target: int) -> bool
        decreases c,
    {
        if c == target {
            true
        } else if 0 <= c < self.classes.len() {
            match self.classes[c].superclass {
                Some(p) => p < c && self.inherits_from(p as int, target),
                None => false,
            }
        } else {
            false
        }
    }

    /// The runtime with the allocated class `c` and its metaclass marked
    /// registered.
    pub open spec fn with_registered(self, c: Class) -> RuntimeModel<I> {
        RuntimeModel {
            classes: self.classes.update(
                c.idx as int,
                ClassModel { registered: true, ..self.classes[c.idx as int] },
            ).update(
                self.classes[c.idx as int].meta as int,
                ClassModel { registered: true, ..self.classes[self.classes[c.idx as int].meta as int] },
            ),
            objects: self.objects,
        }
    }

    /// The runtime with the implementation of the method at `found` (a
    /// class and an index among its methods) replaced by `imp`.
    pub open spec fn with_implementation(self, found: (int, int), imp: I) -> RuntimeModel<I> {
        RuntimeModel {
            classes: self.classes.update(
                found.0,
                ClassModel {
                    methods: self.classes[found.0].methods.update(
                        found.1,
                        MethodModel { imp: imp, ..self.classes[found.0].methods[found.1] },
                    ),
                    ..self.classes[found.0]
                },
            ),
            objects: self.objects,
        }
    }

    /// The runtime with the method `mm` appended to the methods of class
    /// `c`.
    pub open spec fn with_method(self, c: Class, mm: MethodModel<I>) -> RuntimeModel<I> {
        RuntimeModel {
            classes: self.classes.update(
                c.idx as int,
                ClassModel { methods: self.classes[c.idx as int].methods.push(mm), ..self.classes[c.idx as int] },
            ),
            objects: self.objects,
        }
    }

    /// The instance variable slot that holds slot `s` of an instance of
    /// class `c`: the class that declares it and the index of the instance
    /// variable among that class's own.
    pub open spec fn slot_owner(self, c: int, s: int) -> (int, int)
        decreases c,
    {
        if 0 <= c < self.classes.len() && s < self.classes[c].first_slot {
            match self.classes[c].superclass {
                Some(p) => if p < c {
                    self.slot_owner(p as int, s)
                } else {
                    (c, s - self.classes[c].first_slot)
                },
                None => (c, s - self.classes[c].first_slot),
            }
        } else {
            (c, s - self.classes[c].first_slot)
        }
    }

    /// The runtime with the retain count of object `o` set to `n`.
    pub open spec fn with_retain_count(self, o: Object, n: nat) -> RuntimeModel<I> {
        RuntimeModel {
            classes: self.classes,
            objects: self.objects.update(
                o.idx as int,
                ObjectModel { retain_count: n, ..self.objects[o.idx as int] },
            ),
        }
    }

    /// The runtime after every object of `objs` has been retained once for
    /// every time it occurs there.
    pub open spec fn retained_each(self, objs: Seq<Object>) -> RuntimeModel<I> {
        RuntimeModel {
            classes: self.classes,
            objects: Seq::new(
                self.objects.len(),
                |k: int| ObjectModel { retain_count: self.objects[k].retain_count + occurrences(objs, k), ..self.objects[k] },
            ),
        }
    }

    /// The runtime after every object of `objs` has been released once for
    /// every time it occurs there.
    pub open spec fn released_each(self, objs: Seq<Object>) -> RuntimeModel<I> {
        RuntimeModel {
            classes: self.classes,
            objects: Seq::new(
                self.objects.len(),
                |k: int|
                    ObjectModel {
                        retain_count: (self.objects[k].retain_count - occurrences(objs, k)) as nat,
                        ..self.objects[k]
                    },
            ),
        }
    }

    /// The instance of class `c` that `create_instance` appends: its first
    /// slot (the `isa` of the root class) holds its class, every other slot
    /// is zero, and its retain count is one.
    pub open spec fn new_instance(self, c: Class) -> ObjectModel {
        ObjectModel {
            class: c.idx as nat,
            slots: Seq::new(
                self.total_slots(c.idx as int),
                |i: int|
                    if i == 0 {
                        c.idx as u64
                    } else {
                        0u64
                    },
            ),
            retain_count: 1,
        }
    }

    /// The invariant of a runtime.
    pub open spec fn wf(self) -> bool {
        &&& forall|c: int|
            0 <= c < self.classes.len() ==> #[trigger] self.class_wf(c)
        &&& forall|o: int|
            0 <= o < self.objects.len() ==> #[trigger] self.object_wf(o)
        &&& forall|c1: int, c2: int|
            #![trigger self.classes[c1].name, self.classes[c2].name]
            self.is_live_class(c1) && self.is_live_class(c2) && c1 != c2
                ==> self.classes[c1].name != self.classes[c2].name
    }

    /// The invariant of class `c`: its metaclass exists and agrees with it,
    /// its superclass comes before it and is registered, its instance
    /// variables follow its superclass's slots, and no two of its instance
    /// variables or methods share a name.
    pub open spec fn class_wf(self, c: int) -> bool {
        let cls = self.classes[c];
        &&& cls.meta < self.classes.len()
        &&& self.classes[cls.meta as int].is_meta
        &&& (!cls.is_meta ==> self.classes[cls.meta as int].registered == cls.registered)
        &&& (!cls.is_meta ==> self.classes[cls.meta as int].disposed == cls.disposed)
        &&& (!cls.is_meta ==> self.classes[cls.meta as int].name == cls.name)
        &&& (cls.is_meta ==> cls.ivars.len() == 0 && cls.first_slot == 0)
        &&& (cls.registered ==> !cls.disposed)
        &&& match cls.superclass {
            Some(s) => {
                &&& s < c
                &&& (!cls.is_meta ==> {
                    &&& !self.classes[s as int].is_meta
                    &&& self.classes[s as int].registered
                    &&& cls.first_slot == self.total_slots(s as int)
                })
            },
            None => !cls.is_meta && cls.first_slot == 0,
        }
        &&& self.total_slots(c) <= MAX_SLOTS
        &&& cls.byte_size <= MAX_INSTANCE_SIZE
        &&& forall|i: int|
            0 <= i < cls.ivars.len() ==> (#[trigger] cls.ivars[i]).slot == cls.first_slot + i
        &&& forall|i: int, j: int|
            #![trigger cls.ivars[i], cls.ivars[j]]
            0 <= i < cls.ivars.len() && 0 <= j < cls.ivars.len() && i != j
                ==> cls.ivars[i].name != cls.ivars[j].name
        &&& forall|i: int, j: int|
            #![trigger cls.methods[i], cls.methods[j]]
            0 <= i < cls.methods.len() && 0 <= j < cls.methods.len() && i != j
                ==> cls.methods[i].name != cls.methods[j].name
        &&& forall|i: int|
            0 <= i < cls.methods.len() ==> method_codes_ok((#[trigger] cls.methods[i]).types)
    }

    /// The invariant of object `o`: its class is registered and it has a
    /// slot for every instance variable of its class.
    pub open spec fn object_wf(self, o: int) -> bool {
        let obj = self.objects[o];
        &&& obj.class < self.classes.len()
        &&& self.is_registered_class(obj.class as int)
        &&& obj.slots.len() == self.total_slots(obj.class as int)
    }
}


/// An instance variable found from a class lies within the slots of that
/// class's instances.
pub proof fn lemma_lookup_ivar_slot<I>(m: RuntimeModel<I>, c: int, name: Seq<char>)
    requires
        m.wf(),
        0 <= c < m.classes.len(),
        !m.classes[c].is_meta,
    ensures
        m.lookup_ivar(c, name) matches Some(found) ==> {
            &&& 0 <= found.0 < m.classes.len()
            &&& 0 <= found.1 < m.classes[found.0].ivars.len()
            &&& m.ivar_at(found).slot < m.total_slots(c)
            &&& m.ivar_at(found).name == name
        },
    decreases c,
{
    assert(m.class_wf(c));
    lemma_find_ivar(m.classes[c].ivars, name);
    match find_ivar(m.classes[c].ivars, name) {
        Some(i) => {
            assert(m.classes[c].ivars[i].slot == m.classes[c].first_slot + i);
        },
        None => {
            match m.classes[c].superclass {
                Some(s) => {
                    lemma_lookup_ivar_slot(m, s as int, name);
                },
                None => {},
            }
        },
    }
}


/// Looking up an instance variable depends only on the classes.
proof fn lemma_lookup_ivar_same_classes<I>(m1: RuntimeModel<I>, m2: RuntimeModel<I>, c: int, name: Seq<char>)
    requires
        m1.classes == m2.classes,
    ensures
        m1.lookup_ivar(c, name) == m2.lookup_ivar(c, name),
    decreases c,
{
    if 0 <= c < m1.classes.len() {
        match m1.classes[c].superclass {
            Some(p) => {
                if p < c {
                    lemma_lookup_ivar_same_classes(m1, m2, p as int, name);
                }
            },
            None => {},
        }
    }
}

/// The instance variable that `lookup_ivar` finds for an instance of the
/// class `c` owns the slot it names in `c`'s layout.
proof fn lemma_lookup_ivar_owns_slot<I>(m: RuntimeModel<I>, c: int, name: Seq<char>)
    requires
        m.wf(),
        0 <= c < m.classes.len(),
        !m.classes[c].is_meta,
        m.lookup_ivar(c, name) is Some,
    ensures
        m.slot_owner(c, m.ivar_at(m.lookup_ivar(c, name).unwrap()).slot as int) == m.lookup_ivar(c, name).unwrap(),
    decreases c,
{
    assert(m.class_wf(c));
    lemma_lookup_ivar_slot(m, c, name);
    lemma_find_ivar(m.classes[c].ivars, name);
    match find_ivar(m.classes[c].ivars, name) {
        Some(i) => {
            assert(m.classes[c].ivars[i].slot == m.classes[c].first_slot + i);
        },
        None => {
            let p = m.classes[c].superclass.unwrap();
            lemma_lookup_ivar_owns_slot(m, p as int, name);
            lemma_lookup_ivar_slot(m, p as int, name);
        },
    }
}

/// Two instance variables of an object with different names occupy
/// different slots.
pub proof fn lemma_distinct_ivars_distinct_slots<I>(m: RuntimeModel<I>, o: Object, n1: Seq<char>, n2: Seq<char>)
    requires
        m.wf(),
        m.valid_object(o),
        m.object_ivar(o, n1) is Some,
        m.object_ivar(o, n2) is Some,
        n1 != n2,
    ensures
        m.ivar_at(m.object_ivar(o, n1).unwrap()).slot != m.ivar_at(m.object_ivar(o, n2).unwrap()).slot,
{
    let c = m.objects[o.idx as int].class as int;
    assert(m.object_wf(o.idx as int));
    lemma_lookup_ivar_slot(m, c, n1);
    lemma_lookup_ivar_slot(m, c, n2);
    lemma_lookup_ivar_owns_slot(m, c, n1);
    lemma_lookup_ivar_owns_slot(m, c, n2);
}

/// Reading an instance variable gives back the value last written to it,
/// and writing it leaves every other instance variable of the object, and
/// every other object, as it was.
pub proof fn lemma_ivar_read_after_write<T: IvarValue, I>(m: RuntimeModel<I>, o: Object, name: Seq<char>, v: T)
    requires
        m.wf(),
        m.is_live(o),
        m.object_ivar(o, name) is Some,
        m.ivar_at(m.object_ivar(o, name).unwrap()).encoding == T::encoding_spec(),
    ensures
        ({
            let slot = m.ivar_at(m.object_ivar(o, name).unwrap()).slot;
            let m2 = m.with_slot(o, slot, T::to_word_spec(v));
            &&& m2.wf()
            &&& m2.is_live(o)
            &&& m2.object_ivar(o, name) == m.object_ivar(o, name)
            &&& T::from_word_spec(m2.slot_value(o, slot)) == v
            &&& forall|n: Seq<char>| #[trigger] m.object_ivar(o, n) is Some && n != name ==> {
                &&& m2.object_ivar(o, n) == m.object_ivar(o, n)
                &&& m2.slot_value(o, m.ivar_at(m.object_ivar(o, n).unwrap()).slot) == m.slot_value(
                    o,
                    m.ivar_at(m.object_ivar(o, n).unwrap()).slot,
                )
            }
            &&& forall|p: Object| #[trigger] m.valid_object(p) && p != o ==> m2.objects[p.idx as int]
                == m.objects[p.idx as int]
        }),
{
    let c = m.objects[o.idx as int].class as int;
    assert(m.object_wf(o.idx as int));
    lemma_lookup_ivar_slot(m, c, name);
    let slot = m.ivar_at(m.object_ivar(o, name).unwrap()).slot;
    let m2 = m.with_slot(o, slot, T::to_word_spec(v));
    T::lemma_word_roundtrip(v);
    assert(m2.classes == m.classes);
    assert(m2.objects[o.idx as int].class == m.objects[o.idx as int].class);
    lemma_lookup_ivar_same_classes(m, m2, c, name);
    assert forall|k: int| 0 <= k < m2.classes.len() implies #[trigger] m2.class_wf(k) by {
        assert(m.class_wf(k));
    }
    assert forall|k: int| 0 <= k < m2.objects.len() implies #[trigger] m2.object_wf(k) by {
        assert(m.object_wf(k));
    }
    assert forall|n: Seq<char>| #[trigger] m.object_ivar(o, n) is Some && n != name implies {
        &&& m2.object_ivar(o, n) == m.object_ivar(o, n)
        &&& m2.slot_value(o, m.ivar_at(m.object_ivar(o, n).unwrap()).slot) == m.slot_value(
            o,
            m.ivar_at(m.object_ivar(o, n).unwrap()).slot,
        )
    } by {
        lemma_distinct_ivars_distinct_slots(m, o, name, n);
        lemma_lookup_ivar_slot(m, c, n);
        assert(m2.objects[o.idx as int].class == m.objects[o.idx as int].class);
        lemma_lookup_ivar_same_classes(m, m2, c, n);
        let slot2 = m.ivar_at(m.object_ivar(o, n).unwrap()).slot;
        assert(slot2 < m.objects[o.idx as int].slots.len());
        assert(slot2 != slot);
        assert(m2.objects[o.idx as int].slots[slot2 as int] == m.objects[o.idx as int].slots[slot2 as int]);
    }
}

/// Releasing an object right after retaining it gives back the runtime as
/// it was.
pub proof fn lemma_release_undoes_retain<I>(m: RuntimeModel<I>, o: Object)
    requires
        m.valid_object(o),
    ensures
        ({
            let n = m.objects[o.idx as int].retain_count;
            let retained = m.with_retain_count(o, n + 1);
            retained.with_retain_count(o, (retained.objects[o.idx as int].retain_count - 1) as nat) == m
        }),
{
    let n = m.objects[o.idx as int].retain_count;
    let retained = m.with_retain_count(o, n + 1);
    let back = retained.with_retain_count(o, (retained.objects[o.idx as int].retain_count - 1) as nat);
    assert(back.objects =~= m.objects);
}

/// Once a class is registered, it is the one class found by its name.
pub proof fn lemma_registered_class_is_found<I>(m: RuntimeModel<I>, c: Class)
    requires
        m.wf(),
        m.is_live_class(c.idx as int),
        !m.classes[c.idx as int].registered,
    ensures
        m.with_registered(c).is_class_named(c.idx as int, m.classes[c.idx as int].name),
        forall|k: int| #[trigger] m.with_registered(c).is_class_named(k, m.classes[c.idx as int].name) ==> k
            == c.idx,
{
    let m2 = m.with_registered(c);
    let ci = c.idx as int;
    assert(m.class_wf(ci));
    let name = m.classes[ci].name;
    assert forall|k: int| #[trigger] m2.is_class_named(k, name) implies k == ci by {
        if k != ci {
            let mi = m.classes[ci].meta as int;
            assert(k != mi);
            assert(m2.classes[k] == m.classes[k]);
            assert(m.class_wf(k));
            assert(m.is_live_class(k));
            assert(m.classes[k].name != m.classes[ci].name);
        }
    }
}

/// Among the first `n` classes, as many are registered as there are
/// registered indices below `n`.
proof fn lemma_registered_prefix_count<I>(m: RuntimeModel<I>, n: int)
    requires
        0 <= n <= m.classes.len(),
    ensures
        m.classes.take(n).filter(|c: ClassModel<I>| !c.is_meta && c.registered).len() == m.registered_indices(n).len(),
    decreases n,
{
    let keep = |c: ClassModel<I>| !c.is_meta && c.registered;
    if n > 0 {
        lemma_registered_prefix_count(m, n - 1);
        let t = m.classes.take(n);
        assert(t.drop_last() =~= m.classes.take(n - 1));
        assert(t.filter(keep) == if keep(t.last()) {
            t.drop_last().filter(keep).push(t.last())
        } else {
            t.drop_last().filter(keep)
        }) by {
            reveal_with_fuel(Seq::filter, 1);
        }
    } else {
        assert(m.classes.take(n) =~= Seq::<ClassModel<I>>::empty());
        assert(m.classes.take(n).filter(keep) =~= Seq::<ClassModel<I>>::empty()) by {
            reveal_with_fuel(Seq::filter, 1);
        }
    }
}

/// The number of registered classes, as `classes_count` gives it, is the
/// number of classes that `classes` lists.
pub proof fn lemma_classes_count_matches<I>(m: RuntimeModel<I>)
    ensures
        m.classes.filter(|c: ClassModel<I>| !c.is_meta && c.registered).len() == m.registered_indices(
            m.classes.len() as int,
        ).len(),
{
    lemma_registered_prefix_count(m, m.classes.len() as int);
    assert(m.classes.take(m.classes.len() as int) =~= m.classes);
}

/// Whether `m2` differs from `m1` at most in the implementations of
/// methods.
pub open spec fn same_but_implementations<I>(m1: RuntimeModel<I>, m2: RuntimeModel<I>) -> bool {
    &&& m2.objects == m1.objects
    &&& m2.classes.len() == m1.classes.len()
    &&& forall|k: int| #![trigger m2.classes[k]] 0 <= k < m1.classes.len() ==> {
        &&& m2.classes[k].name == m1.classes[k].name
        &&& m2.classes[k].superclass == m1.classes[k].superclass
        &&& m2.classes[k].meta == m1.classes[k].meta
        &&& m2.classes[k].is_meta == m1.classes[k].is_meta
        &&& m2.classes[k].ivars == m1.classes[k].ivars
        &&& m2.classes[k].registered == m1.classes[k].registered
        &&& m2.classes[k].disposed == m1.classes[k].disposed
        &&& m2.classes[k].first_slot == m1.classes[k].first_slot
        &&& m2.classes[k].byte_size == m1.classes[k].byte_size
        &&& m2.classes[k].methods.len() == m1.classes[k].methods.len()
        &&& forall|i: int| #![trigger m2.classes[k].methods[i]] 0 <= i < m1.classes[k].methods.len() ==> {
            &&& m2.classes[k].methods[i].name == m1.classes[k].methods[i].name
            &&& m2.classes[k].methods[i].types == m1.classes[k].methods[i].types
        }
    }
}

/// Changing only the implementations of methods keeps a runtime
/// well-formed.
proof fn lemma_implementations_keep_wf<I>(m1: RuntimeModel<I>, m2: RuntimeModel<I>)
    requires
        m1.wf(),
        same_but_implementations(m1, m2),
    ensures
        m2.wf(),
{
    assert forall|k: int| 0 <= k < m2.classes.len() implies #[trigger] m2.class_wf(k) by {
        assert(m1.class_wf(k));
        let ms = m2.classes[k].methods;
        let olds = m1.classes[k].methods;
        assert forall|a: int, b: int|
            #![trigger ms[a], ms[b]]
            0 <= a < ms.len() && 0 <= b < ms.len() && a != b implies ms[a].name != ms[b].name by {
            assert(olds[a].name != olds[b].name);
        }
        assert forall|a: int| 0 <= a < ms.len() implies method_codes_ok((#[trigger] ms[a]).types) by {
            assert(method_codes_ok(olds[a].types));
        }
        let meta = m1.classes[k].meta as int;
        assert(m2.classes[meta].is_meta == m1.classes[meta].is_meta);
        match m1.classes[k].superclass {
            Some(p) => {
                assert(m2.classes[p as int].first_slot == m1.classes[p as int].first_slot);
            },
            None => {},
        }
    }
    assert forall|o: int| 0 <= o < m2.objects.len() implies #[trigger] m2.object_wf(o) by {
        assert(m1.object_wf(o));
        assert(m2.classes[m1.objects[o].class as int].registered == m1.classes[m1.objects[o].class as int].registered);
    }
    assert forall|c1: int, c2: int|
        #![trigger m2.classes[c1].name, m2.classes[c2].name]
        m2.is_live_class(c1) && m2.is_live_class(c2) && c1 != c2 implies m2.classes[c1].name
            != m2.classes[c2].name by {
        assert(m1.is_live_class(c1) && m1.is_live_class(c2));
    }
}

/// The method `lookup_method` finds lies within the classes and their
/// methods.
pub proof fn lemma_lookup_method_found<I>(m: RuntimeModel<I>, c: int, sel: Seq<char>)
    ensures
        m.lookup_method(c, sel) matches Some(found) ==> {
            &&& 0 <= found.0 < m.classes.len()
            &&& 0 <= found.1 < m.classes[found.0].methods.len()
            &&& m.method_at(found).name == sel
        },
    decreases c,
{
    if 0 <= c < m.classes.len() {
        lemma_find_method(m.classes[c].methods, sel);
        match find_method(m.classes[c].methods, sel) {
            Some(i) => {},
            None => {
                match m.classes[c].superclass {
                    Some(s) => {
                        if s < c {
                            lemma_lookup_method_found(m, s as int, sel);
                        }
                    },
                    None => {},
                }
            },
        }
    }
}

/// Replacing the implementations of two different methods gives the same
/// runtime in either order.
proof fn lemma_implementations_commute<I>(m: RuntimeModel<I>, f1: (int, int), f2: (int, int), x: I, y: I)
    requires
        f1 != f2,
        0 <= f1.0 < m.classes.len(),
        0 <= f1.1 < m.classes[f1.0].methods.len(),
        0 <= f2.0 < m.classes.len(),
        0 <= f2.1 < m.classes[f2.0].methods.len(),
    ensures
        m.with_implementation(f1, x).with_implementation(f2, y) == m.with_implementation(f2, y).with_implementation(
            f1,
            x,
        ),
{
    let a = m.with_implementation(f1, x).with_implementation(f2, y);
    let b = m.with_implementation(f2, y).with_implementation(f1, x);
    assert(a.classes[f1.0].methods =~= b.classes[f1.0].methods);
    assert(a.classes[f2.0].methods =~= b.classes[f2.0].methods);
    assert(a.classes =~= b.classes);
}

/// Exchanging the implementations of two methods twice gives back the
/// runtime as it was.
pub proof fn lemma_exchange_twice_restores<I>(m: RuntimeModel<I>, f1: (int, int), f2: (int, int))
    requires
        0 <= f1.0 < m.classes.len(),
        0 <= f1.1 < m.classes[f1.0].methods.len(),
        0 <= f2.0 < m.classes.len(),
        0 <= f2.1 < m.classes[f2.0].methods.len(),
    ensures
        ({
            let once = m.with_implementation(f1, m.method_at(f2).imp).with_implementation(f2, m.method_at(f1).imp);
            let twice = once.with_implementation(f1, once.method_at(f2).imp).with_implementation(
                f2,
                once.method_at(f1).imp,
            );
            twice == m
        }),
{
    let once = m.with_implementation(f1, m.method_at(f2).imp).with_implementation(f2, m.method_at(f1).imp);
    let twice = once.with_implementation(f1, once.method_at(f2).imp).with_implementation(f2, once.method_at(f1).imp);
    if f1 == f2 {
        assert(once.classes[f1.0].methods =~= m.classes[f1.0].methods);
        assert(once.classes =~= m.classes);
        assert(twice.classes[f1.0].methods =~= m.classes[f1.0].methods);
        assert(twice.classes =~= m.classes);
    } else if f1.0 == f2.0 {
        assert(twice.classes[f1.0].methods =~= m.classes[f1.0].methods);
        assert(twice.classes =~= m.classes);
    } else {
        assert(twice.classes[f1.0].methods =~= m.classes[f1.0].methods);
        assert(twice.classes[f2.0].methods =~= m.classes[f2.0].methods);
        assert(twice.classes =~= m.classes);
    }
}

/// Values that can be held in an instance variable slot: they are stored
/// as a word and read back from it.
pub trait IvarValue: Encode + Sized {
    /// The word that stores `v`.
    spec fn to_word_spec(v: Self) -> u64;

    /// The value that word `w` holds.
    spec fn from_word_spec(w: u64) -> Self;

    /// Reading back a stored value gives that value.
    proof fn lemma_word_roundtrip(v: Self)
        ensures
            Self::from_word_spec(Self::to_word_spec(v)) == v,
    ;

    /// The word that stores `self`.
    fn to_word(self) -> (w: u64)
        ensures
            w == Self::to_word_spec(self),
    ;

    /// The value that word `w` holds.
    fn from_word(w: u64) -> (v: Self)
        ensures
            v == Self::from_word_spec(w),
    ;
}

impl IvarValue for u8 {
    open spec fn to_word_spec(v: u8) -> u64 {
        v as u64
    }

    open spec fn from_word_spec(w: u64) -> u8 {
        w as u8
    }

    proof fn lemma_word_roundtrip(v: u8) {
    }

    fn to_word(self) -> (w: u64) {
        self as u64
    }

    fn from_word(w: u64) -> (v: u8) {
        w as u8
    }
}

impl IvarValue for u16 {
    open spec fn to_word_spec(v: u16) -> u64 {
        v as u64
    }

    open spec fn from_word_spec(w: u64) -> u16 {
        w as u16
    }

    proof fn lemma_word_roundtrip(v: u16) {
    }

    fn to_word(self) -> (w: u64) {
        self as u64
    }

    fn from_word(w: u64) -> (v: u16) {
        w as u16
    }
}

impl IvarValue for u32 {
    open spec fn to_word_spec(v: u32) -> u64 {
        v as u64
    }

    open spec fn from_word_spec(w: u64) -> u32 {
        w as u32
    }

    proof fn lemma_word_roundtrip(v: u32) {
    }

    fn to_word(self) -> (w: u64) {
        self as u64
    }

    fn from_word(w: u64) -> (v: u32) {
        w as u32
    }
}

impl IvarValue for u64 {
    open spec fn to_word_spec(v: u64) -> u64 {
        v as u64
    }

    open spec fn from_word_spec(w: u64) -> u64 {
        w as u64
    }

    proof fn lemma_word_roundtrip(v: u64) {
    }

    fn to_word(self) -> (w: u64) {
        self as u64
    }

    fn from_word(w: u64) -> (v: u64) {
        w as u64
    }
}

impl IvarValue for usize {
    open spec fn to_word_spec(v: usize) -> u64 {
        v as u64
    }

    open spec fn from_word_spec(w: u64) -> usize {
        w as usize
    }

    proof fn lemma_word_roundtrip(v: usize) {
    }

    fn to_word(self) -> (w: u64) {
        self as u64
    }

    fn from_word(w: u64) -> (v: usize) {
        w as usize
    }
}

impl IvarValue for Class {
    open spec fn to_word_spec(v: Class) -> u64 {
        v.idx as u64
    }

    open spec fn from_word_spec(w: u64) -> Class {
        Class { idx: w as usize }
    }

    proof fn lemma_word_roundtrip(v: Class) {
    }

    fn to_word(self) -> (w: u64) {
        self.idx as u64
    }

    fn from_word(w: u64) -> (v: Class) {
        Class { idx: w as usize }
    }
}

impl IvarValue for i8 {
    open spec fn to_word_spec(v: i8) -> u64 {
        v as u8 as u64
    }

    open spec fn from_word_spec(w: u64) -> i8 {
        w as u8 as i8
    }

    proof fn lemma_word_roundtrip(v: i8) {
        assert(v as u8 as u64 as u8 as i8 == v) by (bit_vector);
    }

    fn to_word(self) -> (w: u64) {
        self as u8 as u64
    }

    fn from_word(w: u64) -> (v: i8) {
        w as u8 as i8
    }
}

impl IvarValue for i16 {
    open spec fn to_word_spec(v: i16) -> u64 {
        v as u16 as u64
    }

    open spec fn from_word_spec(w: u64) -> i16 {
        w as u16 as i16
    }

    proof fn lemma_word_roundtrip(v: i16) {
        assert(v as u16 as u64 as u16 as i16 == v) by (bit_vector);
    }

    fn to_word(self) -> (w: u64) {
        self as u16 as u64
    }

    fn from_word(w: u64) -> (v: i16) {
        w as u16 as i16
    }
}

impl IvarValue for i32 {
    open spec fn to_word_spec(v: i32) -> u64 {
        v as u32 as u64
    }

    open spec fn from_word_spec(w: u64) -> i32 {
        w as u32 as i32
    }

    proof fn lemma_word_roundtrip(v: i32) {
        assert(v as u32 as u64 as u32 as i32 == v) by (bit_vector);
    }

    fn to_word(self) -> (w: u64) {
        self as u32 as u64
    }

    fn from_word(w: u64) -> (v: i32) {
        w as u32 as i32
    }
}

impl IvarValue for i64 {
    open spec fn to_word_spec(v: i64) -> u64 {
        v as u64 as u64
    }

    open spec fn from_word_spec(w: u64) -> i64 {
        w as u64 as i64
    }

    proof fn lemma_word_roundtrip(v: i64) {
        assert(v as u64 as u64 as u64 as i64 == v) by (bit_vector);
    }

    fn to_word(self) -> (w: u64) {
        self as u64 as u64
    }

    fn from_word(w: u64) -> (v: i64) {
        w as u64 as i64
    }
}

impl IvarValue for bool {
    open spec fn to_word_spec(v: bool) -> u64 {
        if v {
            1
        } else {
            0
        }
    }

    open spec fn from_word_spec(w: u64) -> bool {
        w != 0
    }

    proof fn lemma_word_roundtrip(v: bool) {
    }

    fn to_word(self) -> (w: u64) {
        if self {
            1
        } else {
            0
        }
    }

    fn from_word(w: u64) -> (v: bool) {
        w != 0
    }
}

/// Every instance variable of a new instance of `c`, other than the `isa`
/// in the first slot, holds the zero word, so an integer one reads as 0.
pub proof fn lemma_new_instance_ivars_zero<I>(m: RuntimeModel<I>, c: Class, name: Seq<char>)
    requires
        m.wf(),
        m.is_registered_class(c.idx as int),
        m.lookup_ivar(c.idx as int, name) is Some,
        m.ivar_at(m.lookup_ivar(c.idx as int, name).unwrap()).slot != 0,
    ensures
        ({
            let slot = m.ivar_at(m.lookup_ivar(c.idx as int, name).unwrap()).slot as int;
            let inst = m.new_instance(c);
            &&& 0 < slot < inst.slots.len()
            &&& inst.slots[slot] == 0
            &&& u32::from_word_spec(inst.slots[slot]) == 0
            &&& u64::from_word_spec(inst.slots[slot]) == 0
            &&& i32::from_word_spec(inst.slots[slot]) == 0
            &&& i64::from_word_spec(inst.slots[slot]) == 0
            &&& !bool::from_word_spec(inst.slots[slot])
        }),
{
    lemma_lookup_ivar_slot(m, c.idx as int, name);
    lemma_signed_words(0, 0, 0, 0, 0);
    lemma_unsigned_words(0, 0, 0, 0, 0);
}

/// A `bool` is stored as 1 when true and 0 when false, and any word other
/// than 0 reads as true; a `usize` is stored as its own value and a word
/// that fits reads back as that number; a class is stored as its index.
pub proof fn lemma_other_words(b: bool, u: usize, c: Class, w: u64)
    ensures
        bool::to_word_spec(true) == 1 && bool::to_word_spec(false) == 0,
        bool::from_word_spec(w) <==> w != 0,
        bool::from_word_spec(bool::to_word_spec(b)) == b,
        usize::to_word_spec(u) == u as int,
        w <= usize::MAX ==> usize::from_word_spec(w) == w as int,
        Class::to_word_spec(c) == c.idx as int,
        Class::from_word_spec(Class::to_word_spec(c)) == c,
{
}

/// An unsigned integer is stored as its own value, and a word below the
/// type's bound reads back as that same number; so the zero word reads as 0.
pub proof fn lemma_unsigned_words(a: u8, b: u16, c: u32, d: u64, w: u64)
    ensures
        u8::to_word_spec(a) == a as int,
        u16::to_word_spec(b) == b as int,
        u32::to_word_spec(c) == c as int,
        u64::to_word_spec(d) == d as int,
        w < 0x100 ==> u8::from_word_spec(w) == w as int,
        w < 0x1_0000 ==> u16::from_word_spec(w) == w as int,
        w < 0x1_0000_0000 ==> u32::from_word_spec(w) == w as int,
        u64::from_word_spec(w) == w as int,
        u8::from_word_spec(0) == 0 && u16::from_word_spec(0) == 0 && u32::from_word_spec(0) == 0
            && u64::from_word_spec(0) == 0,
{
    assert(w < 0x100 ==> (w as u8) as int == w as int) by (bit_vector);
    assert(w < 0x1_0000 ==> (w as u16) as int == w as int) by (bit_vector);
    assert(w < 0x1_0000_0000 ==> (w as u32) as int == w as int) by (bit_vector);
}

/// A signed integer is stored as its two's-complement bit pattern in the
/// low bits of the word: a value that is not negative as itself, a negative
/// one as itself plus two to the type's width. A word below two to the width
/// reads back as that number, less two to the width when its top bit is set;
/// so the zero word reads as 0.
pub proof fn lemma_signed_words(a: i8, b: i16, c: i32, d: i64, w: u64)
    ensures
        a >= 0 ==> i8::to_word_spec(a) == a as int,
        a < 0 ==> i8::to_word_spec(a) == a + 0x100,
        b >= 0 ==> i16::to_word_spec(b) == b as int,
        b < 0 ==> i16::to_word_spec(b) == b + 0x1_0000,
        c >= 0 ==> i32::to_word_spec(c) == c as int,
        c < 0 ==> i32::to_word_spec(c) == c + 0x1_0000_0000,
        d >= 0 ==> i64::to_word_spec(d) == d as int,
        d < 0 ==> i64::to_word_spec(d) == d + 0x1_0000_0000_0000_0000,
        w < 0x80 ==> i8::from_word_spec(w) == w as int,
        0x80 <= w < 0x100 ==> i8::from_word_spec(w) == w - 0x100,
        w < 0x8000 ==> i16::from_word_spec(w) == w as int,
        0x8000 <= w < 0x1_0000 ==> i16::from_word_spec(w) == w - 0x1_0000,
        w < 0x8000_0000 ==> i32::from_word_spec(w) == w as int,
        0x8000_0000 <= w < 0x1_0000_0000 ==> i32::from_word_spec(w) == w - 0x1_0000_0000,
        w < 0x8000_0000_0000_0000 ==> i64::from_word_spec(w) == w as int,
        0x8000_0000_0000_0000 <= w ==> i64::from_word_spec(w) == w - 0x1_0000_0000_0000_0000,
        i8::from_word_spec(0) == 0 && i16::from_word_spec(0) == 0 && i32::from_word_spec(0) == 0
            && i64::from_word_spec(0) == 0,
{
    assert(a >= 0 ==> (a as u8 as u64) as int == a as int) by (bit_vector);
    assert(a < 0 ==> (a as u8 as u64) as int == a + 0x100) by (bit_vector);
    assert(b >= 0 ==> (b as u16 as u64) as int == b as int) by (bit_vector);
    assert(b < 0 ==> (b as u16 as u64) as int == b + 0x1_0000) by (bit_vector);
    assert(c >= 0 ==> (c as u32 as u64) as int == c as int) by (bit_vector);
    assert(c < 0 ==> (c as u32 as u64) as int == c + 0x1_0000_0000) by (bit_vector);
    assert(d >= 0 ==> (d as u64 as u64) as int == d as int) by (bit_vector);
    assert(d < 0 ==> (d as u64 as u64) as int == d + 0x1_0000_0000_0000_0000) by (bit_vector);
    assert(w < 0x80 ==> (w as u8 as i8) as int == w as int) by (bit_vector);
    assert(0x80 <= w < 0x100 ==> (w as u8 as i8) as int == w - 0x100) by (bit_vector);
    assert(w < 0x8000 ==> (w as u16 as i16) as int == w as int) by (bit_vector);
    assert(0x8000 <= w < 0x1_0000 ==> (w as u16 as i16) as int == w - 0x1_0000) by (bit_vector);
    assert(w < 0x8000_0000 ==> (w as u32 as i32) as int == w as int) by (bit_vector);
    assert(0x8000_0000 <= w < 0x1_0000_0000 ==> (w as u32 as i32) as int == w - 0x1_0000_0000) by (bit_vector);
    assert(w < 0x8000_0000_0000_0000 ==> (w as u64 as i64) as int == w as int) by (bit_vector);
    assert(0x8000_0000_0000_0000 <= w ==> (w as u64 as i64) as int == w - 0x1_0000_0000_0000_0000) by (bit_vector);
    assert((0u64 as u8 as i8) == 0i8) by (bit_vector);
    assert((0u64 as u16 as i16) == 0i16) by (bit_vector);
    assert((0u64 as u32 as i32) == 0i32) by (bit_vector);
    assert((0u64 as u64 as i64) == 0i64) by (bit_vector);
}

/// The state of an Objective-C runtime.
pub struct Runtime<I> {
    classes: Vec<ClassData<I>>,
    objects: Vec<ObjectData>,
}

impl<I> View for Runtime<I> {
    type V = RuntimeModel<I>;

    closed spec fn view(&self) -> RuntimeModel<I> {
        RuntimeModel {
            classes: self.classes@.map_values(|c: ClassData<I>| c@),
            objects: self.objects@.map_values(|o: ObjectData| o@),
        }
    }
}

impl<I> Runtime<I> {
    /// Allocates a new class named `name` and its metaclass, which can be
    /// given instance variables and methods before they are registered.
    /// Returns `None` when the name is already used by a live class, when the
    /// superclass is not a registered class, or when the runtime has no room
    /// for more classes.
    pub fn allocate_class_pair(&mut self, superclass: Option<Class>, name: &str) -> (r: Option<Class>)
        requires
            old(self)@.wf(),
            superclass matches Some(s) ==> old(self)@.valid_class(s),
        ensures
            final(self)@.wf(),
            final(self)@.objects == old(self)@.objects,
            old(self)@.can_allocate(superclass, name@) && old(self)@.classes.len() + 2 < usize::MAX
                ==> r is Some,
            !old(self)@.can_allocate(superclass, name@) ==> r is None,
            r is None ==> final(self)@ == old(self)@,
            r matches Some(c) ==> {
                let pair = old(self)@.new_class_pair(superclass, name@);
                &&& c.idx == old(self)@.classes.len()
                &&& final(self)@.classes == old(self)@.classes.push(pair.0).push(pair.1)
            },
    {
        let wanted = name.to_owned();
        let mut i: usize = 0;
        while i < self.classes.len()
            invariant
                i <= self@.classes.len(),
                wanted@ == name@,
                self@.wf(),
                forall|c: int| 0 <= c < i ==> !(self@.is_live_class(c) && #[trigger] self@.classes[c].name == name@),
            decreases self@.classes.len() - i,
        {
            let cd = &self.classes[i];
            if !cd.is_meta && !cd.disposed && cd.name == wanted {
                proof {
                    assert(self@.classes[i as int] == cd@);
                    assert(self@.is_live_class(i as int) && self@.classes[i as int].name == name@);
                }
                return None;
            }
            i = i + 1;
        }
        if self.classes.len() >= usize::MAX - 2 {
            return None;
        }
        let n = self.classes.len();
        let (sup, sup_meta, first_slot, byte_size) = match superclass {
            Some(s) => {
                let sd = &self.classes[s.idx];
                if sd.is_meta || !sd.registered {
                    return None;
                }
                proof {
                    assert(self@.class_wf(s.idx as int));
                }
                (Some(s.idx), sd.meta, sd.first_slot + sd.ivars.len(), sd.byte_size)
            },
            None => (None, n, 0, WORD_SIZE),
        };
        let cls = ClassData {
            name: wanted,
            superclass: sup,
            meta: n + 1,
            is_meta: false,
            ivars: Vec::new(),
            methods: Vec::new(),
            registered: false,
            disposed: false,
            first_slot,
            byte_size,
        };
        let meta = ClassData {
            name: name.to_owned(),
            superclass: Some(sup_meta),
            meta: n + 1,
            is_meta: true,
            ivars: Vec::new(),
            methods: Vec::new(),
            registered: false,
            disposed: false,
            first_slot: 0,
            byte_size: CLASS_OBJECT_SIZE,
        };
        let ghost old_m = self@;
        self.classes.push(cls);
        self.classes.push(meta);
        proof {
            let m = self@;
            let pair = old_m.new_class_pair(superclass, name@);
            assert(m.classes[n as int].ivars =~= seq![]);
            assert(m.classes[n as int].methods =~= seq![]);
            assert(m.classes[n + 1].ivars =~= seq![]);
            assert(m.classes[n + 1].methods =~= seq![]);
            assert(m.classes =~= old_m.classes.push(pair.0).push(pair.1));
            assert(m.objects =~= old_m.objects);
            assert forall|c: int| 0 <= c < m.classes.len() implies #[trigger] m.class_wf(c) by {
                if c < n {
                    assert(old_m.class_wf(c));
                    if let Some(s) = m.classes[c].superclass {
                        assert(m.total_slots(s as int) == old_m.total_slots(s as int));
                    }
                } else if c == n {
                    if let Some(s) = superclass {
                        assert(old_m.class_wf(s.idx as int));
                    }
                } else {
                    if let Some(s) = superclass {
                        assert(old_m.class_wf(s.idx as int));
                    }
                }
            }
            assert forall|o: int| 0 <= o < m.objects.len() implies #[trigger] m.object_wf(o) by {
                assert(old_m.object_wf(o));
                assert(m.total_slots(m.objects[o].class as int) == old_m.total_slots(
                    m.objects[o].class as int,
                ));
            }
            assert forall|c1: int, c2: int|
                #![trigger m.classes[c1].name, m.classes[c2].name]
                m.is_live_class(c1) && m.is_live_class(c2) && c1 != c2
                    implies m.classes[c1].name != m.classes[c2].name by {
                if c1 == n {
                    assert(!(old_m.is_live_class(c2) && old_m.classes[c2].name == name@));
                } else if c2 == n {
                    assert(!(old_m.is_live_class(c1) && old_m.classes[c1].name == name@));
                }
            }
            if !old_m.can_allocate(superclass, name@) {
                if old_m.name_in_use(name@) {
                    let c = choose|c: int| old_m.is_live_class(c) && #[trigger] old_m.classes[c].name == name@;
                    assert(!(old_m.is_live_class(c) && old_m.classes[c].name == name@));
                }
            }
        }
        Some(Class { idx: n })
    }

    /// Adds an instance variable named `name`, of `size` bytes aligned to
    /// `align` bytes and encoded `encoding`, to `c`: its value goes in the
    /// next slot of an instance, and it is placed at the first multiple of
    /// `align` past the class's size. Returns whether it was added.
    pub fn add_ivar(&mut self, c: Class, name: &str, encoding: Encoding, size: usize, align: usize) -> (added: bool)
        requires
            old(self)@.wf(),
            old(self)@.valid_class(c),
        ensures
            final(self)@.wf(),
            added == old(self)@.can_add_ivar(c, name@, size as nat, align as nat),
            !added ==> final(self)@ == old(self)@,
            added ==> final(self)@ == old(self)@.with_ivar(c, name@, encoding@, size as nat, align as nat),
    {
        let ghost old_m = self@;
        proof {
            assert(old_m.class_wf(c.idx as int));
        }
        let wanted = name.to_owned();
        let cd = &self.classes[c.idx];
        if cd.is_meta || cd.disposed || cd.registered {
            return false;
        }
        proof {
            assert(cd.ivars@.map_values(|v: Ivar| v@) == old_m.classes[c.idx as int].ivars);
        }
        if search_ivars(&cd.ivars, &wanted).is_some() {
            return false;
        }
        let slot = cd.first_slot + cd.ivars.len();
        if slot >= MAX_SLOTS {
            return false;
        }
        if align == 0 {
            return false;
        }
        let byte_size = cd.byte_size;
        let rem = byte_size % align;
        let pad = if rem == 0 {
            0
        } else {
            align - rem
        };
        if pad > MAX_INSTANCE_SIZE - byte_size {
            return false;
        }
        let offset = byte_size + pad;
        if size > MAX_INSTANCE_SIZE - offset {
            return false;
        }
        let ivar = Ivar { name: wanted, encoding, slot, offset };
        self.classes[c.idx].ivars.push(ivar);
        self.classes[c.idx].byte_size = offset + size;
        proof {
            let m = self@;
            let new_c = ClassModel {
                ivars: old_m.classes[c.idx as int].ivars.push(
                    IvarModel {
                        name: name@,
                        encoding: encoding@,
                        slot: old_m.total_slots(c.idx as int),
                        offset: offset as nat,
                    },
                ),
                byte_size: (offset + size) as nat,
                ..old_m.classes[c.idx as int]
            };
            assert(m.classes[c.idx as int].ivars =~= new_c.ivars);
            assert(m.classes =~= old_m.classes.update(c.idx as int, new_c));
            assert(m.objects =~= old_m.objects);
            assert forall|k: int| 0 <= k < m.classes.len() implies #[trigger] m.class_wf(k) by {
                assert(old_m.class_wf(k));
                if k == c.idx {
                    lemma_find_ivar(old_m.classes[k].ivars, name@);
                    assert forall|i: int, j: int|
                        #![trigger m.classes[k].ivars[i], m.classes[k].ivars[j]]
                        0 <= i < m.classes[k].ivars.len() && 0 <= j < m.classes[k].ivars.len() && i != j
                            implies m.classes[k].ivars[i].name != m.classes[k].ivars[j].name by {
                        let n = old_m.classes[k].ivars.len() as int;
                        if i == n {
                            assert(old_m.classes[k].ivars[j].name != name@);
                        } else if j == n {
                            assert(old_m.classes[k].ivars[i].name != name@);
                        } else {
                            assert(old_m.classes[k].ivars[i] == m.classes[k].ivars[i]);
                            assert(old_m.classes[k].ivars[j] == m.classes[k].ivars[j]);
                        }
                    }
                } else {
                    if let Some(sup) = m.classes[k].superclass {
                        if sup == c.idx && !m.classes[k].is_meta {
                            assert(old_m.classes[sup as int].registered);
                        }
                    }
                }
            }
            assert forall|o: int| 0 <= o < m.objects.len() implies #[trigger] m.object_wf(o) by {
                assert(old_m.object_wf(o));
            }
        }
        true
    }

    /// Adds `method` to `c`. Returns false, changing nothing, when `c` has
    /// been disposed or already declares a method with the same selector.
    /// A method of a superclass with the same selector is overridden.
    pub fn add_method(&mut self, c: Class, method: Method<I>) -> (added: bool)
        requires
            old(self)@.wf(),
            old(self)@.valid_class(c),
        ensures
            final(self)@.wf(),
            added == (!old(self)@.classes[c.idx as int].disposed
                && find_method(old(self)@.classes[c.idx as int].methods, method@.name) is None),
            !added ==> final(self)@ == old(self)@,
            added ==> final(self)@ == old(self)@.with_method(c, method@),
    {
        let ghost old_m = self@;
        let ghost mv = method@;
        proof {
            use_type_invariant(&method);
            assert(old_m.class_wf(c.idx as int));
        }
        let cd = &self.classes[c.idx];
        if cd.disposed {
            return false;
        }
        proof {
            assert(cd.methods@.map_values(|m: Method<I>| m@) == old_m.classes[c.idx as int].methods);
        }
        if search_methods(&cd.methods, &method.name).is_some() {
            return false;
        }
        self.classes[c.idx].methods.push(method);
        proof {
            let m = self@;
            let new_c = ClassModel {
                methods: old_m.classes[c.idx as int].methods.push(mv),
                ..old_m.classes[c.idx as int]
            };
            assert(m.classes[c.idx as int].methods =~= new_c.methods);
            assert(m.classes[c.idx as int].ivars =~= new_c.ivars);
            assert(m.classes =~= old_m.classes.update(c.idx as int, new_c));
            assert(m.objects =~= old_m.objects);
            assert forall|k: int| 0 <= k < m.classes.len() implies #[trigger] m.class_wf(k) by {
                assert(old_m.class_wf(k));
                if k == c.idx {
                    lemma_find_method(old_m.classes[k].methods, mv.name);
                    assert forall|i: int, j: int|
                        #![trigger m.classes[k].methods[i], m.classes[k].methods[j]]
                        0 <= i < m.classes[k].methods.len() && 0 <= j < m.classes[k].methods.len() && i
                            != j implies m.classes[k].methods[i].name != m.classes[k].methods[j].name by {
                        let n = old_m.classes[k].methods.len() as int;
                        if i == n {
                            assert(old_m.classes[k].methods[j].name != mv.name);
                        } else if j == n {
                            assert(old_m.classes[k].methods[i].name != mv.name);
                        } else {
                            assert(old_m.classes[k].methods[i] == m.classes[k].methods[i]);
                            assert(old_m.classes[k].methods[j] == m.classes[k].methods[j]);
                        }
                    }
                    assert forall|i: int| 0 <= i < m.classes[k].methods.len() implies method_codes_ok(
                    (#[trigger] m.classes[k].methods[i]).types) by {
                        if i < old_m.classes[k].methods.len() {
                            assert(old_m.classes[k].methods[i] == m.classes[k].methods[i]);
                        }
                    }
                }
            }
            assert forall|o: int| 0 <= o < m.objects.len() implies #[trigger] m.object_wf(o) by {
                assert(old_m.object_wf(o));
            }
        }
        true
    }

    /// Registers the allocated class `c` and its metaclass, after which
    /// `c` can be found by name and instantiated.
    pub fn register_class_pair(&mut self, c: Class)
        requires
            old(self)@.wf(),
            old(self)@.is_live_class(c.idx as int),
            !old(self)@.classes[c.idx as int].registered,
        ensures
            final(self)@.wf(),
            final(self)@ == old(self)@.with_registered(c),
    {
        let ghost old_m = self@;
        proof {
            assert(old_m.class_wf(c.idx as int));
        }
        let meta = self.classes[c.idx].meta;
        self.classes[c.idx].registered = true;
        self.classes[meta].registered = true;
        proof {
            let m = self@;
            let mi = meta as int;
            let ci = c.idx as int;
            let upd = old_m.classes.update(ci, ClassModel { registered: true, ..old_m.classes[ci] }).update(
                mi,
                ClassModel { registered: true, ..old_m.classes[mi] },
            );
            assert(m.classes[ci].ivars =~= old_m.classes[ci].ivars);
            assert(m.classes[ci].methods =~= old_m.classes[ci].methods);
            assert(m.classes[mi].ivars =~= old_m.classes[mi].ivars);
            assert(m.classes[mi].methods =~= old_m.classes[mi].methods);
            assert(m.classes =~= upd);
            assert(m.objects =~= old_m.objects);
            assert forall|k: int| 0 <= k < m.classes.len() implies #[trigger] m.class_wf(k) by {
                assert(old_m.class_wf(k));
                if let Some(s) = m.classes[k].superclass {
                    assert(m.total_slots(s as int) == old_m.total_slots(s as int));
                }
                assert(m.total_slots(k) == old_m.total_slots(k));
            }
            assert forall|o: int| 0 <= o < m.objects.len() implies #[trigger] m.object_wf(o) by {
                assert(old_m.object_wf(o));
                assert(m.total_slots(m.objects[o].class as int) == old_m.total_slots(
                    m.objects[o].class as int,
                ));
            }
            assert forall|c1: int, c2: int|
                #![trigger m.classes[c1].name, m.classes[c2].name]
                m.is_live_class(c1) && m.is_live_class(c2) && c1 != c2
                    implies m.classes[c1].name != m.classes[c2].name by {
                assert(old_m.is_live_class(c1) && old_m.is_live_class(c2));
            }
        }
    }

    /// Disposes of the allocated, unregistered class `c` and its metaclass;
    /// their name can then be used again.
    pub fn dispose_class_pair(&mut self, c: Class)
        requires
            old(self)@.wf(),
            old(self)@.is_live_class(c.idx as int),
            !old(self)@.classes[c.idx as int].registered,
        ensures
            final(self)@.wf(),
            final(self)@ == (RuntimeModel {
                classes: old(self)@.classes.update(
                    c.idx as int,
                    ClassModel { disposed: true, ..old(self)@.classes[c.idx as int] },
                ).update(
                    old(self)@.classes[c.idx as int].meta as int,
                    ClassModel {
                        disposed: true,
                        ..old(self)@.classes[old(self)@.classes[c.idx as int].meta as int]
                    },
                ),
                objects: old(self)@.objects,
            }),
    {
        let ghost old_m = self@;
        proof {
            assert(old_m.class_wf(c.idx as int));
        }
        let meta = self.classes[c.idx].meta;
        self.classes[c.idx].disposed = true;
        self.classes[meta].disposed = true;
        proof {
            let m = self@;
            let mi = meta as int;
            let ci = c.idx as int;
            let upd = old_m.classes.update(ci, ClassModel { disposed: true, ..old_m.classes[ci] }).update(
                mi,
                ClassModel { disposed: true, ..old_m.classes[mi] },
            );
            assert(m.classes[ci].ivars =~= old_m.classes[ci].ivars);
            assert(m.classes[ci].methods =~= old_m.classes[ci].methods);
            assert(m.classes[mi].ivars =~= old_m.classes[mi].ivars);
            assert(m.classes[mi].methods =~= old_m.classes[mi].methods);
            assert(m.classes =~= upd);
            assert(m.objects =~= old_m.objects);
            assert forall|k: int| 0 <= k < m.classes.len() implies #[trigger] m.class_wf(k) by {
                assert(old_m.class_wf(k));
                if let Some(s) = m.classes[k].superclass {
                    assert(m.total_slots(s as int) == old_m.total_slots(s as int));
                }
                assert(m.total_slots(k) == old_m.total_slots(k));
            }
            assert forall|o: int| 0 <= o < m.objects.len() implies #[trigger] m.object_wf(o) by {
                assert(old_m.object_wf(o));
                assert(m.total_slots(m.objects[o].class as int) == old_m.total_slots(
                    m.objects[o].class as int,
                ));
            }
            assert forall|c1: int, c2: int|
                #![trigger m.classes[c1].name, m.classes[c2].name]
                m.is_live_class(c1) && m.is_live_class(c2) && c1 != c2
                    implies m.classes[c1].name != m.classes[c2].name by {
                assert(old_m.is_live_class(c1) && old_m.is_live_class(c2));
            }
        }
    }

    /// Creates an instance of the registered class `c`: its `isa` slot
    /// holds its class, every other instance variable slot is zero, and its
    /// retain count is one.
    pub fn create_instance(&mut self, c: Class) -> (o: Object)
        requires
            old(self)@.wf(),
            old(self)@.is_registered_class(c.idx as int),
            old(self)@.objects.len() < usize::MAX,
        ensures
            final(self)@.wf(),
            o.idx == old(self)@.objects.len(),
            final(self)@.classes == old(self)@.classes,
            final(self)@.objects == old(self)@.objects.push(old(self)@.new_instance(c)),
    {
        let ghost old_m = self@;
        proof {
            assert(old_m.class_wf(c.idx as int));
        }
        let cd = &self.classes[c.idx];
        let n = cd.first_slot + cd.ivars.len();
        let isa = c.idx as u64;
        let mut slots: Vec<u64> = Vec::new();
        let mut i: usize = 0;
        while i < n
            invariant
                i <= n,
                isa == c.idx as u64,
                slots@ =~= Seq::new(
                    i as nat,
                    |k: int|
                        if k == 0 {
                            isa
                        } else {
                            0u64
                        },
                ),
            decreases n - i,
        {
            if i == 0 {
                slots.push(isa);
            } else {
                slots.push(0);
            }
            i = i + 1;
        }
        let idx = self.objects.len();
        self.objects.push(ObjectData { class: c.idx, slots, retain_count: 1 });
        proof {
            let m = self@;
            assert(m.classes =~= old_m.classes);
            assert(m.objects =~= old_m.objects.push(old_m.new_instance(c)));
            assert forall|k: int| 0 <= k < m.classes.len() implies #[trigger] m.class_wf(k) by {
                assert(old_m.class_wf(k));
            }
            assert forall|o: int| 0 <= o < m.objects.len() implies #[trigger] m.object_wf(o) by {
                if o < idx {
                    assert(old_m.object_wf(o));
                }
            }
        }
        Object { idx }
    }

    /// Where the method that an instance of `c` runs for `sel` is declared:
    /// its class and its index among that class's methods.
    fn method_position(&self, c: Class, sel: &Sel) -> (r: Option<(usize, usize)>)
        requires
            self@.wf(),
            self@.valid_class(c),
        ensures
            match self@.lookup_method(c.idx as int, sel@) {
                Some(found) => r matches Some(p) && p.0 == found.0 && p.1 == found.1,
                None => r is None,
            },
    {
        let mut cur: usize = c.idx;
        loop
            invariant
                self@.wf(),
                cur < self@.classes.len(),
                self@.lookup_method(c.idx as int, sel@) == self@.lookup_method(cur as int, sel@),
            decreases cur,
        {
            let cd = &self.classes[cur];
            proof {
                assert(self@.class_wf(cur as int));
                assert(cd.methods@.map_values(|m: Method<I>| m@) == self@.classes[cur as int].methods);
            }
            match search_methods(&cd.methods, sel) {
                Some(i) => {
                    return Some((cur, i));
                },
                None => {
                    match cd.superclass {
                        Some(s) => {
                            cur = s;
                        },
                        None => {
                            return None;
                        },
                    }
                },
            }
        }
    }

    /// Replaces the implementation of the method at position `d`, `i` (a
    /// class and an index among its methods) with `imp`; returns the one it
    /// had.
    fn replace_implementation(&mut self, d: usize, i: usize, imp: I) -> (old_imp: I)
        requires
            old(self)@.wf(),
            d < old(self)@.classes.len(),
            i < old(self)@.classes[d as int].methods.len(),
        ensures
            final(self)@.wf(),
            old_imp == old(self)@.classes[d as int].methods[i as int].imp,
            final(self)@ == old(self)@.with_implementation((d as int, i as int), imp),
    {
        let ghost old_m = self@;
        proof {
            assert(old_m.class_wf(d as int));
            assert(self.classes@[d as int].methods@.map_values(|m: Method<I>| m@) == old_m.classes[d as int].methods);
        }
        let m = self.classes[d].methods.remove(i);
        proof {
            use_type_invariant(&m);
        }
        let Method { name, types, imp: old_imp } = m;
        let ghost mv = MethodModel { imp: imp, ..old_m.classes[d as int].methods[i as int] };
        let new_m = Method { name, types, imp };
        self.classes[d].methods.insert(i, new_m);
        proof {
            let m2 = self@;
            let target = old_m.with_implementation((d as int, i as int), imp);
            assert(new_m@ == mv);
            assert(m2.classes[d as int].methods =~= old_m.classes[d as int].methods.update(i as int, mv));
            assert(m2.classes =~= target.classes);
            assert(m2.objects =~= target.objects);
            lemma_implementations_keep_wf(old_m, m2);
        }
        old_imp
    }

    /// Replaces the implementation of the method that an instance of `c`
    /// runs for `sel` (declared by `c` or by one of its superclasses) with
    /// `imp`; returns the implementation it had, or `None`, leaving the
    /// runtime as it was, when there is no such method.
    pub fn set_implementation(&mut self, c: Class, sel: &Sel, imp: I) -> (old_imp: Option<I>)
        requires
            old(self)@.wf(),
            old(self)@.valid_class(c),
        ensures
            final(self)@.wf(),
            match old(self)@.lookup_method(c.idx as int, sel@) {
                Some(found) => old_imp == Some(old(self)@.method_at(found).imp) && final(self)@ == old(
                    self,
                )@.with_implementation(found, imp),
                None => old_imp is None && final(self)@ == old(self)@,
            },
    {
        match self.method_position(c, sel) {
            Some((d, i)) => {
                proof {
                    crate::runtime::lemma_lookup_method_found(self@, c.idx as int, sel@);
                }
                Some(self.replace_implementation(d, i, imp))
            },
            None => None,
        }
    }

    /// Exchanges the implementations of the methods at positions `lo` and
    /// `hi` of class `d`.
    fn swap_implementations_in_class(&mut self, d: usize, lo: usize, hi: usize)
        requires
            old(self)@.wf(),
            d < old(self)@.classes.len(),
            lo < hi < old(self)@.classes[d as int].methods.len(),
        ensures
            final(self)@.wf(),
            final(self)@ == old(self)@.with_implementation(
                (d as int, lo as int),
                old(self)@.method_at((d as int, hi as int)).imp,
            ).with_implementation((d as int, hi as int), old(self)@.method_at((d as int, lo as int)).imp),
    {
        let ghost old_m = self@;
        let ghost target = old_m.with_implementation(
            (d as int, lo as int),
            old_m.method_at((d as int, hi as int)).imp,
        ).with_implementation((d as int, hi as int), old_m.method_at((d as int, lo as int)).imp);
        proof {
            assert(self.classes@[d as int].methods@.map_values(|m: Method<I>| m@) == old_m.classes[d as int].methods);
        }
        let m_hi = self.classes[d].methods.remove(hi);
        let m_lo = self.classes[d].methods.remove(lo);
        proof {
            use_type_invariant(&m_hi);
            use_type_invariant(&m_lo);
        }
        let Method { name: name_lo, types: types_lo, imp: imp_lo } = m_lo;
        let Method { name: name_hi, types: types_hi, imp: imp_hi } = m_hi;
        let new_lo = Method { name: name_lo, types: types_lo, imp: imp_hi };
        let new_hi = Method { name: name_hi, types: types_hi, imp: imp_lo };
        self.classes[d].methods.insert(lo, new_lo);
        self.classes[d].methods.insert(hi, new_hi);
        proof {
            let m2 = self@;
            let news = m2.classes[d as int].methods;
            assert(news.len() == old_m.classes[d as int].methods.len());
            // Split on the two positions whose implementations moved.
            assert forall|k: int| 0 <= k < news.len() implies news[k] == target.classes[d as int].methods[k] by {
                if k == lo as int {
                } else if k == hi as int {
                } else {
                }
            }
            assert(news =~= target.classes[d as int].methods);
            assert(m2.classes =~= target.classes);
            assert(m2.objects =~= target.objects);
            lemma_implementations_keep_wf(old_m, m2);
        }
    }

    /// Exchanges the implementations of the method at position `i1` of class
    /// `d1` and the method at position `i2` of another class `d2`.
    fn swap_implementations_across(&mut self, d1: usize, i1: usize, d2: usize, i2: usize)
        requires
            old(self)@.wf(),
            d1 < old(self)@.classes.len(),
            d2 < old(self)@.classes.len(),
            d1 != d2,
            i1 < old(self)@.classes[d1 as int].methods.len(),
            i2 < old(self)@.classes[d2 as int].methods.len(),
        ensures
            final(self)@.wf(),
            final(self)@ == old(self)@.with_implementation(
                (d1 as int, i1 as int),
                old(self)@.method_at((d2 as int, i2 as int)).imp,
            ).with_implementation((d2 as int, i2 as int), old(self)@.method_at((d1 as int, i1 as int)).imp),
    {
        let ghost old_m = self@;
        let ghost target = old_m.with_implementation(
            (d1 as int, i1 as int),
            old_m.method_at((d2 as int, i2 as int)).imp,
        ).with_implementation((d2 as int, i2 as int), old_m.method_at((d1 as int, i1 as int)).imp);
        proof {
            assert(self.classes@[d1 as int].methods@.map_values(|m: Method<I>| m@) == old_m.classes[d1 as int].methods);
            assert(self.classes@[d2 as int].methods@.map_values(|m: Method<I>| m@) == old_m.classes[d2 as int].methods);
        }
        let m1 = self.classes[d1].methods.remove(i1);
        let m2 = self.classes[d2].methods.remove(i2);
        proof {
            use_type_invariant(&m1);
            use_type_invariant(&m2);
        }
        let Method { name: name1, types: types1, imp: imp1 } = m1;
        let Method { name: name2, types: types2, imp: imp2 } = m2;
        self.classes[d1].methods.insert(i1, Method { name: name1, types: types1, imp: imp2 });
        self.classes[d2].methods.insert(i2, Method { name: name2, types: types2, imp: imp1 });
        proof {
            let mm = self@;
            assert(mm.classes[d1 as int].methods =~= target.classes[d1 as int].methods);
            assert(mm.classes[d2 as int].methods =~= target.classes[d2 as int].methods);
            assert(mm.classes =~= target.classes);
            assert(mm.objects =~= target.objects);
            lemma_implementations_keep_wf(old_m, mm);
        }
    }

    /// Exchanges the implementations of the method that an instance of `c1`
    /// runs for `sel1` and the method that an instance of `c2` runs for
    /// `sel2`; both must exist.
    pub fn exchange_implementations(&mut self, c1: Class, sel1: &Sel, c2: Class, sel2: &Sel)
        requires
            old(self)@.wf(),
            old(self)@.valid_class(c1),
            old(self)@.valid_class(c2),
            old(self)@.lookup_method(c1.idx as int, sel1@) is Some,
            old(self)@.lookup_method(c2.idx as int, sel2@) is Some,
        ensures
            final(self)@.wf(),
            ({
                let f1 = old(self)@.lookup_method(c1.idx as int, sel1@).unwrap();
                let f2 = old(self)@.lookup_method(c2.idx as int, sel2@).unwrap();
                final(self)@ == old(self)@.with_implementation(f1, old(self)@.method_at(f2).imp).with_implementation(
                    f2,
                    old(self)@.method_at(f1).imp,
                )
            }),
    {
        let ghost old_m = self@;
        proof {
            lemma_lookup_method_found(old_m, c1.idx as int, sel1@);
            lemma_lookup_method_found(old_m, c2.idx as int, sel2@);
        }
        let (d1, i1) = self.method_position(c1, sel1).unwrap();
        let (d2, i2) = self.method_position(c2, sel2).unwrap();
        if d1 == d2 && i1 == i2 {
            proof {
                let f = (d1 as int, i1 as int);
                let target = old_m.with_implementation(f, old_m.method_at(f).imp).with_implementation(
                    f,
                    old_m.method_at(f).imp,
                );
                assert(target.classes[f.0].methods =~= old_m.classes[f.0].methods);
                assert(target.classes =~= old_m.classes);
            }
        } else if d1 != d2 {
            self.swap_implementations_across(d1, i1, d2, i2);
        } else if i1 < i2 {
            self.swap_implementations_in_class(d1, i1, i2);
        } else {
            self.swap_implementations_in_class(d1, i2, i1);
            proof {
                lemma_implementations_commute(
                    old_m,
                    (d1 as int, i2 as int),
                    (d1 as int, i1 as int),
                    old_m.method_at((d1 as int, i1 as int)).imp,
                    old_m.method_at((d1 as int, i2 as int)).imp,
                );
            }
        }
    }

    /// Increments the retain count of the live object `o`.
    pub fn retain(&mut self, o: Object)
        requires
            old(self)@.wf(),
            old(self)@.is_live(o),
            old(self)@.objects[o.idx as int].retain_count < usize::MAX,
        ensures
            final(self)@.wf(),
            final(self)@ == old(self)@.with_retain_count(o, old(self)@.objects[o.idx as int].retain_count + 1),
    {
        let ghost old_m = self@;
        self.objects[o.idx].retain_count = self.objects[o.idx].retain_count + 1;
        proof {
            self.lemma_retain_count_update(old_m, o);
        }
    }

    /// Decrements the retain count of the live object `o`; the object is
    /// deallocated when it reaches zero.
    pub fn release(&mut self, o: Object)
        requires
            old(self)@.wf(),
            old(self)@.is_live(o),
        ensures
            final(self)@.wf(),
            final(self)@ == old(self)@.with_retain_count(o, (old(self)@.objects[o.idx as int].retain_count - 1) as nat),
    {
        let ghost old_m = self@;
        self.objects[o.idx].retain_count = self.objects[o.idx].retain_count - 1;
        proof {
            self.lemma_retain_count_update(old_m, o);
        }
    }

    proof fn lemma_retain_count_update(&self, old_m: RuntimeModel<I>, o: Object)
        requires
            old_m.wf(),
            old_m.valid_object(o),
            self@.classes == old_m.classes,
            self@.objects.len() == old_m.objects.len(),
            forall|k: int| 0 <= k < self.objects@.len() && k != o.idx ==> self@.objects[k] == old_m.objects[k],
            self.objects@[o.idx as int].class == old_m.objects[o.idx as int].class,
            self.objects@[o.idx as int].slots@ == old_m.objects[o.idx as int].slots,
        ensures
            self@.wf(),
            self@ == old_m.with_retain_count(o, self.objects@[o.idx as int].retain_count as nat),
    {
        let m = self@;
        assert(m.objects =~= old_m.objects.update(
            o.idx as int,
            ObjectModel { retain_count: self.objects@[o.idx as int].retain_count as nat, ..old_m.objects[o.idx as int] },
        ));
        assert forall|k: int| 0 <= k < m.classes.len() implies #[trigger] m.class_wf(k) by {
            assert(old_m.class_wf(k));
        }
        assert forall|k: int| 0 <= k < m.objects.len() implies #[trigger] m.object_wf(k) by {
            assert(old_m.object_wf(k));
        }
    }

    /// Every index below the number of objects is the index of an object.
    pub proof fn lemma_object_at(&self, k: int)
        requires
            0 <= k < self@.objects.len(),
        ensures
            self@.valid_object(Object { idx: k as usize }),
            (Object { idx: k as usize }).idx == k,
    {
        assert(self.objects.len() == self.objects@.len());
    }

    /// The retain count of object `o` (zero once it has been deallocated).
    pub fn retain_count(&self, o: Object) -> (n: usize)
        requires
            self@.valid_object(o),
        ensures
            n == self@.objects[o.idx as int].retain_count,
    {
        self.objects[o.idx].retain_count
    }

    /// Loads a weak reference to `o`: if `o` is still live, retains it and
    /// returns it; if it has been deallocated, returns `None`.
    pub fn load_weak(&mut self, o: Object) -> (r: Option<Object>)
        requires
            old(self)@.wf(),
            old(self)@.valid_object(o),
            old(self)@.objects[o.idx as int].retain_count < usize::MAX,
        ensures
            final(self)@.wf(),
            old(self)@.is_live(o) ==> r == Some(o) && final(self)@ == old(self)@.with_retain_count(
                o,
                old(self)@.objects[o.idx as int].retain_count + 1,
            ),
            !old(self)@.is_live(o) ==> r is None && final(self)@ == old(self)@,
    {
        if self.objects[o.idx].retain_count == 0 {
            None
        } else {
            self.retain(o);
            Some(o)
        }
    }

    /// The slot of object `o`'s instance variable named `name`.
    fn ivar_slot(&self, o: Object, name: &str) -> (slot: usize)
        requires
            no_nul(name@),
            self@.wf(),
            self@.valid_object(o),
            self@.object_ivar(o, name@) is Some,
        ensures
            slot == self@.ivar_at(self@.object_ivar(o, name@).unwrap()).slot,
            slot < self@.objects[o.idx as int].slots.len(),
    {
        proof {
            assert(self@.object_wf(o.idx as int));
            lemma_lookup_ivar_slot(self@, self@.objects[o.idx as int].class as int, name@);
        }
        let c = o.class(self);
        let ivar = c.instance_variable(self, name);
        ivar.unwrap().slot
    }

    /// A runtime holding only the root class `NSObject` (with its single
    /// instance variable `isa`, encoded `#`) and its metaclass, with the
    /// root methods: the instance methods of `root_instance_methods` on the
    /// class and the class methods of `root_class_methods` on the metaclass,
    /// each implemented by what `imp_for` gives for it.
    pub fn new<F: Fn(RootMethod) -> I>(imp_for: F) -> (rt: Runtime<I>)
        requires
            forall|m: RootMethod| imp_for.requires((m,)),
        ensures
            rt@.wf(),
            rt@.classes.len() == 2,
            rt@.objects.len() == 0,
            rt@.is_class_named(0, "NSObject"@),
            rt@.classes[0].superclass is None,
            rt@.classes[0].meta == 1,
            rt@.classes[0].ivars == seq![IvarModel { name: "isa"@, encoding: "#"@, slot: 0, offset: 0 }],
            rt@.classes[0].byte_size == WORD_SIZE,
            rt@.classes[0].methods.len() == root_instance_methods().len(),
            forall|k: int|
                0 <= k < root_instance_methods().len() ==> is_root_method(
                    #[trigger] rt@.classes[0].methods[k],
                    root_instance_methods()[k],
                    imp_for,
                ),
            rt@.classes[1].is_meta,
            rt@.classes[1].superclass == Some(0nat),
            rt@.classes[1].methods.len() == root_class_methods().len(),
            forall|k: int|
                0 <= k < root_class_methods().len() ==> is_root_method(
                    #[trigger] rt@.classes[1].methods[k],
                    root_class_methods()[k],
                    imp_for,
                ),
    {
        let instance_methods = root_methods(&root_instance_method_list(), &imp_for);
        let class_methods = root_methods(&root_class_method_list(), &imp_for);
        let isa = Ivar { name: "isa".to_owned(), encoding: Encoding::from_str("#"), slot: 0, offset: 0 };
        let mut ivars: Vec<Ivar> = Vec::new();
        ivars.push(isa);
        let root = ClassData {
            name: "NSObject".to_owned(),
            superclass: None,
            meta: 1,
            is_meta: false,
            ivars,
            methods: instance_methods,
            registered: true,
            disposed: false,
            first_slot: 0,
            byte_size: WORD_SIZE,
        };
        let root_meta = ClassData {
            name: "NSObject".to_owned(),
            superclass: Some(0),
            meta: 1,
            is_meta: true,
            ivars: Vec::new(),
            methods: class_methods,
            registered: true,
            disposed: false,
            first_slot: 0,
            byte_size: CLASS_OBJECT_SIZE,
        };
        let mut classes: Vec<ClassData<I>> = Vec::new();
        classes.push(root);
        classes.push(root_meta);
        let rt = Runtime { classes, objects: Vec::new() };
        proof {
            lemma_root_method_names_distinct();
            let m = rt@;
            assert(m.classes[0].ivars =~= seq![IvarModel { name: "isa"@, encoding: "#"@, slot: 0, offset: 0 }]);
            assert(m.classes[1].ivars =~= seq![]);
            assert(m.objects =~= seq![]);
            assert(m.classes[0].methods == instance_methods@.map_values(|mm: Method<I>| mm@));
            assert(m.classes[1].methods == class_methods@.map_values(|mm: Method<I>| mm@));
            assert forall|c: int| 0 <= c < m.classes.len() implies #[trigger] m.class_wf(c) by {
                let ms = m.classes[c].methods;
                let list = if c == 0 {
                    root_instance_methods()
                } else {
                    root_class_methods()
                };
                assert(ms.len() == list.len());
                assert forall|i: int| 0 <= i < ms.len() implies method_codes_ok((#[trigger] ms[i]).types) by {
                    assert(is_root_method(ms[i], list[i], imp_for));
                }
                assert forall|i: int, j: int|
                    #![trigger ms[i], ms[j]]
                    0 <= i < ms.len() && 0 <= j < ms.len() && i != j implies ms[i].name != ms[j].name by {
                    assert(is_root_method(ms[i], list[i], imp_for));
                    assert(is_root_method(ms[j], list[j], imp_for));
                }
            }
            assert forall|c1: int, c2: int|
                #![trigger m.classes[c1].name, m.classes[c2].name]
                m.is_live_class(c1) && m.is_live_class(c2) && c1 != c2
                    implies m.classes[c1].name != m.classes[c2].name by {
            }
        }
        rt
    }
}

/// The methods that the root class `NSObject` (instance methods) and its
/// metaclass (class methods) have from the start.
#[derive(Clone, Copy, Debug, PartialEq, Eq, Structural)]
pub enum RootMethod {
    /// `-init`: returns the receiver.
    Init,
    /// `-dealloc`.
    Dealloc,
    /// `-self`: returns the receiver.
    ReturnSelf,
    /// `-class`: the class of the receiver.
    ClassOf,
    /// `-superclass`: the superclass of the receiver's class.
    Superclass,
    /// `-isEqual:`, taking an object.
    IsEqual,
    /// `-isKindOfClass:`, taking a class.
    IsKindOfClass,
    /// `-isMemberOfClass:`, taking a class.
    IsMemberOfClass,
    /// `-respondsToSelector:`, taking a selector.
    RespondsToSelector,
    /// `-hash`.
    Hash,
    /// `-description`.
    Description,
    /// `-retain`.
    Retain,
    /// `-release`.
    Release,
    /// `-autorelease`.
    Autorelease,
    /// `-retainCount`.
    RetainCount,
    /// `+alloc`.
    Alloc,
    /// `+new`.
    New,
    /// `+class`: the receiving class itself.
    ClassSelf,
    /// `+superclass`.
    ClassSuperclass,
    /// `+description`.
    ClassDescription,
}

/// The instance methods of `NSObject`, in the order the class holds them.
pub open spec fn root_instance_methods() -> Seq<RootMethod> {
    seq![
        RootMethod::Init,
        RootMethod::Dealloc,
        RootMethod::ReturnSelf,
        RootMethod::ClassOf,
        RootMethod::Superclass,
        RootMethod::IsEqual,
        RootMethod::IsKindOfClass,
        RootMethod::IsMemberOfClass,
        RootMethod::RespondsToSelector,
        RootMethod::Hash,
        RootMethod::Description,
        RootMethod::Retain,
        RootMethod::Release,
        RootMethod::Autorelease,
        RootMethod::RetainCount,
    ]
}

/// The class methods of `NSObject`, in the order its metaclass holds them.
pub open spec fn root_class_methods() -> Seq<RootMethod> {
    seq![
        RootMethod::Alloc,
        RootMethod::New,
        RootMethod::ClassSelf,
        RootMethod::ClassSuperclass,
        RootMethod::ClassDescription,
    ]
}

/// The selector name of a root method.
pub open spec fn root_method_name(m: RootMethod) -> Seq<char> {
    match m {
        RootMethod::Init => "init"@,
        RootMethod::Dealloc => "dealloc"@,
        RootMethod::ReturnSelf => "self"@,
        RootMethod::ClassOf => "class"@,
        RootMethod::Superclass => "superclass"@,
        RootMethod::IsEqual => "isEqual:"@,
        RootMethod::IsKindOfClass => "isKindOfClass:"@,
        RootMethod::IsMemberOfClass => "isMemberOfClass:"@,
        RootMethod::RespondsToSelector => "respondsToSelector:"@,
        RootMethod::Hash => "hash"@,
        RootMethod::Description => "description"@,
        RootMethod::Retain => "retain"@,
        RootMethod::Release => "release"@,
        RootMethod::Autorelease => "autorelease"@,
        RootMethod::RetainCount => "retainCount"@,
        RootMethod::Alloc => "alloc"@,
        RootMethod::New => "new"@,
        RootMethod::ClassSelf => "class"@,
        RootMethod::ClassSuperclass => "superclass"@,
        RootMethod::ClassDescription => "description"@,
    }
}

/// The type encodings of a root method: its return type, its receiver
/// (encoded as an object, for class methods too), the selector, then its one
/// argument where it takes one. `BOOL` is encoded as `i8`.
pub open spec fn root_method_types(m: RootMethod) -> Seq<Seq<char>> {
    let obj = Object::encoding_spec();
    let cls = Class::encoding_spec();
    let sel = Sel::encoding_spec();
    let boolean = i8::encoding_spec();
    let void = <()>::encoding_spec();
    let count = usize::encoding_spec();
    match m {
        RootMethod::Init => seq![obj, obj, sel],
        RootMethod::Dealloc => seq![void, obj, sel],
        RootMethod::ReturnSelf => seq![obj, obj, sel],
        RootMethod::ClassOf => seq![cls, obj, sel],
        RootMethod::Superclass => seq![cls, obj, sel],
        RootMethod::IsEqual => seq![boolean, obj, sel, obj],
        RootMethod::IsKindOfClass => seq![boolean, obj, sel, cls],
        RootMethod::IsMemberOfClass => seq![boolean, obj, sel, cls],
        RootMethod::RespondsToSelector => seq![boolean, obj, sel, sel],
        RootMethod::Hash => seq![count, obj, sel],
        RootMethod::Description => seq![obj, obj, sel],
        RootMethod::Retain => seq![obj, obj, sel],
        RootMethod::Release => seq![void, obj, sel],
        RootMethod::Autorelease => seq![obj, obj, sel],
        RootMethod::RetainCount => seq![count, obj, sel],
        RootMethod::Alloc => seq![obj, obj, sel],
        RootMethod::New => seq![obj, obj, sel],
        RootMethod::ClassSelf => seq![cls, obj, sel],
        RootMethod::ClassSuperclass => seq![cls, obj, sel],
        RootMethod::ClassDescription => seq![obj, obj, sel],
    }
}

/// Whether `mm` is the root method `m` with implementation `imp_for(m)`.
pub open spec fn is_root_method<I, F: Fn(RootMethod) -> I>(mm: MethodModel<I>, m: RootMethod, imp_for: F) -> bool {
    &&& mm.name == root_method_name(m)
    &&& mm.types == root_method_types(m)
    &&& imp_for.ensures((m,), mm.imp)
}

/// No two root methods of the same list share a selector name.
pub proof fn lemma_root_method_names_distinct()
    ensures
        forall|i: int, j: int|
            #![trigger root_instance_methods()[i], root_instance_methods()[j]]
            0 <= i < root_instance_methods().len() && 0 <= j < root_instance_methods().len() && i != j
                ==> root_method_name(root_instance_methods()[i]) != root_method_name(root_instance_methods()[j]),
        forall|i: int, j: int|
            #![trigger root_class_methods()[i], root_class_methods()[j]]
            0 <= i < root_class_methods().len() && 0 <= j < root_class_methods().len() && i != j
                ==> root_method_name(root_class_methods()[i]) != root_method_name(root_class_methods()[j]),
{
    reveal_strlit("init");
    reveal_strlit("dealloc");
    reveal_strlit("self");
    reveal_strlit("class");
    reveal_strlit("superclass");
    reveal_strlit("isEqual:");
    reveal_strlit("isKindOfClass:");
    reveal_strlit("isMemberOfClass:");
    reveal_strlit("respondsToSelector:");
    reveal_strlit("hash");
    reveal_strlit("description");
    reveal_strlit("retain");
    reveal_strlit("release");
    reveal_strlit("autorelease");
    reveal_strlit("retainCount");
    reveal_strlit("alloc");
    reveal_strlit("new");
    let inst = root_instance_methods();
    assert forall|i: int, j: int|
        #![trigger inst[i], inst[j]]
        0 <= i < inst.len() && 0 <= j < inst.len() && i != j
            implies root_method_name(inst[i]) != root_method_name(inst[j]) by {
        let a = root_method_name(inst[i]);
        let b = root_method_name(inst[j]);
        assert(a.len() != b.len() || a[0] != b[0]);
    }
    let cls = root_class_methods();
    assert forall|i: int, j: int|
        #![trigger cls[i], cls[j]]
        0 <= i < cls.len() && 0 <= j < cls.len() && i != j
            implies root_method_name(cls[i]) != root_method_name(cls[j]) by {
        let a = root_method_name(cls[i]);
        let b = root_method_name(cls[j]);
        assert(a.len() != b.len() || a[0] != b[0]);
    }
}

/// In a class holding the root methods of one list in order, looking up
/// the selector of the `k`-th of them finds the method at position `k`.
pub proof fn lemma_find_root_method<I>(methods: Seq<MethodModel<I>>, list: Seq<RootMethod>, k: int)
    requires
        list == root_instance_methods() || list == root_class_methods(),
        methods.len() == list.len(),
        forall|i: int| 0 <= i < list.len() ==> (#[trigger] methods[i]).name == root_method_name(list[i]),
        0 <= k < list.len(),
    ensures
        find_method(methods, root_method_name(list[k])) == Some(k),
{
    lemma_root_method_names_distinct();
    let sel = root_method_name(list[k]);
    assert forall|j: int| 0 <= j < k implies (#[trigger] methods[j]).name != sel by {
        assert(methods[j].name == root_method_name(list[j]));
        assert(list[j] == list[j] && list[k] == list[k]);
    }
    assert(is_first_method(methods, sel, k));
    let f = choose|i: int| is_first_method(methods, sel, i);
    assert(is_first_method(methods, sel, f));
    if f < k {
        assert(methods[f].name != sel);
    } else if f > k {
        assert(methods[k].name == sel);
    }
}

/// The instance methods of `NSObject`, in order.
fn root_instance_method_list() -> (v: Vec<RootMethod>)
    ensures
        v@ == root_instance_methods(),
{
    let mut v: Vec<RootMethod> = Vec::new();
    v.push(RootMethod::Init);
    v.push(RootMethod::Dealloc);
    v.push(RootMethod::ReturnSelf);
    v.push(RootMethod::ClassOf);
    v.push(RootMethod::Superclass);
    v.push(RootMethod::IsEqual);
    v.push(RootMethod::IsKindOfClass);
    v.push(RootMethod::IsMemberOfClass);
    v.push(RootMethod::RespondsToSelector);
    v.push(RootMethod::Hash);
    v.push(RootMethod::Description);
    v.push(RootMethod::Retain);
    v.push(RootMethod::Release);
    v.push(RootMethod::Autorelease);
    v.push(RootMethod::RetainCount);
    proof {
        assert(v@ =~= root_instance_methods());
    }
    v
}

/// The class methods of `NSObject`, in order.
fn root_class_method_list() -> (v: Vec<RootMethod>)
    ensures
        v@ == root_class_methods(),
{
    let mut v: Vec<RootMethod> = Vec::new();
    v.push(RootMethod::Alloc);
    v.push(RootMethod::New);
    v.push(RootMethod::ClassSelf);
    v.push(RootMethod::ClassSuperclass);
    v.push(RootMethod::ClassDescription);
    proof {
        assert(v@ =~= root_class_methods());
    }
    v
}

/// The selector of a root method.
fn root_method_sel(m: RootMethod) -> (s: Sel)
    ensures
        s@ == root_method_name(m),
{
    let name = match m {
        RootMethod::Init => "init",
        RootMethod::Dealloc => "dealloc",
        RootMethod::ReturnSelf => "self",
        RootMethod::ClassOf => "class",
        RootMethod::Superclass => "superclass",
        RootMethod::IsEqual => "isEqual:",
        RootMethod::IsKindOfClass => "isKindOfClass:",
        RootMethod::IsMemberOfClass => "isMemberOfClass:",
        RootMethod::RespondsToSelector => "respondsToSelector:",
        RootMethod::Hash => "hash",
        RootMethod::Description => "description",
        RootMethod::Retain => "retain",
        RootMethod::Release => "release",
        RootMethod::Autorelease => "autorelease",
        RootMethod::RetainCount => "retainCount",
        RootMethod::Alloc => "alloc",
        RootMethod::New => "new",
        RootMethod::ClassSelf => "class",
        RootMethod::ClassSuperclass => "superclass",
        RootMethod::ClassDescription => "description",
    };
    Sel { name: name.to_owned() }
}

/// The type encodings of a root method.
fn root_method_type_list(m: RootMethod) -> (v: Vec<Encoding>)
    ensures
        v@.map_values(|e: Encoding| e@) == root_method_types(m),
{
    let ret = match m {
        RootMethod::Dealloc | RootMethod::Release => <()>::encode(),
        RootMethod::ClassOf | RootMethod::Superclass | RootMethod::ClassSelf | RootMethod::ClassSuperclass => {
            Class::encode()
        },
        RootMethod::IsEqual | RootMethod::IsKindOfClass | RootMethod::IsMemberOfClass
        | RootMethod::RespondsToSelector => i8::encode(),
        RootMethod::Hash | RootMethod::RetainCount => usize::encode(),
        _ => Object::encode(),
    };
    let receiver = Object::encode();
    let mut v: Vec<Encoding> = Vec::new();
    v.push(ret);
    v.push(receiver);
    v.push(Sel::encode());
    match m {
        RootMethod::IsEqual => v.push(Object::encode()),
        RootMethod::IsKindOfClass | RootMethod::IsMemberOfClass => v.push(Class::encode()),
        RootMethod::RespondsToSelector => v.push(Sel::encode()),
        _ => {},
    }
    proof {
        assert(v@.map_values(|e: Encoding| e@) =~= root_method_types(m));
    }
    v
}

/// The root methods of `list`, each with the implementation `imp_for`
/// gives it, in order.
fn root_methods<I, F: Fn(RootMethod) -> I>(list: &Vec<RootMethod>, imp_for: &F) -> (v: Vec<Method<I>>)
    requires
        forall|m: RootMethod| imp_for.requires((m,)),
    ensures
        v@.len() == list@.len(),
        forall|k: int| 0 <= k < list@.len() ==> is_root_method(#[trigger] v@[k]@, list@[k], *imp_for),
{
    let mut v: Vec<Method<I>> = Vec::new();
    let mut i: usize = 0;
    while i < list.len()
        invariant
            i <= list@.len(),
            v@.len() == i,
            forall|m: RootMethod| imp_for.requires((m,)),
            forall|k: int| 0 <= k < i ==> is_root_method(#[trigger] v@[k]@, list@[k], *imp_for),
        decreases list@.len() - i,
    {
        let m = list[i];
        let imp = imp_for(m);
        v.push(Method::new(root_method_sel(m), root_method_type_list(m), imp));
        i = i + 1;
    }
    v
}

impl Encode for Object {
    open spec fn encoding_spec() -> Seq<char> {
        seq!['@']
    }

    fn encode() -> (e: Encoding) {
        proof {
            reveal_strlit("@");
        }
        Encoding::from_str("@")
    }
}

impl<'a> Encode for &'a Object {
    open spec fn encoding_spec() -> Seq<char> {
        seq!['@']
    }

    fn encode() -> (e: Encoding) {
        Object::encode()
    }
}

impl<'a> Encode for &'a mut Object {
    open spec fn encoding_spec() -> Seq<char> {
        seq!['@']
    }

    fn encode() -> (e: Encoding) {
        Object::encode()
    }
}

impl Encode for Option<Object> {
    open spec fn encoding_spec() -> Seq<char> {
        seq!['@']
    }

    fn encode() -> (e: Encoding) {
        Object::encode()
    }
}

impl Encode for Class {
    open spec fn encoding_spec() -> Seq<char> {
        seq!['#']
    }

    fn encode() -> (e: Encoding) {
        proof {
            reveal_strlit("#");
        }
        Encoding::from_str("#")
    }
}

impl<'a> Encode for &'a Class {
    open spec fn encoding_spec() -> Seq<char> {
        seq!['#']
    }

    fn encode() -> (e: Encoding) {
        Class::encode()
    }
}

impl Encode for Sel {
    open spec fn encoding_spec() -> Seq<char> {
        seq![':']
    }

    fn encode() -> (e: Encoding) {
        proof {
            reveal_strlit(":");
        }
        Encoding::from_str(":")
    }
}

impl Object {
    /// Whether this object is an instance of `cls` or of a class that
    /// inherits from it (`isKindOfClass:`).
    pub fn is_kind_of<I>(self, rt: &Runtime<I>, cls: Class) -> (b: bool)
        requires
            rt@.wf(),
            rt@.valid_object(self),
        ensures
            b == rt@.inherits_from(rt@.objects[self.idx as int].class as int, cls.idx as int),
    {
        proof {
            assert(rt@.object_wf(self.idx as int));
        }
        let mut c = rt.objects[self.idx].class;
        loop
            invariant
                rt@.wf(),
                0 <= c < rt@.classes.len(),
                rt@.inherits_from(rt@.objects[self.idx as int].class as int, cls.idx as int) == rt@.inherits_from(
                    c as int,
                    cls.idx as int,
                ),
            decreases c,
        {
            if c == cls.idx {
                return true;
            }
            proof {
                assert(rt@.class_wf(c as int));
            }
            match rt.classes[c].superclass {
                Some(p) => {
                    c = p;
                },
                None => {
                    return false;
                },
            }
        }
    }

    /// Whether this object is `other` (`isEqual:` as `NSObject` answers
    /// it: by identity).
    pub fn is_equal(self, other: Object) -> (b: bool)
        ensures
            b == (self == other),
    {
        self.idx == other.idx
    }

    /// A hash of this object (`hash` as `NSObject` answers it: from its
    /// identity), equal for equal objects.
    pub fn hash_code(self) -> (h: usize)
        ensures
            h == self.idx,
    {
        self.idx
    }

    /// The class of this object.
    pub fn class<I>(self, rt: &Runtime<I>) -> (c: Class)
        requires
            rt@.valid_object(self),
        ensures
            c.idx == rt@.objects[self.idx as int].class,
    {
        Class { idx: rt.objects[self.idx].class }
    }

    /// The value of this object's instance variable named `name`, which
    /// must exist and have the encoding of `T`.
    pub fn get_ivar<T: IvarValue, I>(self, rt: &Runtime<I>, name: &str) -> (v: T)
        requires
            rt@.wf(),
            no_nul(name@),
            rt@.is_live(self),
            rt@.object_ivar(self, name@) is Some,
            rt@.ivar_at(rt@.object_ivar(self, name@).unwrap()).encoding == T::encoding_spec(),
        ensures
            v == T::from_word_spec(rt@.slot_value(self, rt@.ivar_at(rt@.object_ivar(self, name@).unwrap()).slot)),
    {
        let slot = rt.ivar_slot(self, name);
        T::from_word(rt.objects[self.idx].slots[slot])
    }

    /// Sets this object's instance variable named `name`, which must exist
    /// and have the encoding of `T`, to `value`; nothing else changes.
    pub fn set_ivar<T: IvarValue, I>(self, rt: &mut Runtime<I>, name: &str, value: T)
        requires
            old(rt)@.wf(),
            no_nul(name@),
            old(rt)@.is_live(self),
            old(rt)@.object_ivar(self, name@) is Some,
            old(rt)@.ivar_at(old(rt)@.object_ivar(self, name@).unwrap()).encoding == T::encoding_spec(),
        ensures
            final(rt)@.wf(),
            final(rt)@ == old(rt)@.with_slot(
                self,
                old(rt)@.ivar_at(old(rt)@.object_ivar(self, name@).unwrap()).slot,
                T::to_word_spec(value),
            ),
    {
        let ghost old_m = rt@;
        let slot = rt.ivar_slot(self, name);
        let w = value.to_word();
        rt.objects[self.idx].slots.set(slot, w);
        proof {
            let m = rt@;
            assert(m.objects =~= old_m.with_slot(self, slot as nat, w).objects);
            assert(m.classes =~= old_m.classes);
            assert forall|k: int| 0 <= k < m.classes.len() implies #[trigger] m.class_wf(k) by {
                assert(old_m.class_wf(k));
            }
            assert forall|k: int| 0 <= k < m.objects.len() implies #[trigger] m.object_wf(k) by {
                assert(old_m.object_wf(k));
            }
        }
    }
}

impl Receiver {
    /// The class that messages sent to this receiver are looked up in: an
    /// instance's class, or a class object's metaclass.
    pub fn dispatch_class<I>(self, rt: &Runtime<I>) -> (c: Class)
        requires
            rt@.wf(),
            rt@.valid_receiver(self),
        ensures
            c.idx == rt@.dispatch_class(self),
            rt@.valid_class(c),
    {
        match self {
            Receiver::Instance(o) => {
                proof {
                    assert(rt@.object_wf(o.idx as int));
                }
                o.class(rt)
            },
            Receiver::ClassObject(c) => {
                proof {
                    assert(rt@.class_wf(c.idx as int));
                }
                c.metaclass(rt)
            },
        }
    }
}

impl Class {
    /// The registered class named `name`, or `None` if there is none.
    pub fn get<I>(rt: &Runtime<I>, name: &str) -> (r: Option<Class>)
        requires
            rt@.wf(),
            no_nul(name@),
        ensures
            match r {
                Some(c) => rt@.is_class_named(c.idx as int, name@),
                None => forall|c: int| !rt@.is_class_named(c, name@),
            },
    {
        let wanted = name.to_owned();
        let mut i: usize = 0;
        while i < rt.classes.len()
            invariant
                i <= rt@.classes.len(),
                wanted@ == name@,
                forall|c: int| 0 <= c < i ==> !rt@.is_class_named(c, name@),
            decreases rt@.classes.len() - i,
        {
            let cd = &rt.classes[i];
            if !cd.is_meta && cd.registered && cd.name == wanted {
                return Some(Class { idx: i });
            }
            i = i + 1;
        }
        None
    }

    /// The registered classes, in the order in which they were allocated.
    pub fn classes<I>(rt: &Runtime<I>) -> (r: Vec<Class>)
        requires
            rt@.wf(),
        ensures
            forall|k: int| 0 <= k < r@.len() ==> rt@.is_registered_class(#[trigger] r@[k].idx as int),
            forall|c: int| rt@.is_registered_class(c) ==> exists|k: int|
                0 <= k < r@.len() && #[trigger] r@[k].idx == c,
            forall|k1: int, k2: int| 0 <= k1 < k2 < r@.len() ==> r@[k1].idx < r@[k2].idx,
            r@.map_values(|c: Class| c.idx as int) == rt@.registered_indices(rt@.classes.len() as int),
    {
        let mut r: Vec<Class> = Vec::new();
        let mut i: usize = 0;
        while i < rt.classes.len()
            invariant
                i <= rt@.classes.len(),
                forall|k: int| 0 <= k < r@.len() ==> rt@.is_registered_class(#[trigger] r@[k].idx as int),
                forall|k: int| 0 <= k < r@.len() ==> #[trigger] r@[k].idx < i,
                forall|c: int| 0 <= c < i && rt@.is_registered_class(c) ==> exists|k: int|
                    0 <= k < r@.len() && #[trigger] r@[k].idx == c,
                forall|k1: int, k2: int| 0 <= k1 < k2 < r@.len() ==> r@[k1].idx < r@[k2].idx,
                r@.map_values(|c: Class| c.idx as int) == rt@.registered_indices(i as int),
            decreases rt@.classes.len() - i,
        {
            let cd = &rt.classes[i];
            let ghost old_r = r@;
            proof {
                assert(rt@.classes[i as int] == cd@);
            }
            if !cd.is_meta && cd.registered {
                r.push(Class { idx: i });
                assert(r@[r@.len() - 1].idx == i);
                assert(r@.map_values(|c: Class| c.idx as int) =~= old_r.map_values(|c: Class| c.idx as int).push(
                    i as int,
                ));
            }
            assert forall|c: int| 0 <= c < i + 1 && rt@.is_registered_class(c) implies exists|k: int|
                0 <= k < r@.len() && #[trigger] r@[k].idx == c by {
                if c < i {
                    let k = choose|k: int| 0 <= k < old_r.len() && #[trigger] old_r[k].idx == c;
                    assert(r@[k] == old_r[k]);
                } else {
                    assert(r@[r@.len() - 1].idx == c);
                }
            }
            i = i + 1;
        }
        r
    }

    /// The number of registered classes.
    pub fn classes_count<I>(rt: &Runtime<I>) -> (n: usize)
        requires
            rt@.wf(),
        ensures
            n == rt@.classes.filter(|c: ClassModel<I>| !c.is_meta && c.registered).len(),
    {
        let ghost keep = |c: ClassModel<I>| !c.is_meta && c.registered;
        let mut n: usize = 0;
        let mut i: usize = 0;
        while i < rt.classes.len()
            invariant
                i <= rt@.classes.len(),
                n == rt@.classes.take(i as int).filter(keep).len(),
                n <= i,
                keep == (|c: ClassModel<I>| !c.is_meta && c.registered),
            decreases rt@.classes.len() - i,
        {
            let cd = &rt.classes[i];
            proof {
                let t = rt@.classes.take(i + 1);
                assert(t.drop_last() =~= rt@.classes.take(i as int));
                assert(t.last() == rt@.classes[i as int]);
                assert(rt@.classes[i as int] == cd@);
                assert(t.filter(keep) == if keep(t.last()) {
                    t.drop_last().filter(keep).push(t.last())
                } else {
                    t.drop_last().filter(keep)
                }) by {
                    reveal_with_fuel(Seq::filter, 1);
                }
            }
            if !cd.is_meta && cd.registered {
                n = n + 1;
            }
            i = i + 1;
        }
        assert(rt@.classes.take(i as int) =~= rt@.classes);
        n
    }

    /// Whether `c` is a class (or metaclass) of `rt`.
    pub fn is_in<I>(self, rt: &Runtime<I>) -> (b: bool)
        ensures
            b == rt@.valid_class(self),
    {
        self.idx < rt.classes.len()
    }

    /// The name of class `c`.
    pub fn name<I>(self, rt: &Runtime<I>) -> (n: &str)
        requires
            rt@.valid_class(self),
        ensures
            n@ == rt@.class_of(self).name,
    {
        rt.classes[self.idx].name.as_str()
    }

    /// The superclass of `c`, or `None` if `c` is a root class.
    pub fn superclass<I>(self, rt: &Runtime<I>) -> (r: Option<Class>)
        requires
            rt@.valid_class(self),
        ensures
            match rt@.class_of(self).superclass {
                Some(s) => r == Some(Class { idx: s as usize }),
                None => r is None,
            },
    {
        match rt.classes[self.idx].superclass {
            Some(s) => Some(Class { idx: s }),
            None => None,
        }
    }

    /// The metaclass of `c`.
    pub fn metaclass<I>(self, rt: &Runtime<I>) -> (m: Class)
        requires
            rt@.valid_class(self),
        ensures
            m.idx == rt@.class_of(self).meta,
    {
        Class { idx: rt.classes[self.idx].meta }
    }

    /// Whether `c` is a metaclass.
    pub fn is_metaclass<I>(self, rt: &Runtime<I>) -> (b: bool)
        requires
            rt@.valid_class(self),
        ensures
            b == rt@.class_of(self).is_meta,
    {
        rt.classes[self.idx].is_meta
    }

    /// Whether `c` has been registered.
    pub fn is_registered<I>(self, rt: &Runtime<I>) -> (b: bool)
        requires
            rt@.valid_class(self),
        ensures
            b == rt@.class_of(self).registered,
    {
        rt.classes[self.idx].registered
    }

    /// The size in bytes of an instance of `c`: the end of its last instance
    /// variable rounded up to a whole word, or, for a metaclass, the size of
    /// a class object.
    pub fn instance_size<I>(self, rt: &Runtime<I>) -> (n: usize)
        requires
            rt@.wf(),
            rt@.valid_class(self),
        ensures
            rt@.classes[self.idx as int].is_meta ==> n == CLASS_OBJECT_SIZE,
            !rt@.classes[self.idx as int].is_meta ==> n == align_up(rt@.classes[self.idx as int].byte_size, WORD_SIZE as nat),
    {
        proof {
            assert(rt@.class_wf(self.idx as int));
        }
        let cd = &rt.classes[self.idx];
        if cd.is_meta {
            CLASS_OBJECT_SIZE
        } else {
            let rem = cd.byte_size % WORD_SIZE;
            if rem == 0 {
                cd.byte_size
            } else {
                cd.byte_size + (WORD_SIZE - rem)
            }
        }
    }

    /// The instance variables declared by `c` itself.
    pub fn instance_variables<'a, I>(self, rt: &'a Runtime<I>) -> (r: &'a [Ivar])
        requires
            rt@.valid_class(self),
        ensures
            r@.map_values(|v: Ivar| v@) == rt@.class_of(self).ivars,
    {
        rt.classes[self.idx].ivars.as_slice()
    }

    /// The methods declared by `c` itself.
    pub fn instance_methods<'a, I>(self, rt: &'a Runtime<I>) -> (r: &'a [Method<I>])
        requires
            rt@.valid_class(self),
        ensures
            r@.map_values(|m: Method<I>| m@) == rt@.class_of(self).methods,
    {
        rt.classes[self.idx].methods.as_slice()
    }

    /// The instance method of `c` or of the nearest of its superclasses that
    /// has one for the selector `sel`, or `None` if there is none.
    pub fn instance_method<'a, I>(self, rt: &'a Runtime<I>, sel: &Sel) -> (r: Option<&'a Method<I>>)
        requires
            rt@.wf(),
            rt@.valid_class(self),
        ensures
            match rt@.lookup_method(self.idx as int, sel@) {
                Some(found) => r is Some && r.unwrap()@ == rt@.method_at(found),
                None => r is None,
            },
    {
        let mut cur: usize = self.idx;
        loop
            invariant
                rt@.wf(),
                cur < rt@.classes.len(),
                rt@.lookup_method(self.idx as int, sel@) == rt@.lookup_method(cur as int, sel@),
            decreases cur,
        {
            let cd = &rt.classes[cur];
            proof {
                assert(rt@.class_wf(cur as int));
                assert(cd.methods@.map_values(|m: Method<I>| m@) == rt@.classes[cur as int].methods);
            }
            match search_methods(&cd.methods, sel) {
                Some(i) => {
                    return Some(&cd.methods[i]);
                },
                None => {
                    match cd.superclass {
                        Some(s) => {
                            cur = s;
                        },
                        None => {
                            return None;
                        },
                    }
                },
            }
        }
    }

    /// The instance variable named `name` of `c` or of the nearest of its
    /// superclasses that has one, or `None` if there is none.
    pub fn instance_variable<'a, I>(self, rt: &'a Runtime<I>, name: &str) -> (r: Option<&'a Ivar>)
        requires
            rt@.wf(),
            no_nul(name@),
            rt@.valid_class(self),
        ensures
            match rt@.lookup_ivar(self.idx as int, name@) {
                Some(found) => r is Some && r.unwrap()@ == rt@.ivar_at(found),
                None => r is None,
            },
    {
        let wanted = name.to_owned();
        let mut cur: usize = self.idx;
        loop
            invariant
                rt@.wf(),
                cur < rt@.classes.len(),
                wanted@ == name@,
                rt@.lookup_ivar(self.idx as int, name@) == rt@.lookup_ivar(cur as int, name@),
            decreases cur,
        {
            let cd = &rt.classes[cur];
            proof {
                assert(rt@.class_wf(cur as int));
                assert(cd.ivars@.map_values(|v: Ivar| v@) == rt@.classes[cur as int].ivars);
            }
            match search_ivars(&cd.ivars, &wanted) {
                Some(i) => {
                    return Some(&cd.ivars[i]);
                },
                None => {
                    match cd.superclass {
                        Some(s) => {
                            cur = s;
                        },
                        None => {
                            return None;
                        },
                    }
                },
            }
        }
    }
}

} // verus!
