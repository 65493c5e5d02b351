# objc

A verified model of the Objective-C runtime and of the Rust-side logic that
sits on top of it, written in Verus.

The runtime state (classes, metaclasses, instance variables, methods and
objects with their retain counts) is held in a `Runtime` value that every
operation takes explicitly. Method implementations are values of a type
parameter chosen by the user; sending a message finds the implementation to
run and the receiver to run it on. A new runtime holds the root class
`NSObject` with its standard methods (`init`, `self`, `hash`,
`isKindOfClass:`, `description`, `+alloc` and the others of `RootMethod`),
each implemented by what a function given to `Runtime::new` returns for it.
Instance variables are laid out by the size and alignment of their types.

Modules:

- `runtime`: selectors, classes, objects, instance variables, methods,
  retain counts and weak loads, with the laws that tie them together.
- `encode`: type encodings of Rust types and argument lists.
- `declare`: declaring classes, their instance variables and methods.
- `message`: method lookup, `super` dispatch and signature verification.
- `abi`: which message-sending entry point a return type needs.
- `id`, `rc`: pointers that hold retains, weak references, autorelease pools.
- `foundation`, `array`, `enumerator`, `sort`, `comparison`: Foundation
  value types, arrays, enumeration and sorting.
- `malloc`, `cache`, `text`, `block_utils`: runtime-owned buffers, cached
  lookups, decimal text, and sample blocks.

`app/` holds what cannot be verified: `Display` and `Error` for the error
types, and a short example that prints what it finds.
