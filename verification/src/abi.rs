//! Which of the runtime's message-sending entry points a message must go
//! through, by architecture and return type: small results come back in
//! registers (`objc_msgSend`), large structures through memory the caller
//! provides (`objc_msgSend_stret`), and on 32-bit x86 floating-point
//! results on the FPU stack (`objc_msgSend_fpret`).

use vstd::prelude::*;
use crate::encode::{Encode, Encoding};

verus! {

/// The processor architectures the runtime runs on.
#[derive(Clone, Copy, Debug, PartialEq, Eq, Structural)]
pub enum Arch {
    X86,
    X86_64,
    Arm,
    Arm64,
}

/// What a message's return type is, as far as the choice of entry point
/// depends on it beyond its size.
#[derive(Clone, Copy, Debug, PartialEq, Eq, Structural)]
pub enum ReturnKind {
    F32,
    F64,
    I64,
    U64,
    Other,
}

/// An entry point for sending a message to an object.
#[derive(Clone, Copy, Debug, PartialEq, Eq, Structural)]
pub enum SendEntry {
    MsgSend,
    MsgSendStret,
    MsgSendFpret,
}

/// An entry point for sending a message to the superclass implementation.
#[derive(Clone, Copy, Debug, PartialEq, Eq, Structural)]
pub enum SuperSendEntry {
    MsgSendSuper,
    MsgSendSuperStret,
}

/// Whether a result of `size` bytes comes back in registers on 32-bit x86:
/// sizes 0, 1, 2, 4 and 8.
pub open spec fn x86_in_registers(size: nat) -> bool {
    size == 0 || size == 1 || size == 2 || size == 4 || size == 8
}

/// Whether a result of the given kind and size comes back in registers on
/// 32-bit ARM: up to 4 bytes, or a 64-bit integer or a double.
pub open spec fn arm_in_registers(kind: ReturnKind, size: nat) -> bool {
    size <= 4 || kind == ReturnKind::I64 || kind == ReturnKind::U64 || kind == ReturnKind::F64
}

/// The entry point for a message whose result has the given kind and size.
pub open spec fn send_entry_spec(arch: Arch, kind: ReturnKind, size: nat) -> SendEntry {
    match arch {
        Arch::X86 => if kind == ReturnKind::F32 || kind == ReturnKind::F64 {
            SendEntry::MsgSendFpret
        } else if x86_in_registers(size) {
            SendEntry::MsgSend
        } else {
            SendEntry::MsgSendStret
        },
        Arch::X86_64 => if size <= 16 {
            SendEntry::MsgSend
        } else {
            SendEntry::MsgSendStret
        },
        Arch::Arm => if arm_in_registers(kind, size) {
            SendEntry::MsgSend
        } else {
            SendEntry::MsgSendStret
        },
        Arch::Arm64 => SendEntry::MsgSend,
    }
}

/// The entry point for a message to the superclass implementation whose
/// result has the given kind and size.
pub open spec fn super_send_entry_spec(arch: Arch, kind: ReturnKind, size: nat) -> SuperSendEntry {
    let in_registers = match arch {
        Arch::X86 => x86_in_registers(size),
        Arch::X86_64 => size <= 16,
        Arch::Arm => arm_in_registers(kind, size),
        Arch::Arm64 => true,
    };
    if in_registers {
        SuperSendEntry::MsgSendSuper
    } else {
        SuperSendEntry::MsgSendSuperStret
    }
}

/// Whether a result of `size` bytes comes back in registers on 32-bit x86.
fn x86_fits_registers(size: usize) -> (b: bool)
    ensures
        b == x86_in_registers(size as nat),
{
    size == 0 || size == 1 || size == 2 || size == 4 || size == 8
}

/// Whether a result of the given kind and size comes back in registers on
/// 32-bit ARM.
fn arm_fits_registers(kind: ReturnKind, size: usize) -> (b: bool)
    ensures
        b == arm_in_registers(kind, size as nat),
{
    size <= 4 || kind == ReturnKind::I64 || kind == ReturnKind::U64 || kind == ReturnKind::F64
}

/// The entry point for sending, on `arch`, a message whose result has the
/// given kind and size in bytes.
pub fn send_entry(arch: Arch, kind: ReturnKind, size: usize) -> (e: SendEntry)
    ensures
        e == send_entry_spec(arch, kind, size as nat),
        arch == Arch::X86 && kind != ReturnKind::F32 && kind != ReturnKind::F64 ==> (e == SendEntry::MsgSend <==> (
        size == 0 || size == 1 || size == 2 || size == 4 || size == 8)),
{
    match arch {
        Arch::X86 => if kind == ReturnKind::F32 || kind == ReturnKind::F64 {
            SendEntry::MsgSendFpret
        } else if x86_fits_registers(size) {
            SendEntry::MsgSend
        } else {
            SendEntry::MsgSendStret
        },
        Arch::X86_64 => if size <= 16 {
            SendEntry::MsgSend
        } else {
            SendEntry::MsgSendStret
        },
        Arch::Arm => if arm_fits_registers(kind, size) {
            SendEntry::MsgSend
        } else {
            SendEntry::MsgSendStret
        },
        Arch::Arm64 => SendEntry::MsgSend,
    }
}

/// The entry point for sending, on `arch`, a message to the superclass
/// implementation whose result has the given kind and size in bytes.
pub fn super_send_entry(arch: Arch, kind: ReturnKind, size: usize) -> (e: SuperSendEntry)
    ensures
        e == super_send_entry_spec(arch, kind, size as nat),
        arch == Arch::X86 ==> (e == SuperSendEntry::MsgSendSuper <==> (size == 0 || size == 1 || size == 2 || size
            == 4 || size == 8)),
{
    let in_registers = match arch {
        Arch::X86 => x86_fits_registers(size),
        Arch::X86_64 => size <= 16,
        Arch::Arm => arm_fits_registers(kind, size),
        Arch::Arm64 => true,
    };
    if in_registers {
        SuperSendEntry::MsgSendSuper
    } else {
        SuperSendEntry::MsgSendSuperStret
    }
}

/// What kind of result a return type encoded `code` is: `f` a float, `d` a
/// double, `q` a signed and `Q` an unsigned 64-bit integer, anything else
/// of no kind that matters.
pub open spec fn return_kind_of(code: Seq<char>) -> ReturnKind {
    if code == seq!['f'] {
        ReturnKind::F32
    } else if code == seq!['d'] {
        ReturnKind::F64
    } else if code == seq!['q'] {
        ReturnKind::I64
    } else if code == seq!['Q'] {
        ReturnKind::U64
    } else {
        ReturnKind::Other
    }
}

/// The kind of result that an encoding gives.
pub fn kind_of_encoding(e: &Encoding) -> (k: ReturnKind)
    ensures
        k == return_kind_of(e@),
{
    proof {
        reveal_strlit("f");
        reveal_strlit("d");
        reveal_strlit("q");
        reveal_strlit("Q");
        assert("f"@ =~= seq!['f']);
        assert("d"@ =~= seq!['d']);
        assert("q"@ =~= seq!['q']);
        assert("Q"@ =~= seq!['Q']);
    }
    if e.is_str("f") {
        ReturnKind::F32
    } else if e.is_str("d") {
        ReturnKind::F64
    } else if e.is_str("q") {
        ReturnKind::I64
    } else if e.is_str("Q") {
        ReturnKind::U64
    } else {
        ReturnKind::Other
    }
}

/// The entry point for sending, on `arch`, a message whose return type is
/// `R`: the kind of result comes from `R`'s encoding and the size from
/// `R`'s size in bytes.
pub fn send_entry_for<R: Encode>(arch: Arch) -> (e: SendEntry)
    ensures
        e == send_entry_spec(arch, return_kind_of(R::encoding_spec()), vstd::layout::size_of::<R>()),
{
    let kind = kind_of_encoding(&R::encode());
    send_entry(arch, kind, core::mem::size_of::<R>())
}

/// The entry point for sending, on `arch`, a message to the superclass
/// implementation whose return type is `R`.
pub fn super_send_entry_for<R: Encode>(arch: Arch) -> (e: SuperSendEntry)
    ensures
        e == super_send_entry_spec(arch, return_kind_of(R::encoding_spec()), vstd::layout::size_of::<R>()),
{
    let kind = kind_of_encoding(&R::encode());
    super_send_entry(arch, kind, core::mem::size_of::<R>())
}

/// Which entry point each architecture takes. On 32-bit x86 a floating-point
/// result goes through the FPU entry point, and any other result comes back
/// in registers exactly when it is 0, 1, 2, 4 or 8 bytes long (4- and 8-byte
/// results in EAX and EDX); on x86-64 exactly when it is at most 16 bytes;
/// on 32-bit ARM exactly when it is at most 4 bytes or a 64-bit integer or a
/// double; on ARM64 always. The superclass entry points follow the same
/// sizes, floating-point results included.
pub proof fn lemma_entry_points(kind: ReturnKind, size: nat)
    ensures
        (kind == ReturnKind::F32 || kind == ReturnKind::F64) ==> send_entry_spec(Arch::X86, kind, size)
            == SendEntry::MsgSendFpret,
        kind != ReturnKind::F32 && kind != ReturnKind::F64 ==> (send_entry_spec(Arch::X86, kind, size)
            == SendEntry::MsgSend <==> (size == 0 || size == 1 || size == 2 || size == 4 || size == 8)),
        kind != ReturnKind::F32 && kind != ReturnKind::F64 ==> (send_entry_spec(Arch::X86, kind, size)
            == SendEntry::MsgSendStret <==> !(size == 0 || size == 1 || size == 2 || size == 4 || size == 8)),
        super_send_entry_spec(Arch::X86, kind, size) == SuperSendEntry::MsgSendSuper <==> (size == 0 || size == 1
            || size == 2 || size == 4 || size == 8),
        send_entry_spec(Arch::X86_64, kind, size) == SendEntry::MsgSend <==> size <= 16,
        super_send_entry_spec(Arch::X86_64, kind, size) == SuperSendEntry::MsgSendSuper <==> size <= 16,
        send_entry_spec(Arch::Arm, kind, size) == SendEntry::MsgSend <==> (size <= 4 || kind == ReturnKind::I64
            || kind == ReturnKind::U64 || kind == ReturnKind::F64),
        super_send_entry_spec(Arch::Arm, kind, size) == SuperSendEntry::MsgSendSuper <==> (size <= 4 || kind
            == ReturnKind::I64 || kind == ReturnKind::U64 || kind == ReturnKind::F64),
        send_entry_spec(Arch::Arm64, kind, size) == SendEntry::MsgSend,
        super_send_entry_spec(Arch::Arm64, kind, size) == SuperSendEntry::MsgSendSuper,
        send_entry_spec(Arch::X86, kind, size) != SendEntry::MsgSendFpret ==> kind != ReturnKind::F32 && kind
            != ReturnKind::F64,
{
}

/// A message to the superclass implementation goes through memory exactly
/// when the same message to an object of a non-floating-point result would.
pub proof fn lemma_super_entry_matches(arch: Arch, kind: ReturnKind, size: nat)
    requires
        kind != ReturnKind::F32,
        kind != ReturnKind::F64 || arch != Arch::X86,
    ensures
        (super_send_entry_spec(arch, kind, size) == SuperSendEntry::MsgSendSuperStret) <==> (send_entry_spec(
            arch,
            kind,
            size,
        ) == SendEntry::MsgSendStret),
{
}

} // verus!
