//! System V AMD64 calling convention for the rcc backend.
//!
//! This module defines the contract between all function calls:
//! argument classification, register assignment, stack layout, and
//! callee/caller-saved register conventions.

use vstd::prelude::*;

verus! {

/// x86-64 general-purpose registers.
#[derive(Debug, Clone, Copy, PartialEq, Eq, Structural, Hash)]
pub enum Reg {
    RAX,
    RBX,
    RCX,
    RDX,
    RSI,
    RDI,
    RBP,
    RSP,
    R8,
    R9,
    R10,
    R11,
    R12,
    R13,
    R14,
    R15,
}

impl Reg {
    /// The assembly name of this register.
    pub open spec fn spec_name(self) -> Seq<char> {
        match self {
            Reg::RAX => "%rax"@,
            Reg::RBX => "%rbx"@,
            Reg::RCX => "%rcx"@,
            Reg::RDX => "%rdx"@,
            Reg::RSI => "%rsi"@,
            Reg::RDI => "%rdi"@,
            Reg::RBP => "%rbp"@,
            Reg::RSP => "%rsp"@,
            Reg::R8 => "%r8"@,
            Reg::R9 => "%r9"@,
            Reg::R10 => "%r10"@,
            Reg::R11 => "%r11"@,
            Reg::R12 => "%r12"@,
            Reg::R13 => "%r13"@,
            Reg::R14 => "%r14"@,
            Reg::R15 => "%r15"@,
        }
    }

    /// The assembly name of the 32-bit (dword) part of this register.
    pub open spec fn spec_name_32(self) -> Seq<char> {
        match self {
            Reg::RAX => "%eax"@,
            Reg::RBX => "%ebx"@,
            Reg::RCX => "%ecx"@,
            Reg::RDX => "%edx"@,
            Reg::RSI => "%esi"@,
            Reg::RDI => "%edi"@,
            Reg::RBP => "%ebp"@,
            Reg::RSP => "%esp"@,
            Reg::R8 => "%r8d"@,
            Reg::R9 => "%r9d"@,
            Reg::R10 => "%r10d"@,
            Reg::R11 => "%r11d"@,
            Reg::R12 => "%r12d"@,
            Reg::R13 => "%r13d"@,
            Reg::R14 => "%r14d"@,
            Reg::R15 => "%r15d"@,
        }
    }

    /// The name of this register as used in assembly text.
    pub fn name(&self) -> (r: &'static str)
        ensures
            r@ == self.spec_name(),
    {
        match self {
            Reg::RAX => "%rax",
            Reg::RBX => "%rbx",
            Reg::RCX => "%rcx",
            Reg::RDX => "%rdx",
            Reg::RSI => "%rsi",
            Reg::RDI => "%rdi",
            Reg::RBP => "%rbp",
            Reg::RSP => "%rsp",
            Reg::R8 => "%r8",
            Reg::R9 => "%r9",
            Reg::R10 => "%r10",
            Reg::R11 => "%r11",
            Reg::R12 => "%r12",
            Reg::R13 => "%r13",
            Reg::R14 => "%r14",
            Reg::R15 => "%r15",
        }
    }

    /// The 32-bit (dword) encoding of this register for use in instructions.
    pub fn name_32(&self) -> (r: &'static str)
        ensures
            r@ == self.spec_name_32(),
    {
        match self {
            Reg::RAX => "%eax",
            Reg::RBX => "%ebx",
            Reg::RCX => "%ecx",
            Reg::RDX => "%edx",
            Reg::RSI => "%esi",
            Reg::RDI => "%edi",
            Reg::RBP => "%ebp",
            Reg::RSP => "%esp",
            Reg::R8 => "%r8d",
            Reg::R9 => "%r9d",
            Reg::R10 => "%r10d",
            Reg::R11 => "%r11d",
            Reg::R12 => "%r12d",
            Reg::R13 => "%r13d",
            Reg::R14 => "%r14d",
            Reg::R15 => "%r15d",
        }
    }
}

impl Reg {
    /// Whether this is one of the eight legacy registers `%rax`–`%rsp`
    /// (as opposed to `%r8`–`%r15`).
    pub open spec fn is_legacy(self) -> bool {
        match self {
            Reg::RAX | Reg::RBX | Reg::RCX | Reg::RDX | Reg::RSI | Reg::RDI | Reg::RBP | Reg::RSP => true,
            _ => false,
        }
    }
}

/// Length, third character and last character of a name: enough to tell
/// the 64-bit register names apart.
spec fn key64(s: Seq<char>) -> (int, char, char) {
    (s.len() as int, s[2], s[s.len() - 1])
}

/// Length, third and fourth character of a name: enough to tell the 32-bit
/// register names apart.
spec fn key32(s: Seq<char>) -> (int, char, char) {
    (s.len() as int, s[2], s[3])
}

proof fn lemma_keys(r: Reg, q: Reg)
    ensures
        r != q ==> key64(r.spec_name()) != key64(q.spec_name()),
        r != q ==> key32(r.spec_name_32()) != key32(q.spec_name_32()),
{
    reveal_strlit("%rax");
    reveal_strlit("%rbx");
    reveal_strlit("%rcx");
    reveal_strlit("%rdx");
    reveal_strlit("%rsi");
    reveal_strlit("%rdi");
    reveal_strlit("%rbp");
    reveal_strlit("%rsp");
    reveal_strlit("%r8");
    reveal_strlit("%r9");
    reveal_strlit("%r10");
    reveal_strlit("%r11");
    reveal_strlit("%r12");
    reveal_strlit("%r13");
    reveal_strlit("%r14");
    reveal_strlit("%r15");
    reveal_strlit("%eax");
    reveal_strlit("%ebx");
    reveal_strlit("%ecx");
    reveal_strlit("%edx");
    reveal_strlit("%esi");
    reveal_strlit("%edi");
    reveal_strlit("%ebp");
    reveal_strlit("%esp");
    reveal_strlit("%r8d");
    reveal_strlit("%r9d");
    reveal_strlit("%r10d");
    reveal_strlit("%r11d");
    reveal_strlit("%r12d");
    reveal_strlit("%r13d");
    reveal_strlit("%r14d");
    reveal_strlit("%r15d");
}

/// Each register is named by its own AT&T name: `%` followed by the
/// register's name in lower case (`%rcx` for RCX, `%r8` for R8), and its
/// 32-bit part by `%e..` for the legacy registers and `%r..d` for R8–R15.
pub proof fn lemma_register_names_spelled()
    ensures
        Reg::RAX.spec_name() == seq!['%', 'r', 'a', 'x'],
        Reg::RBX.spec_name() == seq!['%', 'r', 'b', 'x'],
        Reg::RCX.spec_name() == seq!['%', 'r', 'c', 'x'],
        Reg::RDX.spec_name() == seq!['%', 'r', 'd', 'x'],
        Reg::RSI.spec_name() == seq!['%', 'r', 's', 'i'],
        Reg::RDI.spec_name() == seq!['%', 'r', 'd', 'i'],
        Reg::RBP.spec_name() == seq!['%', 'r', 'b', 'p'],
        Reg::RSP.spec_name() == seq!['%', 'r', 's', 'p'],
        Reg::R8.spec_name() == seq!['%', 'r', '8'],
        Reg::R9.spec_name() == seq!['%', 'r', '9'],
        Reg::R10.spec_name() == seq!['%', 'r', '1', '0'],
        Reg::R11.spec_name() == seq!['%', 'r', '1', '1'],
        Reg::R12.spec_name() == seq!['%', 'r', '1', '2'],
        Reg::R13.spec_name() == seq!['%', 'r', '1', '3'],
        Reg::R14.spec_name() == seq!['%', 'r', '1', '4'],
        Reg::R15.spec_name() == seq!['%', 'r', '1', '5'],
        Reg::RAX.spec_name_32() == seq!['%', 'e', 'a', 'x'],
        Reg::RBX.spec_name_32() == seq!['%', 'e', 'b', 'x'],
        Reg::RCX.spec_name_32() == seq!['%', 'e', 'c', 'x'],
        Reg::RDX.spec_name_32() == seq!['%', 'e', 'd', 'x'],
        Reg::RSI.spec_name_32() == seq!['%', 'e', 's', 'i'],
        Reg::RDI.spec_name_32() == seq!['%', 'e', 'd', 'i'],
        Reg::RBP.spec_name_32() == seq!['%', 'e', 'b', 'p'],
        Reg::RSP.spec_name_32() == seq!['%', 'e', 's', 'p'],
        Reg::R8.spec_name_32() == seq!['%', 'r', '8', 'd'],
        Reg::R9.spec_name_32() == seq!['%', 'r', '9', 'd'],
        Reg::R10.spec_name_32() == seq!['%', 'r', '1', '0', 'd'],
        Reg::R11.spec_name_32() == seq!['%', 'r', '1', '1', 'd'],
        Reg::R12.spec_name_32() == seq!['%', 'r', '1', '2', 'd'],
        Reg::R13.spec_name_32() == seq!['%', 'r', '1', '3', 'd'],
        Reg::R14.spec_name_32() == seq!['%', 'r', '1', '4', 'd'],
        Reg::R15.spec_name_32() == seq!['%', 'r', '1', '5', 'd'],
{
    reveal_strlit("%rax");
    reveal_strlit("%eax");
    reveal_strlit("%rbx");
    reveal_strlit("%ebx");
    reveal_strlit("%rcx");
    reveal_strlit("%ecx");
    reveal_strlit("%rdx");
    reveal_strlit("%edx");
    reveal_strlit("%rsi");
    reveal_strlit("%esi");
    reveal_strlit("%rdi");
    reveal_strlit("%edi");
    reveal_strlit("%rbp");
    reveal_strlit("%ebp");
    reveal_strlit("%rsp");
    reveal_strlit("%esp");
    reveal_strlit("%r8");
    reveal_strlit("%r8d");
    reveal_strlit("%r9");
    reveal_strlit("%r9d");
    reveal_strlit("%r10");
    reveal_strlit("%r10d");
    reveal_strlit("%r11");
    reveal_strlit("%r11d");
    reveal_strlit("%r12");
    reveal_strlit("%r12d");
    reveal_strlit("%r13");
    reveal_strlit("%r13d");
    reveal_strlit("%r14");
    reveal_strlit("%r14d");
    reveal_strlit("%r15");
    reveal_strlit("%r15d");
    assert(Reg::RAX.spec_name() =~= seq!['%', 'r', 'a', 'x']);
    assert(Reg::RAX.spec_name_32() =~= seq!['%', 'e', 'a', 'x']);
    assert(Reg::RBX.spec_name() =~= seq!['%', 'r', 'b', 'x']);
    assert(Reg::RBX.spec_name_32() =~= seq!['%', 'e', 'b', 'x']);
    assert(Reg::RCX.spec_name() =~= seq!['%', 'r', 'c', 'x']);
    assert(Reg::RCX.spec_name_32() =~= seq!['%', 'e', 'c', 'x']);
    assert(Reg::RDX.spec_name() =~= seq!['%', 'r', 'd', 'x']);
    assert(Reg::RDX.spec_name_32() =~= seq!['%', 'e', 'd', 'x']);
    assert(Reg::RSI.spec_name() =~= seq!['%', 'r', 's', 'i']);
    assert(Reg::RSI.spec_name_32() =~= seq!['%', 'e', 's', 'i']);
    assert(Reg::RDI.spec_name() =~= seq!['%', 'r', 'd', 'i']);
    assert(Reg::RDI.spec_name_32() =~= seq!['%', 'e', 'd', 'i']);
    assert(Reg::RBP.spec_name() =~= seq!['%', 'r', 'b', 'p']);
    assert(Reg::RBP.spec_name_32() =~= seq!['%', 'e', 'b', 'p']);
    assert(Reg::RSP.spec_name() =~= seq!['%', 'r', 's', 'p']);
    assert(Reg::RSP.spec_name_32() =~= seq!['%', 'e', 's', 'p']);
    assert(Reg::R8.spec_name() =~= seq!['%', 'r', '8']);
    assert(Reg::R8.spec_name_32() =~= seq!['%', 'r', '8', 'd']);
    assert(Reg::R9.spec_name() =~= seq!['%', 'r', '9']);
    assert(Reg::R9.spec_name_32() =~= seq!['%', 'r', '9', 'd']);
    assert(Reg::R10.spec_name() =~= seq!['%', 'r', '1', '0']);
    assert(Reg::R10.spec_name_32() =~= seq!['%', 'r', '1', '0', 'd']);
    assert(Reg::R11.spec_name() =~= seq!['%', 'r', '1', '1']);
    assert(Reg::R11.spec_name_32() =~= seq!['%', 'r', '1', '1', 'd']);
    assert(Reg::R12.spec_name() =~= seq!['%', 'r', '1', '2']);
    assert(Reg::R12.spec_name_32() =~= seq!['%', 'r', '1', '2', 'd']);
    assert(Reg::R13.spec_name() =~= seq!['%', 'r', '1', '3']);
    assert(Reg::R13.spec_name_32() =~= seq!['%', 'r', '1', '3', 'd']);
    assert(Reg::R14.spec_name() =~= seq!['%', 'r', '1', '4']);
    assert(Reg::R14.spec_name_32() =~= seq!['%', 'r', '1', '4', 'd']);
    assert(Reg::R15.spec_name() =~= seq!['%', 'r', '1', '5']);
    assert(Reg::R15.spec_name_32() =~= seq!['%', 'r', '1', '5', 'd']);
}

/// Different registers have different names, in both widths.
pub proof fn lemma_register_names_distinct(r: Reg, q: Reg)
    ensures
        r.spec_name() == q.spec_name() ==> r == q,
        r.spec_name_32() == q.spec_name_32() ==> r == q,
{
    lemma_keys(r, q);
}

/// The 32-bit name of a legacy register is its 64-bit name with the `r`
/// after `%` replaced by `e`; that of `%r8`–`%r15` is the 64-bit name with
/// `d` appended.
pub proof fn lemma_register_names_32(r: Reg)
    ensures
        r.is_legacy() ==> r.spec_name_32() == "%e"@ + r.spec_name().subrange(
            2,
            r.spec_name().len() as int,
        ),
        !r.is_legacy() ==> r.spec_name_32() == r.spec_name() + "d"@,
{
    reveal_strlit("%e");
    reveal_strlit("d");
    reveal_strlit("%rax");
    reveal_strlit("%rbx");
    reveal_strlit("%rcx");
    reveal_strlit("%rdx");
    reveal_strlit("%rsi");
    reveal_strlit("%rdi");
    reveal_strlit("%rbp");
    reveal_strlit("%rsp");
    reveal_strlit("%r8");
    reveal_strlit("%r9");
    reveal_strlit("%r10");
    reveal_strlit("%r11");
    reveal_strlit("%r12");
    reveal_strlit("%r13");
    reveal_strlit("%r14");
    reveal_strlit("%r15");
    reveal_strlit("%eax");
    reveal_strlit("%ebx");
    reveal_strlit("%ecx");
    reveal_strlit("%edx");
    reveal_strlit("%esi");
    reveal_strlit("%edi");
    reveal_strlit("%ebp");
    reveal_strlit("%esp");
    reveal_strlit("%r8d");
    reveal_strlit("%r9d");
    reveal_strlit("%r10d");
    reveal_strlit("%r11d");
    reveal_strlit("%r12d");
    reveal_strlit("%r13d");
    reveal_strlit("%r14d");
    reveal_strlit("%r15d");
    assert(r.is_legacy() ==> r.spec_name_32() =~= "%e"@ + r.spec_name().subrange(
        2,
        r.spec_name().len() as int,
    ));
    assert(!r.is_legacy() ==> r.spec_name_32() =~= r.spec_name() + "d"@);
}

/// The classification of an argument under the calling convention.
#[allow(non_camel_case_types)]
#[derive(Debug, Clone, Copy, PartialEq, Eq, Structural)]
pub enum ArgClass {
    /// Passed in an integer register (or on the stack once registers are exhausted).
    INTEGER,
    /// Passed in an SSE register (not yet implemented).
    SSE,
    /// Passed indirectly on the stack via a pointer (MEMORY class in SysV terms).
    MEMORY,
}

/// A minimal type representation for ABI argument classification.
#[derive(Debug, Clone, PartialEq, Eq, Structural)]
pub enum AbiType {
    /// A signed or unsigned integer of the given bit width.
    Integer(u32),
    /// A pointer (treated as 64-bit integer for classification).
    Pointer,
    /// A floating-point type of the given bit width.
    Float(u32),
    /// A struct/union/array type with the given total size in bytes.
    Aggregate(u32),
}

/// The number of whole bytes needed to hold `bits` bits.
pub open spec fn bytes_for_bits(bits: int) -> int {
    (bits + 7) / 8
}

impl AbiType {
    /// Whether the size of this type can be computed without the bit width
    /// overflowing while it is rounded up to whole bytes.
    pub open spec fn size_in_range(&self) -> bool {
        match *self {
            AbiType::Integer(bits) => bits + 7 <= u32::MAX,
            AbiType::Float(bits) => bits + 7 <= u32::MAX,
            _ => true,
        }
    }

    /// The size of this type in bytes.
    pub open spec fn spec_size(&self) -> int {
        match *self {
            AbiType::Integer(bits) => bytes_for_bits(bits as int),
            AbiType::Pointer => 8,
            AbiType::Float(bits) => bytes_for_bits(bits as int),
            AbiType::Aggregate(size) => size as int,
        }
    }

    /// The size of this type in bytes.
    pub fn size(&self) -> (r: u32)
        requires
            self.size_in_range(),
        ensures
            r == self.spec_size(),
    {
        match self {
            AbiType::Integer(bits) => (*bits + 7) / 8,
            AbiType::Pointer => 8,
            AbiType::Float(bits) => (*bits + 7) / 8,
            AbiType::Aggregate(size) => *size,
        }
    }
}

/// The calling convention interface.
///
/// Implementations define how arguments are classified, which registers
/// are used for passing arguments and return values, and the stack
/// layout conventions.
pub trait CallingConvention {
    /// Classify an argument of the given type.
    fn classify_argument(&self, ty: &AbiType) -> ArgClass;

    /// Return the register for the `index`-th integer-class argument
    /// (0-based), or `None` if arguments at this position go on the stack.
    fn argument_register(&self, index: usize) -> Option<Reg>;

    /// The register used for integer-class return values.
    fn return_register(&self) -> Reg;

    /// The list of registers that must be preserved across function calls.
    fn callee_saved_registers(&self) -> &[Reg];

    /// The list of registers that the caller must save if needed.
    fn caller_saved_registers(&self) -> &[Reg];

    /// The required stack alignment at the point of a `call` instruction (in bytes).
    fn stack_alignment(&self) -> u32;

    /// The size of the red zone below `rsp` (in bytes).
    fn red_zone_size(&self) -> u32;

    /// The number of integer argument registers available before spilling to stack.
    fn num_integer_arg_registers(&self) -> usize;
}

/// The System V AMD64 calling convention for x86-64 Linux.
pub struct SysVAmd64;

/// How the System V AMD64 ABI classifies an argument of type `ty`:
/// integers and pointers are INTEGER, floats are SSE, and aggregates are
/// INTEGER up to 16 bytes and MEMORY beyond.
pub open spec fn sysv_class(ty: AbiType) -> ArgClass {
    match ty {
        AbiType::Integer(_) => ArgClass::INTEGER,
        AbiType::Pointer => ArgClass::INTEGER,
        AbiType::Float(_) => ArgClass::SSE,
        AbiType::Aggregate(size) => if size > 16 {
            ArgClass::MEMORY
        } else {
            ArgClass::INTEGER
        },
    }
}

/// The integer argument registers of the System V AMD64 ABI, in order.
pub open spec fn sysv_argument_registers() -> Seq<Reg> {
    seq![Reg::RDI, Reg::RSI, Reg::RDX, Reg::RCX, Reg::R8, Reg::R9]
}

/// The register for the `index`-th integer argument, if it has one.
pub open spec fn sysv_argument_register(index: int) -> Option<Reg> {
    if 0 <= index < sysv_argument_registers().len() {
        Some(sysv_argument_registers()[index])
    } else {
        None
    }
}

/// The callee-saved registers of the System V AMD64 ABI.
pub open spec fn sysv_callee_saved() -> Seq<Reg> {
    seq![Reg::RBX, Reg::RBP, Reg::R12, Reg::R13, Reg::R14, Reg::R15]
}

/// The caller-saved registers of the System V AMD64 ABI.
pub open spec fn sysv_caller_saved() -> Seq<Reg> {
    seq![
        Reg::RAX,
        Reg::RCX,
        Reg::RDX,
        Reg::RSI,
        Reg::RDI,
        Reg::R8,
        Reg::R9,
        Reg::R10,
        Reg::R11,
    ]
}

impl CallingConvention for SysVAmd64 {
    fn classify_argument(&self, ty: &AbiType) -> (r: ArgClass)
        ensures
            r == sysv_class(*ty),
    {
        match ty {
            AbiType::Integer(_) | AbiType::Pointer => ArgClass::INTEGER,
            AbiType::Float(_) => ArgClass::SSE,
            AbiType::Aggregate(size) => {
                if *size > 16 {
                    ArgClass::MEMORY
                } else {
                    ArgClass::INTEGER
                }
            },
        }
    }

    fn argument_register(&self, index: usize) -> (r: Option<Reg>)
        ensures
            r == sysv_argument_register(index as int),
    {
        match index {
            0 => Some(Reg::RDI),
            1 => Some(Reg::RSI),
            2 => Some(Reg::RDX),
            3 => Some(Reg::RCX),
            4 => Some(Reg::R8),
            5 => Some(Reg::R9),
            _ => None,
        }
    }

    fn return_register(&self) -> (r: Reg)
        ensures
            r == Reg::RAX,
    {
        Reg::RAX
    }

    fn callee_saved_registers(&self) -> (r: &[Reg])
        ensures
            r@ == sysv_callee_saved(),
    {
        &[Reg::RBX, Reg::RBP, Reg::R12, Reg::R13, Reg::R14, Reg::R15]
    }

    fn caller_saved_registers(&self) -> (r: &[Reg])
        ensures
            r@ == sysv_caller_saved(),
    {
        &[Reg::RAX, Reg::RCX, Reg::RDX, Reg::RSI, Reg::RDI, Reg::R8, Reg::R9, Reg::R10, Reg::R11]
    }

    fn stack_alignment(&self) -> (r: u32)
        ensures
            r == 16,
    {
        16
    }

    fn red_zone_size(&self) -> (r: u32)
        ensures
            r == 128,
    {
        128
    }

    fn num_integer_arg_registers(&self) -> (r: usize)
        ensures
            r == sysv_argument_registers().len(),
    {
        6
    }
}

/// The size of an integer or float type is the fewest whole bytes that hold
/// its bits; a pointer takes 8 bytes and an aggregate its own size.
pub proof fn lemma_sizes(bits: u32, size: u32)
    ensures
        AbiType::Integer(bits).spec_size() * 8 >= bits,
        (AbiType::Integer(bits).spec_size() - 1) * 8 < bits,
        AbiType::Float(bits).spec_size() * 8 >= bits,
        (AbiType::Float(bits).spec_size() - 1) * 8 < bits,
        AbiType::Pointer.spec_size() == 8,
        AbiType::Aggregate(size).spec_size() == size,
{
}

/// An integer argument is passed in a register exactly when its position is
/// below the number of integer argument registers, and no two positions
/// share a register.
pub proof fn lemma_argument_registers_count()
    ensures
        forall|i: int|
            i >= 0 ==> ((#[trigger] sysv_argument_register(i) is Some) <==> i
                < sysv_argument_registers().len()),
        forall|i: int, j: int|
            0 <= i < j < sysv_argument_registers().len() ==> sysv_argument_registers()[i]
                != sysv_argument_registers()[j],
{
}

/// How the System V AMD64 ABI classifies arguments: integers and pointers
/// are INTEGER, floats are SSE, and an aggregate is MEMORY exactly when it
/// is larger than 16 bytes and INTEGER otherwise; only aggregates are ever
/// MEMORY and only floats SSE.
pub proof fn lemma_classification(size: u32, bits: u32, ty: AbiType)
    ensures
        (sysv_class(AbiType::Aggregate(size)) == ArgClass::MEMORY) <==> size > 16,
        size <= 16 ==> sysv_class(AbiType::Aggregate(size)) == ArgClass::INTEGER,
        sysv_class(AbiType::Integer(bits)) == ArgClass::INTEGER,
        sysv_class(AbiType::Pointer) == ArgClass::INTEGER,
        sysv_class(AbiType::Float(bits)) == ArgClass::SSE,
        sysv_class(ty) == ArgClass::MEMORY ==> ty is Aggregate,
        sysv_class(ty) == ArgClass::SSE <==> ty is Float,
{
}

/// The register sets of the System V AMD64 ABI: the callee-saved registers
/// are exactly RBX, RBP and R12–R15, the caller-saved registers exactly RAX,
/// RCX, RDX, RSI, RDI and R8–R11, each listed once; the integer arguments go
/// in RDI, RSI, RDX, RCX, R8, R9 in that order, and results in RAX.
pub proof fn lemma_register_sets(r: Reg)
    ensures
        sysv_callee_saved().contains(r) <==> (r == Reg::RBX || r == Reg::RBP || r == Reg::R12
            || r == Reg::R13 || r == Reg::R14 || r == Reg::R15),
        sysv_caller_saved().contains(r) <==> (r == Reg::RAX || r == Reg::RCX || r == Reg::RDX
            || r == Reg::RSI || r == Reg::RDI || r == Reg::R8 || r == Reg::R9 || r == Reg::R10
            || r == Reg::R11),
        sysv_callee_saved().no_duplicates(),
        sysv_caller_saved().no_duplicates(),
        sysv_callee_saved().len() == 6,
        sysv_caller_saved().len() == 9,
        sysv_argument_register(0) == Some(Reg::RDI),
        sysv_argument_register(1) == Some(Reg::RSI),
        sysv_argument_register(2) == Some(Reg::RDX),
        sysv_argument_register(3) == Some(Reg::RCX),
        sysv_argument_register(4) == Some(Reg::R8),
        sysv_argument_register(5) == Some(Reg::R9),
        sysv_argument_register(6) is None,
{
    lemma_saved_lists_cover(r);
    let callee = sysv_callee_saved();
    let caller = sysv_caller_saved();
    if callee.contains(r) {
        let i = choose|i: int| 0 <= i < callee.len() && callee[i] == r;
    }
    if caller.contains(r) {
        let i = choose|i: int| 0 <= i < caller.len() && caller[i] == r;
    }
    match r {
        Reg::RBX => assert(callee[0] == r),
        Reg::RBP => assert(callee[1] == r),
        Reg::R12 => assert(callee[2] == r),
        Reg::R13 => assert(callee[3] == r),
        Reg::R14 => assert(callee[4] == r),
        Reg::R15 => assert(callee[5] == r),
        Reg::RAX => assert(caller[0] == r),
        Reg::RCX => assert(caller[1] == r),
        Reg::RDX => assert(caller[2] == r),
        Reg::RSI => assert(caller[3] == r),
        Reg::RDI => assert(caller[4] == r),
        Reg::R8 => assert(caller[5] == r),
        Reg::R9 => assert(caller[6] == r),
        Reg::R10 => assert(caller[7] == r),
        Reg::R11 => assert(caller[8] == r),
        Reg::RSP => {},
    }
}

/// No register is both callee-saved and caller-saved.
pub proof fn lemma_saved_lists_disjoint()
    ensures
        forall|i: int, j: int|
            0 <= i < sysv_callee_saved().len() && 0 <= j < sysv_caller_saved().len()
                ==> sysv_callee_saved()[i] != sysv_caller_saved()[j],
{
}

/// Every register is either callee-saved, caller-saved, or the stack
/// pointer.
pub proof fn lemma_saved_lists_cover(r: Reg)
    ensures
        r == Reg::RSP || sysv_callee_saved().contains(r) || sysv_caller_saved().contains(r),
{
    match r {
        Reg::RBX => assert(sysv_callee_saved()[0] == r),
        Reg::RBP => assert(sysv_callee_saved()[1] == r),
        Reg::R12 => assert(sysv_callee_saved()[2] == r),
        Reg::R13 => assert(sysv_callee_saved()[3] == r),
        Reg::R14 => assert(sysv_callee_saved()[4] == r),
        Reg::R15 => assert(sysv_callee_saved()[5] == r),
        Reg::RAX => assert(sysv_caller_saved()[0] == r),
        Reg::RCX => assert(sysv_caller_saved()[1] == r),
        Reg::RDX => assert(sysv_caller_saved()[2] == r),
        Reg::RSI => assert(sysv_caller_saved()[3] == r),
        Reg::RDI => assert(sysv_caller_saved()[4] == r),
        Reg::R8 => assert(sysv_caller_saved()[5] == r),
        Reg::R9 => assert(sysv_caller_saved()[6] == r),
        Reg::R10 => assert(sysv_caller_saved()[7] == r),
        Reg::R11 => assert(sysv_caller_saved()[8] == r),
        Reg::RSP => {},
    }
}

/// The argument registers and the return register are all caller-saved.
pub proof fn lemma_argument_and_return_registers_caller_saved()
    ensures
        forall|i: int|
            0 <= i < sysv_argument_registers().len() ==> sysv_caller_saved().contains(
                #[trigger] sysv_argument_registers()[i],
            ),
        sysv_caller_saved().contains(Reg::RAX),
{
    assert(sysv_caller_saved()[0] == Reg::RAX);
    assert(sysv_caller_saved()[4] == sysv_argument_registers()[0]);
    assert(sysv_caller_saved()[3] == sysv_argument_registers()[1]);
    assert(sysv_caller_saved()[2] == sysv_argument_registers()[2]);
    assert(sysv_caller_saved()[1] == sysv_argument_registers()[3]);
    assert(sysv_caller_saved()[5] == sysv_argument_registers()[4]);
    assert(sysv_caller_saved()[6] == sysv_argument_registers()[5]);
}

} // verus!
