//! The intermediate representation: plain data that says which instructions
//! a function holds, in the order in which they are built.
//!
//! A function body is one flat list. A `Label` starts a basic block; the
//! instructions up to the next `Label` belong to it. An instruction is known
//! by its index in the list, and `Operand::Result` names the value that the
//! instruction at an index gives.

use vstd::prelude::*;

verus! {

/// What a source value is, which says how it is held: an integer in 64
/// bits, a float in 64 bits, a string as a pointer to a zero-terminated byte
/// buffer, a boolean as the 64-bit integer 1 (true) or 0 (false), `None` as
/// the 64-bit integer 0.
#[derive(Debug, Clone, Copy, PartialEq, Eq, Structural)]
pub enum ValueKind {
    Int,
    Float,
    Pointer,
    Bool,
    NoneValue,
}

#[derive(Debug, Clone, Copy, PartialEq, Eq, Structural)]
pub enum IntOperation {
    Add,
    Subtract,
    Multiply,
    /// Signed division that rounds toward zero.
    Divide,
    /// Signed remainder with the sign of the dividend.
    Remainder,
}

#[derive(Debug, Clone, Copy, PartialEq, Eq, Structural)]
pub enum FloatOperation {
    Add,
    Subtract,
    Multiply,
    Divide,
    /// Remainder with the sign of the dividend.
    Remainder,
}

/// A function of the C library that generated code calls.
#[derive(Debug, Clone, Copy, PartialEq, Eq, Structural)]
pub enum External {
    /// `int printf(const char *, ...)`
    Printf,
    /// `int snprintf(char *, size_t, const char *, ...)`
    Snprintf,
    /// `void *memset(void *, int, size_t)`
    Memset,
    /// `size_t strlen(const char *)`
    Strlen,
    /// `void *malloc(size_t)`
    Malloc,
    /// `char *strcpy(char *, const char *)`
    Strcpy,
    /// `char *strcat(char *, const char *)`
    Strcat,
    /// `double floor(double)`
    Floor,
    /// `double pow(double, double)`
    Pow,
}

/// What a call goes to.
#[derive(Debug, Clone, Copy, PartialEq, Eq, Structural)]
pub enum Callee {
    /// The function with this index in the unit's list of signatures.
    Function(usize),
    External(External),
}

/// The name of a basic block.
#[derive(Debug, Clone, Copy, PartialEq, Eq, Structural)]
pub enum BlockLabel {
    Entry,
    AfterReturn,
    PrintZero,
    PrintFloat,
    PrintDone,
    PowerCheck,
    PowerStep,
    PowerDone,
}

/// The block that a branch goes to, counted in labels from the branch: the
/// next label is `Ahead(1)`, the label of the block before the branch's own
/// is `Back(1)`.
#[derive(Debug, Clone, Copy, PartialEq, Eq, Structural)]
pub enum Target {
    Ahead(usize),
    Back(usize),
}

/// A value that an instruction reads.
#[derive(Debug, Clone, Copy, PartialEq, Eq, Structural)]
pub enum Operand {
    /// A 64-bit integer constant.
    Integer(i64),
    /// A 32-bit integer constant.
    Int32(i32),
    /// The float constant with this index in the unit's list of floats.
    Float(usize),
    /// A pointer to the string constant with this index in the unit's list.
    Text(usize),
    /// The parameter of the function with this index; a 64-bit integer.
    Parameter(usize),
    /// What the instruction with this index in the function body gave.
    Result(usize),
}

#[derive(Debug, Clone, Copy, PartialEq, Eq, Structural)]
#[allow(inconsistent_fields)]
pub enum Instruction {
    /// Starts a basic block.
    Label { label: BlockLabel },
    /// Reserves a stack slot for one value; gives a pointer to it.
    Alloca { kind: ValueKind },
    /// Reserves `size` bytes on the stack; gives a pointer to them.
    Buffer { size: u32 },
    Store { slot: Operand, value: Operand },
    Load { slot: Operand, kind: ValueKind },
    IntBinary { operation: IntOperation, left: Operand, right: Operand },
    FloatBinary { operation: FloatOperation, left: Operand, right: Operand },
    /// Converts a signed 64-bit integer to a float.
    IntToFloat { value: Operand },
    IntEqual { left: Operand, right: Operand },
    /// Signed greater-than.
    IntGreater { left: Operand, right: Operand },
    /// Equal and neither is NaN.
    FloatEqual { left: Operand, right: Operand },
    /// Less and neither is NaN.
    FloatLess { left: Operand, right: Operand },
    /// `then_value` where the bit `condition` is set, else `else_value`; both
    /// are of the kind `kind`.
    Select { condition: Operand, then_value: Operand, else_value: Operand, kind: ValueKind },
    /// Hands one more argument to the call that follows.
    Argument { value: Operand },
    /// Calls `callee` with the `arguments` values that stand just before it.
    Call { callee: Callee, arguments: usize },
    Return { value: Operand },
    Branch { target: Target },
    CondBranch { condition: Operand, then_target: Target, else_target: Target },
}

/// Whether an instruction ends a basic block.
pub open spec fn terminator(instruction: Instruction) -> bool {
    instruction is Return || instruction is Branch || instruction is CondBranch
}

/// Whether an instruction ends a basic block.
pub fn is_terminator(instruction: &Instruction) -> (b: bool)
    ensures
        b == terminator(*instruction),
{
    match instruction {
        Instruction::Return { .. } => true,
        Instruction::Branch { .. } => true,
        Instruction::CondBranch { .. } => true,
        _ => false,
    }
}

/// Every basic block ends in exactly one terminator: the list starts with a
/// label, a terminator stands exactly where a label follows or the list
/// ends, and so nothing but a label follows a terminator.
pub open spec fn blocks_closed(body: Seq<Instruction>) -> bool {
    &&& body.len() > 0
    &&& body[0] is Label
    &&& forall|i: int|
        0 <= i < body.len() ==> (terminator(#[trigger] body[i]) <==> (i + 1 == body.len() || body[i
            + 1] is Label))
}

} // verus!
