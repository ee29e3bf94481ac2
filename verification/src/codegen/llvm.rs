//! The calls into LLVM, through the `inkwell` crate. Every function here
//! makes one kind of call and hands back what came of it; none of them holds
//! a decision of the code generator.
//!
//! A value of LLVM is a handle into a context. What stands behind a handle
//! is not known to the verifier, so nothing is claimed of it. A call that
//! the builder refuses, or a value of another sort than the call takes,
//! gives `None`.
//!
//! A module and its builder are held together as an [`Assembly`]. Every
//! call that can change what the module holds takes the assembly by `&mut`
//! and claims nothing of the module after it; the handles that it is given
//! are those that earlier calls on the same assembly gave. Only the text
//! that LLVM prints for the module has a name, [`printed`].

use crate::codegen::codegen::Optimization;
use vstd::prelude::*;

verus! {

#[verifier::external_type_specification]
#[verifier::external_body]
pub struct ExContext(inkwell::context::Context);

#[verifier::external_type_specification]
#[verifier::external_body]
pub struct ExModule<'ctx>(inkwell::module::Module<'ctx>);

#[verifier::external_type_specification]
#[verifier::external_body]
pub struct ExBuilder<'ctx>(inkwell::builder::Builder<'ctx>);

#[verifier::external_type_specification]
#[verifier::external_body]
pub struct ExBasicValueEnum<'ctx>(inkwell::values::BasicValueEnum<'ctx>);

#[verifier::external_type_specification]
#[verifier::external_body]
pub struct ExBasicTypeEnum<'ctx>(inkwell::types::BasicTypeEnum<'ctx>);

#[verifier::external_type_specification]
#[verifier::external_body]
pub struct ExFunctionValue<'ctx>(inkwell::values::FunctionValue<'ctx>);

#[verifier::external_type_specification]
#[verifier::external_body]
pub struct ExBasicBlock<'ctx>(inkwell::basic_block::BasicBlock<'ctx>);

#[verifier::external_type_specification]
#[verifier::external_body]
pub struct ExOptimizationLevel(inkwell::OptimizationLevel);

#[verifier::external_type_specification]
#[verifier::external_body]
pub struct ExTargetMachine(inkwell::targets::TargetMachine);

/// A module of LLVM together with the builder that writes into it. Whatever
/// changes the module takes the assembly by `&mut`: what the module holds
/// after such a call is not known to the verifier.
pub struct Assembly<'ctx> {
    pub(crate) module: inkwell::module::Module<'ctx>,
    pub(crate) builder: inkwell::builder::Builder<'ctx>,
}

/// The text that `Module::print_to_string` gives for the module of an
/// assembly as it stands.
pub uninterp spec fn printed(assembly: Assembly<'_>) -> Seq<char>;

/// `Context::create_module`: an empty module called `name`.
#[verifier::external_body]
pub(crate) fn create_module<'ctx>(context: &'ctx inkwell::context::Context, name: &str) -> (module:
    inkwell::module::Module<'ctx>) {
    context.create_module(name)
}

/// `Context::create_builder`: a builder that stands nowhere yet.
#[verifier::external_body]
pub(crate) fn create_builder<'ctx>(context: &'ctx inkwell::context::Context) -> (builder:
    inkwell::builder::Builder<'ctx>) {
    context.create_builder()
}

/// `Context::i32_type`, as a basic type.
#[verifier::external_body]
pub(crate) fn int32_type<'ctx>(context: &'ctx inkwell::context::Context) -> (ty:
    inkwell::types::BasicTypeEnum<'ctx>) {
    context.i32_type().into()
}

/// `Context::i64_type`, as a basic type.
#[verifier::external_body]
pub(crate) fn int64_type<'ctx>(context: &'ctx inkwell::context::Context) -> (ty:
    inkwell::types::BasicTypeEnum<'ctx>) {
    context.i64_type().into()
}

/// `Context::f64_type`, as a basic type.
#[verifier::external_body]
pub(crate) fn float64_type<'ctx>(context: &'ctx inkwell::context::Context) -> (ty:
    inkwell::types::BasicTypeEnum<'ctx>) {
    context.f64_type().into()
}

/// `IntType::ptr_type` on the 8-bit integer type: a pointer to bytes.
#[verifier::external_body]
pub(crate) fn text_type<'ctx>(context: &'ctx inkwell::context::Context) -> (ty:
    inkwell::types::BasicTypeEnum<'ctx>) {
    context.i8_type().ptr_type(inkwell::AddressSpace::default()).into()
}

/// `IntType::array_type` on the 8-bit integer type: `size` bytes.
#[verifier::external_body]
pub(crate) fn bytes_type<'ctx>(context: &'ctx inkwell::context::Context, size: u32) -> (ty:
    inkwell::types::BasicTypeEnum<'ctx>) {
    context.i8_type().array_type(size).into()
}

/// `Module::add_function` with the function type that `BasicType::fn_type`
/// makes of a result type and parameter types. A name that the module holds
/// already is changed by LLVM.
#[verifier::external_body]
pub(crate) fn add_function<'ctx>(
    assembly: &mut Assembly<'ctx>,
    name: &str,
    result: inkwell::types::BasicTypeEnum<'ctx>,
    parameters: &Vec<inkwell::types::BasicTypeEnum<'ctx>>,
    variadic: bool,
) -> (function: inkwell::values::FunctionValue<'ctx>) {
    let types: Vec<inkwell::types::BasicMetadataTypeEnum<'ctx>> = parameters.iter().map(
        |ty| (*ty).into(),
    ).collect();
    assembly.module.add_function(name, inkwell::types::BasicType::fn_type(&result, &types, variadic), None)
}

/// `Module::get_context` and `ContextRef::append_basic_block`: a new last
/// block of `function`.
#[verifier::external_body]
pub(crate) fn append_block<'ctx>(
    assembly: &mut Assembly<'ctx>,
    function: inkwell::values::FunctionValue<'ctx>,
    name: &str,
) -> (block: inkwell::basic_block::BasicBlock<'ctx>) {
    assembly.module.get_context().append_basic_block(function, name)
}

/// `Builder::position_at_end`: what is built next goes to the end of `block`.
#[verifier::external_body]
pub(crate) fn position_at_end<'ctx>(
    assembly: &mut Assembly<'ctx>,
    block: inkwell::basic_block::BasicBlock<'ctx>,
) {
    assembly.builder.position_at_end(block)
}

/// `FunctionValue::get_nth_param`: nothing where the function has no such
/// parameter.
#[verifier::external_body]
pub(crate) fn parameter<'ctx>(function: inkwell::values::FunctionValue<'ctx>, index: u32) -> (value:
    Option<inkwell::values::BasicValueEnum<'ctx>>)
    requires
        index < u32::MAX,
{
    function.get_nth_param(index)
}

/// `IntType::const_int` on the 64-bit integer type.
#[verifier::external_body]
pub(crate) fn const_int64<'ctx>(context: &'ctx inkwell::context::Context, value: i64) -> (constant:
    inkwell::values::BasicValueEnum<'ctx>) {
    context.i64_type().const_int(value as u64, true).into()
}

/// `IntType::const_int` on the 32-bit integer type.
#[verifier::external_body]
pub(crate) fn const_int32<'ctx>(context: &'ctx inkwell::context::Context, value: i32) -> (constant:
    inkwell::values::BasicValueEnum<'ctx>) {
    context.i32_type().const_int(value as u64, true).into()
}

/// `FloatType::const_float` on the 64-bit float type, with the number that
/// `str::parse` reads from `text`, or zero where it reads none.
#[verifier::external_body]
pub(crate) fn const_float<'ctx>(context: &'ctx inkwell::context::Context, text: &str) -> (constant:
    inkwell::values::BasicValueEnum<'ctx>) {
    context.f64_type().const_float(text.parse().unwrap_or_default()).into()
}

/// `Builder::build_global_string_ptr`: a constant that holds `text` and a
/// closing zero, and a pointer to its first byte.
#[verifier::external_body]
pub(crate) fn global_string<'ctx>(
    assembly: &mut Assembly<'ctx>,
    text: &str,
    name: &str,
) -> (pointer: Option<inkwell::values::BasicValueEnum<'ctx>>) {
    assembly.builder.build_global_string_ptr(text, name).ok().map(|global| global.as_pointer_value().into())
}

/// `Builder::build_alloca`: a stack slot for a value of type `ty`.
#[verifier::external_body]
pub(crate) fn build_alloca<'ctx>(
    assembly: &mut Assembly<'ctx>,
    ty: inkwell::types::BasicTypeEnum<'ctx>,
    name: &str,
) -> (slot: Option<inkwell::values::BasicValueEnum<'ctx>>) {
    assembly.builder.build_alloca(ty, name).ok().map(|slot| slot.into())
}

/// `Builder::build_bit_cast` of a value to the type `ty`.
#[verifier::external_body]
pub(crate) fn build_cast<'ctx>(
    assembly: &mut Assembly<'ctx>,
    value: inkwell::values::BasicValueEnum<'ctx>,
    ty: inkwell::types::BasicTypeEnum<'ctx>,
    name: &str,
) -> (cast: Option<inkwell::values::BasicValueEnum<'ctx>>) {
    assembly.builder.build_bit_cast(value, ty, name).ok()
}

/// `Builder::build_store` of `value` through the pointer `slot`; `false`
/// where `slot` is no pointer or the builder refuses.
#[verifier::external_body]
pub(crate) fn build_store<'ctx>(
    assembly: &mut Assembly<'ctx>,
    slot: inkwell::values::BasicValueEnum<'ctx>,
    value: inkwell::values::BasicValueEnum<'ctx>,
) -> (stored: bool) {
    match slot {
        inkwell::values::BasicValueEnum::PointerValue(pointer) => assembly.builder.build_store(
            pointer,
            value,
        ).is_ok(),
        _ => false,
    }
}

/// `Builder::build_load` through the pointer `slot`.
#[verifier::external_body]
pub(crate) fn build_load<'ctx>(
    assembly: &mut Assembly<'ctx>,
    slot: inkwell::values::BasicValueEnum<'ctx>,
    name: &str,
) -> (value: Option<inkwell::values::BasicValueEnum<'ctx>>) {
    match slot {
        inkwell::values::BasicValueEnum::PointerValue(pointer) => assembly.builder.build_load(
            pointer,
            name,
        ).ok(),
        _ => None,
    }
}

/// `Builder::build_int_add`.
#[verifier::external_body]
pub(crate) fn build_int_add<'ctx>(
    assembly: &mut Assembly<'ctx>,
    left: inkwell::values::BasicValueEnum<'ctx>,
    right: inkwell::values::BasicValueEnum<'ctx>,
    name: &str,
) -> (value: Option<inkwell::values::BasicValueEnum<'ctx>>) {
    match (left, right) {
        (
            inkwell::values::BasicValueEnum::IntValue(l),
            inkwell::values::BasicValueEnum::IntValue(r),
        ) => assembly.builder.build_int_add(l, r, name).ok().map(|v| v.into()),
        _ => None,
    }
}

/// `Builder::build_int_sub`.
#[verifier::external_body]
pub(crate) fn build_int_sub<'ctx>(
    assembly: &mut Assembly<'ctx>,
    left: inkwell::values::BasicValueEnum<'ctx>,
    right: inkwell::values::BasicValueEnum<'ctx>,
    name: &str,
) -> (value: Option<inkwell::values::BasicValueEnum<'ctx>>) {
    match (left, right) {
        (
            inkwell::values::BasicValueEnum::IntValue(l),
            inkwell::values::BasicValueEnum::IntValue(r),
        ) => assembly.builder.build_int_sub(l, r, name).ok().map(|v| v.into()),
        _ => None,
    }
}

/// `Builder::build_int_mul`.
#[verifier::external_body]
pub(crate) fn build_int_mul<'ctx>(
    assembly: &mut Assembly<'ctx>,
    left: inkwell::values::BasicValueEnum<'ctx>,
    right: inkwell::values::BasicValueEnum<'ctx>,
    name: &str,
) -> (value: Option<inkwell::values::BasicValueEnum<'ctx>>) {
    match (left, right) {
        (
            inkwell::values::BasicValueEnum::IntValue(l),
            inkwell::values::BasicValueEnum::IntValue(r),
        ) => assembly.builder.build_int_mul(l, r, name).ok().map(|v| v.into()),
        _ => None,
    }
}

/// `Builder::build_int_signed_div`.
#[verifier::external_body]
pub(crate) fn build_int_div<'ctx>(
    assembly: &mut Assembly<'ctx>,
    left: inkwell::values::BasicValueEnum<'ctx>,
    right: inkwell::values::BasicValueEnum<'ctx>,
    name: &str,
) -> (value: Option<inkwell::values::BasicValueEnum<'ctx>>) {
    match (left, right) {
        (
            inkwell::values::BasicValueEnum::IntValue(l),
            inkwell::values::BasicValueEnum::IntValue(r),
        ) => assembly.builder.build_int_signed_div(l, r, name).ok().map(|v| v.into()),
        _ => None,
    }
}

/// `Builder::build_int_signed_rem`.
#[verifier::external_body]
pub(crate) fn build_int_rem<'ctx>(
    assembly: &mut Assembly<'ctx>,
    left: inkwell::values::BasicValueEnum<'ctx>,
    right: inkwell::values::BasicValueEnum<'ctx>,
    name: &str,
) -> (value: Option<inkwell::values::BasicValueEnum<'ctx>>) {
    match (left, right) {
        (
            inkwell::values::BasicValueEnum::IntValue(l),
            inkwell::values::BasicValueEnum::IntValue(r),
        ) => assembly.builder.build_int_signed_rem(l, r, name).ok().map(|v| v.into()),
        _ => None,
    }
}

/// `Builder::build_float_add`.
#[verifier::external_body]
pub(crate) fn build_float_add<'ctx>(
    assembly: &mut Assembly<'ctx>,
    left: inkwell::values::BasicValueEnum<'ctx>,
    right: inkwell::values::BasicValueEnum<'ctx>,
    name: &str,
) -> (value: Option<inkwell::values::BasicValueEnum<'ctx>>) {
    match (left, right) {
        (
            inkwell::values::BasicValueEnum::FloatValue(l),
            inkwell::values::BasicValueEnum::FloatValue(r),
        ) => assembly.builder.build_float_add(l, r, name).ok().map(|v| v.into()),
        _ => None,
    }
}

/// `Builder::build_float_sub`.
#[verifier::external_body]
pub(crate) fn build_float_sub<'ctx>(
    assembly: &mut Assembly<'ctx>,
    left: inkwell::values::BasicValueEnum<'ctx>,
    right: inkwell::values::BasicValueEnum<'ctx>,
    name: &str,
) -> (value: Option<inkwell::values::BasicValueEnum<'ctx>>) {
    match (left, right) {
        (
            inkwell::values::BasicValueEnum::FloatValue(l),
            inkwell::values::BasicValueEnum::FloatValue(r),
        ) => assembly.builder.build_float_sub(l, r, name).ok().map(|v| v.into()),
        _ => None,
    }
}

/// `Builder::build_float_mul`.
#[verifier::external_body]
pub(crate) fn build_float_mul<'ctx>(
    assembly: &mut Assembly<'ctx>,
    left: inkwell::values::BasicValueEnum<'ctx>,
    right: inkwell::values::BasicValueEnum<'ctx>,
    name: &str,
) -> (value: Option<inkwell::values::BasicValueEnum<'ctx>>) {
    match (left, right) {
        (
            inkwell::values::BasicValueEnum::FloatValue(l),
            inkwell::values::BasicValueEnum::FloatValue(r),
        ) => assembly.builder.build_float_mul(l, r, name).ok().map(|v| v.into()),
        _ => None,
    }
}

/// `Builder::build_float_div`.
#[verifier::external_body]
pub(crate) fn build_float_div<'ctx>(
    assembly: &mut Assembly<'ctx>,
    left: inkwell::values::BasicValueEnum<'ctx>,
    right: inkwell::values::BasicValueEnum<'ctx>,
    name: &str,
) -> (value: Option<inkwell::values::BasicValueEnum<'ctx>>) {
    match (left, right) {
        (
            inkwell::values::BasicValueEnum::FloatValue(l),
            inkwell::values::BasicValueEnum::FloatValue(r),
        ) => assembly.builder.build_float_div(l, r, name).ok().map(|v| v.into()),
        _ => None,
    }
}

/// `Builder::build_float_rem`.
#[verifier::external_body]
pub(crate) fn build_float_rem<'ctx>(
    assembly: &mut Assembly<'ctx>,
    left: inkwell::values::BasicValueEnum<'ctx>,
    right: inkwell::values::BasicValueEnum<'ctx>,
    name: &str,
) -> (value: Option<inkwell::values::BasicValueEnum<'ctx>>) {
    match (left, right) {
        (
            inkwell::values::BasicValueEnum::FloatValue(l),
            inkwell::values::BasicValueEnum::FloatValue(r),
        ) => assembly.builder.build_float_rem(l, r, name).ok().map(|v| v.into()),
        _ => None,
    }
}

/// `Builder::build_signed_int_to_float` to the 64-bit float type.
#[verifier::external_body]
pub(crate) fn build_int_to_float<'ctx>(
    context: &'ctx inkwell::context::Context,
    assembly: &mut Assembly<'ctx>,
    value: inkwell::values::BasicValueEnum<'ctx>,
    name: &str,
) -> (float: Option<inkwell::values::BasicValueEnum<'ctx>>) {
    match value {
        inkwell::values::BasicValueEnum::IntValue(v) => assembly.builder.build_signed_int_to_float(
            v,
            context.f64_type(),
            name,
        ).ok().map(|f| f.into()),
        _ => None,
    }
}

/// `Builder::build_int_compare` with the predicate `EQ`.
#[verifier::external_body]
pub(crate) fn build_int_equal<'ctx>(
    assembly: &mut Assembly<'ctx>,
    left: inkwell::values::BasicValueEnum<'ctx>,
    right: inkwell::values::BasicValueEnum<'ctx>,
    name: &str,
) -> (value: Option<inkwell::values::BasicValueEnum<'ctx>>) {
    match (left, right) {
        (
            inkwell::values::BasicValueEnum::IntValue(l),
            inkwell::values::BasicValueEnum::IntValue(r),
        ) => assembly.builder.build_int_compare(inkwell::IntPredicate::EQ, l, r, name).ok().map(
            |v| v.into(),
        ),
        _ => None,
    }
}

/// `Builder::build_int_compare` with the predicate `SGT`.
#[verifier::external_body]
pub(crate) fn build_int_greater<'ctx>(
    assembly: &mut Assembly<'ctx>,
    left: inkwell::values::BasicValueEnum<'ctx>,
    right: inkwell::values::BasicValueEnum<'ctx>,
    name: &str,
) -> (value: Option<inkwell::values::BasicValueEnum<'ctx>>) {
    match (left, right) {
        (
            inkwell::values::BasicValueEnum::IntValue(l),
            inkwell::values::BasicValueEnum::IntValue(r),
        ) => assembly.builder.build_int_compare(inkwell::IntPredicate::SGT, l, r, name).ok().map(
            |v| v.into(),
        ),
        _ => None,
    }
}

/// `Builder::build_float_compare` with the predicate `OEQ`.
#[verifier::external_body]
pub(crate) fn build_float_equal<'ctx>(
    assembly: &mut Assembly<'ctx>,
    left: inkwell::values::BasicValueEnum<'ctx>,
    right: inkwell::values::BasicValueEnum<'ctx>,
    name: &str,
) -> (value: Option<inkwell::values::BasicValueEnum<'ctx>>) {
    match (left, right) {
        (
            inkwell::values::BasicValueEnum::FloatValue(l),
            inkwell::values::BasicValueEnum::FloatValue(r),
        ) => assembly.builder.build_float_compare(inkwell::FloatPredicate::OEQ, l, r, name).ok().map(
            |v| v.into(),
        ),
        _ => None,
    }
}

/// `Builder::build_float_compare` with the predicate `OLT`.
#[verifier::external_body]
pub(crate) fn build_float_less<'ctx>(
    assembly: &mut Assembly<'ctx>,
    left: inkwell::values::BasicValueEnum<'ctx>,
    right: inkwell::values::BasicValueEnum<'ctx>,
    name: &str,
) -> (value: Option<inkwell::values::BasicValueEnum<'ctx>>) {
    match (left, right) {
        (
            inkwell::values::BasicValueEnum::FloatValue(l),
            inkwell::values::BasicValueEnum::FloatValue(r),
        ) => assembly.builder.build_float_compare(inkwell::FloatPredicate::OLT, l, r, name).ok().map(
            |v| v.into(),
        ),
        _ => None,
    }
}

/// `Builder::build_select`: one of two values, by a bit.
#[verifier::external_body]
pub(crate) fn build_select<'ctx>(
    assembly: &mut Assembly<'ctx>,
    condition: inkwell::values::BasicValueEnum<'ctx>,
    then_value: inkwell::values::BasicValueEnum<'ctx>,
    else_value: inkwell::values::BasicValueEnum<'ctx>,
    name: &str,
) -> (value: Option<inkwell::values::BasicValueEnum<'ctx>>) {
    match condition {
        inkwell::values::BasicValueEnum::IntValue(bit) => assembly.builder.build_select(
            bit,
            then_value,
            else_value,
            name,
        ).ok(),
        _ => None,
    }
}

/// `Builder::build_call`, and `CallSiteValue::try_as_basic_value` for what
/// the call gives. Nothing where the builder refuses or the call gives no
/// value.
#[verifier::external_body]
pub(crate) fn build_call<'ctx>(
    assembly: &mut Assembly<'ctx>,
    function: inkwell::values::FunctionValue<'ctx>,
    arguments: &Vec<inkwell::values::BasicValueEnum<'ctx>>,
    name: &str,
) -> (value: Option<inkwell::values::BasicValueEnum<'ctx>>) {
    let values: Vec<inkwell::values::BasicMetadataValueEnum<'ctx>> = arguments.iter().map(
        |value| (*value).into(),
    ).collect();
    assembly.builder.build_call(function, &values, name).ok().and_then(
        |call| call.try_as_basic_value().basic(),
    )
}

/// `Builder::build_return` with a value.
#[verifier::external_body]
pub(crate) fn build_return<'ctx>(
    assembly: &mut Assembly<'ctx>,
    value: inkwell::values::BasicValueEnum<'ctx>,
) -> (built: bool) {
    assembly.builder.build_return(Some(&value)).is_ok()
}

/// `Builder::build_unconditional_branch`.
#[verifier::external_body]
pub(crate) fn build_branch<'ctx>(
    assembly: &mut Assembly<'ctx>,
    target: inkwell::basic_block::BasicBlock<'ctx>,
) -> (built: bool) {
    assembly.builder.build_unconditional_branch(target).is_ok()
}

/// `Builder::build_conditional_branch`.
#[verifier::external_body]
pub(crate) fn build_conditional_branch<'ctx>(
    assembly: &mut Assembly<'ctx>,
    condition: inkwell::values::BasicValueEnum<'ctx>,
    then_target: inkwell::basic_block::BasicBlock<'ctx>,
    else_target: inkwell::basic_block::BasicBlock<'ctx>,
) -> (built: bool) {
    match condition {
        inkwell::values::BasicValueEnum::IntValue(bit) => assembly.builder.build_conditional_branch(
            bit,
            then_target,
            else_target,
        ).is_ok(),
        _ => false,
    }
}

/// `Module::print_to_string`: the module as LLVM writes it.
#[verifier::external_body]
pub(crate) fn module_text<'ctx>(assembly: &Assembly<'ctx>) -> (text: String)
    ensures
        text@ == printed(*assembly),
{
    assembly.module.print_to_string().to_string()
}

/// The `OptimizationLevel` of LLVM that stands for a level of the library.
#[verifier::external_body]
pub(crate) fn level_of(level: Optimization) -> (converted: inkwell::OptimizationLevel) {
    match level {
        Optimization::O0 => inkwell::OptimizationLevel::None,
        Optimization::O1 => inkwell::OptimizationLevel::Less,
        Optimization::O2 => inkwell::OptimizationLevel::Default,
        Optimization::O3 => inkwell::OptimizationLevel::Aggressive,
    }
}

/// `Target::initialize_all`, then `TargetMachine::get_default_triple`,
/// `Target::from_triple` and `Target::create_target_machine` for the
/// processor `cpu` of the machine that this runs on, with the features
/// `features` and the default relocation and code models: the message of
/// LLVM where it has no target for the machine, and nothing where it makes
/// no description of it. Which machine that is, and whether LLVM has a
/// target for it, is not known beforehand.
#[verifier::external_body]
pub(crate) fn host_machine(level: inkwell::OptimizationLevel, cpu: &str, features: &str) -> (machine:
    Result<Option<inkwell::targets::TargetMachine>, String>) {
    inkwell::targets::Target::initialize_all(&inkwell::targets::InitializationConfig::default());
    let triple = inkwell::targets::TargetMachine::get_default_triple();
    inkwell::targets::Target::from_triple(&triple).map_err(|message| message.to_string()).map(
        |target|
            target.create_target_machine(
                &triple,
                cpu,
                features,
                level,
                inkwell::targets::RelocMode::Default,
                inkwell::targets::CodeModel::Default,
            ),
    )
}

/// `TargetMachine::write_to_memory_buffer` for an object file, and
/// `MemoryBuffer::as_slice` for its bytes; the message of LLVM where it
/// fails. LLVM may rewrite the module while it makes the code.
#[verifier::external_body]
pub(crate) fn object_bytes<'ctx>(
    machine: &inkwell::targets::TargetMachine,
    assembly: &mut Assembly<'ctx>,
) -> (bytes: Result<Vec<u8>, String>) {
    machine.write_to_memory_buffer(&assembly.module, inkwell::targets::FileType::Object).map(
        |buffer| buffer.as_slice().to_vec(),
    ).map_err(|message| message.to_string())
}

} // verus!
