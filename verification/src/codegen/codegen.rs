//! The code generator: a program is lowered into the intermediate
//! representation, and the result is built into an LLVM module.

use crate::ast::node::{Node, NodeView};
use crate::codegen::ir::{
    BlockLabel, Callee, External, FloatOperation, Instruction, IntOperation, Operand, Target,
    ValueKind,
};
use crate::codegen::llvm::{
    add_function, append_block, build_alloca, build_branch, build_call, build_cast,
    build_conditional_branch, build_float_add, build_float_div, build_float_equal,
    build_float_less, build_float_mul, build_float_rem, build_float_sub, build_int_add, build_int_div,
    build_int_equal, build_int_greater, build_int_mul, build_int_rem, build_int_sub,
    build_int_to_float, build_load, build_return, build_select, build_store, bytes_type,
    const_float,
    const_int32, const_int64, create_builder, create_module, float64_type, global_string,
    host_machine, int32_type, int64_type, level_of, module_text, object_bytes, parameter,
    position_at_end, printed, text_type, Assembly,
};
use crate::codegen::calls::{calls_fed, fed_at, pending};
use crate::codegen::ir::blocks_closed;
use crate::codegen::laws::well_formed;
use crate::codegen::lowering::{Body, Lowering, Signature};
use crate::codegen::scope::{in_scope, known, scoped};
use crate::codegen::targets::{branches_resolved, labels, resolved_at, target_exists};
use crate::codegen::types::{
    body_typed, both, entry_of, fits_slot, gives, has_sort, sort_of_kind, typed, Sort,
};
use crate::codegen::rules::{constant_name, lower_program, message, State};
use crate::lexer::text::decimal_text;
use vstd::prelude::*;
use vstd::string::StringExecFns;

verus! {

/// The text that `compile` fails with where LLVM refuses what it is asked
/// to build.
pub open spec fn refused() -> Seq<char> {
    "LLVM refused the module"@
}

/// The view of object code or of the text of a failure.
pub open spec fn object_view(result: Result<Vec<u8>, String>) -> Result<Seq<u8>, Seq<char>> {
    match result {
        Ok(bytes) => Ok(bytes@),
        Err(text) => Err(text@),
    }
}

/// How far LLVM optimizes the object code: the levels 0 to 3.
#[derive(Debug, Clone, Copy, PartialEq, Eq, Structural)]
pub enum Optimization {
    O0,
    O1,
    O2,
    O3,
}

/// The level that a number stands for, where it stands for one.
pub open spec fn optimization_of(level: u8) -> Option<Optimization> {
    if level == 0 {
        Some(Optimization::O0)
    } else if level == 1 {
        Some(Optimization::O1)
    } else if level == 2 {
        Some(Optimization::O2)
    } else if level == 3 {
        Some(Optimization::O3)
    } else {
        None
    }
}

/// The level that a number stands for, where it stands for one.
pub fn optimization(level: u8) -> (found: Option<Optimization>)
    ensures
        found == optimization_of(level),
{
    if level == 0 {
        Some(Optimization::O0)
    } else if level == 1 {
        Some(Optimization::O1)
    } else if level == 2 {
        Some(Optimization::O2)
    } else if level == 3 {
        Some(Optimization::O3)
    } else {
        None
    }
}

/// What LLVM is asked to make object code for.
pub struct Machine {
    pub level: Optimization,
    /// The name of the processor.
    pub processor: String,
    /// The features of the processor that are switched on or off.
    pub features: String,
}

/// The mathematical value of a [`Machine`].
pub struct MachineView {
    pub level: Optimization,
    pub processor: Seq<char>,
    pub features: Seq<char>,
}

impl View for Machine {
    type V = MachineView;

    open spec fn view(&self) -> MachineView {
        MachineView { level: self.level, processor: self.processor@, features: self.features@ }
    }
}

/// Object code is made for the generic processor of the machine that the
/// compiler runs on, with no feature switched, at the level that the number
/// stands for.
pub open spec fn machine_of(level: u8) -> Option<MachineView> {
    match optimization_of(level) {
        Some(found) => Some(
            MachineView { level: found, processor: "generic"@, features: Seq::empty() },
        ),
        None => None,
    }
}

/// What LLVM is asked to make object code for at a level; nothing where the
/// number stands for no level.
pub fn machine(level: u8) -> (found: Option<Machine>)
    ensures
        match found {
            Some(machine) => machine_of(level) == Some(machine@),
            None => machine_of(level) is None,
        },
{
    match optimization(level) {
        Some(found) => {
            let features = String::new();
            assert(features@ =~= Seq::empty());
            Some(Machine { level: found, processor: "generic".to_owned(), features })
        },
        None => None,
    }
}

/// The text that `object_code` fails with where the number stands for no
/// level.
pub open spec fn invalid_level() -> Seq<char> {
    "Invalid optimization level"@
}

/// The failure of `object_code` that is known before LLVM is asked: the
/// number stands for no level, or the generator keeps no program.
pub open spec fn object_refused(lowered: Option<State>, level: u8) -> Option<Seq<char>> {
    if machine_of(level) is None {
        Some(invalid_level())
    } else if lowered is None {
        Some(nothing_compiled())
    } else {
        None
    }
}

/// What a generator keeps after it has compiled a program: the unit that
/// the program lowers to, where LLVM has `built` it, and nothing after a
/// failure.
pub open spec fn kept(program: NodeView, built: bool) -> Option<State> {
    match lower_program(program) {
        Ok(state) => if built {
            Some(state)
        } else {
            None
        },
        Err(_) => None,
    }
}

/// The text that `object_code` fails with where no program has been
/// compiled into the module.
pub open spec fn nothing_compiled() -> Seq<char> {
    "No program has been compiled"@
}

/// What LLVM gave when it was asked for an object file.
pub enum Emitted {
    /// LLVM has no target for this machine, and says why.
    NoTarget(String),
    /// LLVM made no description of this machine.
    NoMachine,
    /// LLVM failed to write the object code, and says why.
    Failed(String),
    Object(Vec<u8>),
}

/// The mathematical value of an [`Emitted`].
pub enum EmittedView {
    NoTarget(Seq<char>),
    NoMachine,
    Failed(Seq<char>),
    Object(Seq<u8>),
}

impl View for Emitted {
    type V = EmittedView;

    open spec fn view(&self) -> EmittedView {
        match self {
            Emitted::NoTarget(text) => EmittedView::NoTarget(text@),
            Emitted::NoMachine => EmittedView::NoMachine,
            Emitted::Failed(text) => EmittedView::Failed(text@),
            Emitted::Object(bytes) => EmittedView::Object(bytes@),
        }
    }
}

/// What comes of what LLVM gave for an object file: its bytes, or the text
/// of a failure.
pub open spec fn object_outcome(made: EmittedView) -> Result<Seq<u8>, Seq<char>> {
    match made {
        EmittedView::NoTarget(text) => Err("Failed to get target: "@ + text),
        EmittedView::NoMachine => Err("Failed to create target machine"@),
        EmittedView::Failed(text) => Err("Failed to generate object code: "@ + text),
        EmittedView::Object(bytes) => Ok(bytes),
    }
}

/// The object code, or the text of the failure, for what LLVM gave.
pub fn object_result(made: Emitted) -> (result: Result<Vec<u8>, String>)
    ensures
        object_view(result) == object_outcome(made@),
{
    match made {
        Emitted::NoTarget(text) => {
            let mut failure = "Failed to get target: ".to_owned();
            failure.append(text.as_str());
            Err(failure)
        },
        Emitted::NoMachine => Err("Failed to create target machine".to_owned()),
        Emitted::Failed(text) => {
            let mut failure = "Failed to generate object code: ".to_owned();
            failure.append(text.as_str());
            Err(failure)
        },
        Emitted::Object(bytes) => Ok(bytes),
    }
}

/// The name that the C library gives to a function.
spec fn symbol(external: External) -> Seq<char> {
    match external {
        External::Printf => "printf"@,
        External::Snprintf => "snprintf"@,
        External::Memset => "memset"@,
        External::Strlen => "strlen"@,
        External::Malloc => "malloc"@,
        External::Strcpy => "strcpy"@,
        External::Strcat => "strcat"@,
        External::Floor => "floor"@,
        External::Pow => "pow"@,
    }
}

/// The name of a C library function.
fn external_name(external: External) -> (name: &'static str)
    ensures
        name@ == symbol(external),
{
    match external {
        External::Printf => "printf",
        External::Snprintf => "snprintf",
        External::Memset => "memset",
        External::Strlen => "strlen",
        External::Malloc => "malloc",
        External::Strcpy => "strcpy",
        External::Strcat => "strcat",
        External::Floor => "floor",
        External::Pow => "pow",
    }
}

/// The name of the string constant with index `index`.
fn name_of_constant(index: usize) -> (name: String)
    ensures
        name@ == constant_name(index as nat),
{
    let mut name = "str_".to_owned();
    name.append(decimal_text(index).as_str());
    name
}

/// The name under which a block with this label stands in the module.
spec fn block_name(label: BlockLabel) -> Seq<char> {
    match label {
        BlockLabel::Entry => "entry"@,
        BlockLabel::AfterReturn => "after_return"@,
        BlockLabel::PrintZero => "print_zero"@,
        BlockLabel::PrintFloat => "print_float"@,
        BlockLabel::PrintDone => "print_done"@,
        BlockLabel::PowerCheck => "power_check"@,
        BlockLabel::PowerStep => "power_step"@,
        BlockLabel::PowerDone => "power_done"@,
    }
}

/// The name of a basic block.
fn label_name(label: BlockLabel) -> (name: &'static str)
    ensures
        name@ == block_name(label),
{
    match label {
        BlockLabel::Entry => "entry",
        BlockLabel::AfterReturn => "after_return",
        BlockLabel::PrintZero => "print_zero",
        BlockLabel::PrintFloat => "print_float",
        BlockLabel::PrintDone => "print_done",
        BlockLabel::PowerCheck => "power_check",
        BlockLabel::PowerStep => "power_step",
        BlockLabel::PowerDone => "power_done",
    }
}

/// What an instruction that gives a value comes to: the value that LLVM
/// built for it, or LLVM's refusal.
fn produced<'ctx>(value: Option<inkwell::values::BasicValueEnum<'ctx>>) -> (given: Result<
    Option<inkwell::values::BasicValueEnum<'ctx>>,
    Outcome,
>)
    ensures
        given == match value {
            Some(built) => Ok::<Option<inkwell::values::BasicValueEnum<'ctx>>, Outcome>(
                Some(built),
            ),
            None => Err(Outcome::Refused),
        },
{
    match value {
        Some(built) => Ok(Some(built)),
        None => Err(Outcome::Refused),
    }
}

/// What an instruction that gives no value comes to, by whether LLVM built
/// it.
fn finished<'ctx>(done: bool) -> (given: Result<
    Option<inkwell::values::BasicValueEnum<'ctx>>,
    Outcome,
>)
    ensures
        given == if done {
            Ok::<Option<inkwell::values::BasicValueEnum<'ctx>>, Outcome>(None)
        } else {
            Err(Outcome::Refused)
        },
{
    if done {
        Ok(None)
    } else {
        Err(Outcome::Refused)
    }
}

/// The declaration that C gives to a library function.
struct Prototype {
    result: Sort,
    /// The parameters that every call hands over.
    parameters: Vec<Sort>,
    /// Whether a call may hand over more than those.
    variadic: bool,
}

/// The sorts of the parameters that C declares for a library function.
spec fn declared_parameters(external: External) -> Seq<Sort> {
    match external {
        External::Printf => seq![Sort::Text],
        External::Snprintf => seq![Sort::Text, Sort::Int64, Sort::Text],
        External::Memset => seq![Sort::Text, Sort::Int32, Sort::Int64],
        External::Strlen => seq![Sort::Text],
        External::Malloc => seq![Sort::Int64],
        External::Strcpy | External::Strcat => seq![Sort::Text, Sort::Text],
        External::Floor => seq![Sort::Float64],
        External::Pow => seq![Sort::Float64, Sort::Float64],
    }
}

/// Whether C lets a call of a library function hand over more arguments
/// than the declared ones.
spec fn takes_more(external: External) -> bool {
    external == External::Printf || external == External::Snprintf
}

/// Whether values of a sort are passed to C functions and returned by them.
spec fn passed_by_value(sort: Sort) -> bool {
    sort == Sort::Int32 || sort == Sort::Int64 || sort == Sort::Float64 || sort == Sort::Text
}

/// The declaration of a library function: the result is of the sort that a
/// call of it gives.
fn prototype(external: External) -> (declared: Prototype)
    ensures
        declared.result == gives(
            Instruction::Call { callee: Callee::External(external), arguments: 0 },
        ),
        passed_by_value(declared.result),
        declared.parameters@ == declared_parameters(external),
        forall|i: int|
            0 <= i < declared.parameters@.len() ==> passed_by_value(
                #[trigger] declared.parameters@[i],
            ),
        declared.variadic == takes_more(external),
{
    let mut parameters = Vec::new();
    let result = match external {
        External::Printf => {
            parameters.push(Sort::Text);
            Sort::Int32
        },
        External::Snprintf => {
            parameters.push(Sort::Text);
            parameters.push(Sort::Int64);
            parameters.push(Sort::Text);
            Sort::Int32
        },
        External::Memset => {
            parameters.push(Sort::Text);
            parameters.push(Sort::Int32);
            parameters.push(Sort::Int64);
            Sort::Text
        },
        External::Strlen => {
            parameters.push(Sort::Text);
            Sort::Int64
        },
        External::Malloc => {
            parameters.push(Sort::Int64);
            Sort::Text
        },
        External::Strcpy | External::Strcat => {
            parameters.push(Sort::Text);
            parameters.push(Sort::Text);
            Sort::Text
        },
        External::Floor => {
            parameters.push(Sort::Float64);
            Sort::Float64
        },
        External::Pow => {
            parameters.push(Sort::Float64);
            parameters.push(Sort::Float64);
            Sort::Float64
        },
    };
    let variadic = match external {
        External::Printf | External::Snprintf => true,
        _ => false,
    };
    assert(parameters@ =~= declared_parameters(external));
    Prototype { result, parameters, variadic }
}

/// What the replay of one function body knows: the function, its blocks,
/// what each instruction so far gave, and the arguments handed over for the
/// next call.
struct Frame<'ctx> {
    function: inkwell::values::FunctionValue<'ctx>,
    blocks: Vec<inkwell::basic_block::BasicBlock<'ctx>>,
    values: Vec<Option<inkwell::values::BasicValueEnum<'ctx>>>,
    pending: Vec<inkwell::values::BasicValueEnum<'ctx>>,
    /// The number of labels passed so far.
    passed: usize,
}

/// The handles of what a unit declares.
struct Handles<'ctx> {
    functions: Vec<inkwell::values::FunctionValue<'ctx>>,
    externals: Vec<inkwell::values::FunctionValue<'ctx>>,
    strings: Vec<inkwell::values::BasicValueEnum<'ctx>>,
    floats: Vec<inkwell::values::BasicValueEnum<'ctx>>,
}

/// Compiles programs into one LLVM module.
pub struct CodeGenerator<'ctx> {
    context: &'ctx inkwell::context::Context,
    assembly: Assembly<'ctx>,
    unit: Option<Lowering>,
}

impl<'ctx> CodeGenerator<'ctx> {
    /// What the last successful `compile` lowered its program to.
    pub closed spec fn lowered(&self) -> Option<State> {
        match self.unit {
            Some(unit) => Some(unit@),
            None => None,
        }
    }

    /// A generator with an empty module called `module_name`.
    pub fn new(context: &'ctx inkwell::context::Context, module_name: &str) -> (generator: Self)
        ensures
            generator.lowered() is None,
    {
        let module = create_module(context, module_name);
        let builder = create_builder(context);
        CodeGenerator { context, assembly: Assembly { module, builder }, unit: None }
    }

    /// The unit that the last successful `compile` made.
    pub fn unit(&self) -> (unit: Option<&Lowering>)
        ensures
            match unit {
                Some(found) => self.lowered() == Some(found@),
                None => self.lowered() is None,
            },
    {
        self.unit.as_ref()
    }

    /// The text that LLVM prints for the module as it stands.
    pub closed spec fn module_ir(&self) -> Seq<char> {
        printed(self.assembly)
    }

    /// Compiles a program: lowers it, and has LLVM build what the lowering
    /// gave. Where the lowering fails, its error comes back and the module
    /// stays as it was. Where LLVM refuses, that is said instead, and the
    /// module may hold a part of the program. After any failure the
    /// generator keeps no program.
    pub fn compile(&mut self, program: &Node) -> (result: Result<(), String>)
        ensures
            final(self).lowered() == kept(program@, result is Ok),
            match lower_program(program@) {
                Err(error) => result matches Err(text) && text@ == message(error)
                    && final(self).module_ir() == old(self).module_ir(),
                Ok(state) => match result {
                    Ok(_) => well_formed(state),
                    Err(text) => text@ == refused(),
                },
            },
    {
        match Lowering::lower(program) {
            Err(error) => {
                self.unit = None;
                Err(error.message())
            },
            Ok(unit) => {
                let built = match self.build_unit(&unit) {
                    Outcome::Built => true,
                    _ => false,
                };
                self.conclude(unit, built)
            },
        }
    }

    /// Ends a compilation of which the lowering gave `unit`: where LLVM has
    /// built the unit it is kept, and where LLVM has refused, that is said
    /// and no unit is kept.
    pub fn conclude(&mut self, unit: Lowering, built: bool) -> (result: Result<(), String>)
        ensures
            built ==> result is Ok && final(self).lowered() == Some(unit@),
            !built ==> (result matches Err(text) && text@ == refused()) && final(self).lowered()
                is None,
    {
        if built {
            self.unit = Some(unit);
            Ok(())
        } else {
            self.unit = None;
            Err("LLVM refused the module".to_owned())
        }
    }

    /// The module as LLVM writes it.
    pub fn ir_text(&self) -> (text: String)
        ensures
            text@ == self.module_ir(),
    {
        module_text(&self.assembly)
    }

    /// The object code of the module for the generic processor of this
    /// machine, at an optimization level from 0 to 3. There is none where no
    /// program is kept: a compilation that failed leaves no object code
    /// behind. LLVM may rewrite the module while it makes the code.
    pub fn object_code(&mut self, optimization: u8) -> (result: Result<Vec<u8>, String>)
        ensures
            final(self).lowered() == old(self).lowered(),
            match object_refused(old(self).lowered(), optimization) {
                Some(failure) => result matches Err(text) && text@ == failure
                    && final(self).module_ir() == old(self).module_ir(),
                None => exists|made: EmittedView| object_view(result) == object_outcome(made),
            },
    {
        let machine = match machine(optimization) {
            Some(machine) => machine,
            None => {
                return Err("Invalid optimization level".to_owned());
            },
        };
        if self.unit.is_none() {
            return Err("No program has been compiled".to_owned());
        }
        let made = match host_machine(
            level_of(machine.level),
            machine.processor.as_str(),
            machine.features.as_str(),
        ) {
            Err(text) => Emitted::NoTarget(text),
            Ok(None) => Emitted::NoMachine,
            Ok(Some(target)) => match object_bytes(&target, &mut self.assembly) {
                Ok(bytes) => Emitted::Object(bytes),
                Err(text) => Emitted::Failed(text),
            },
        };
        let ghost given = made@;
        let result = object_result(made);
        assert(object_view(result) == object_outcome(given));
        result
    }

    /// Declares the functions of a unit.
    fn declare_functions(&mut self, signatures: &Vec<Signature>) -> (functions: Vec<
        inkwell::values::FunctionValue<'ctx>,
    >)
        ensures
            functions@.len() == signatures@.len(),
    {
        let mut functions = Vec::new();
        let mut i: usize = 0;
        while i < signatures.len()
            invariant
                i <= signatures@.len(),
                functions@.len() == i,
            decreases signatures@.len() - i,
        {
            let signature = &signatures[i];
            let function = if signature.entry {
                add_function(
                    &mut self.assembly,
                    signature.name.as_str(),
                    int32_type(self.context),
                    &Vec::new(),
                    false,
                )
            } else {
                let mut parameters = Vec::new();
                let mut k: usize = 0;
                while k < signature.parameters
                    invariant
                        k <= signature.parameters,
                    decreases signature.parameters - k,
                {
                    parameters.push(int64_type(self.context));
                    k += 1;
                }
                add_function(
                    &mut self.assembly,
                    signature.name.as_str(),
                    int64_type(self.context),
                    &parameters,
                    false,
                )
            };
            functions.push(function);
            i += 1;
        }
        functions
    }

    /// The LLVM type of the values of a sort.
    fn type_of(&self, sort: &Sort) -> (ty: inkwell::types::BasicTypeEnum<'ctx>)
        requires
            passed_by_value(*sort),
    {
        match sort {
            Sort::Int32 => int32_type(self.context),
            Sort::Float64 => float64_type(self.context),
            Sort::Text => text_type(self.context),
            _ => int64_type(self.context),
        }
    }

    /// Declares one C library function with the signature that C gives it.
    fn declare_external(&mut self, external: External) -> (function: inkwell::values::FunctionValue<
        'ctx,
    >) {
        let declared = prototype(external);
        let mut parameters = Vec::new();
        let mut i: usize = 0;
        while i < declared.parameters.len()
            invariant
                i <= declared.parameters@.len(),
                forall|k: int|
                    0 <= k < declared.parameters@.len() ==> passed_by_value(
                        #[trigger] declared.parameters@[k],
                    ),
            decreases declared.parameters@.len() - i,
        {
            parameters.push(self.type_of(&declared.parameters[i]));
            i += 1;
        }
        let result = self.type_of(&declared.result);
        add_function(
            &mut self.assembly,
            external_name(external),
            result,
            &parameters,
            declared.variadic,
        )
    }

    /// Builds a whole unit into the module. A unit that is well formed is
    /// built or refused by LLVM; it never asks for what it does not hold.
    fn build_unit(&mut self, unit: &Lowering) -> (outcome: Outcome)
        requires
            well_formed(unit@),
        ensures
            outcome != Outcome::Malformed,
    {
        let functions = self.declare_functions(unit.signatures());
        let mut externals = Vec::new();
        let declared = unit.externals();
        let mut i: usize = 0;
        while i < declared.len()
            invariant
                i <= declared@.len(),
                externals@.len() == i,
            decreases declared@.len() - i,
        {
            externals.push(self.declare_external(declared[i]));
            i += 1;
        }
        let mut floats = Vec::new();
        let texts = unit.floats();
        let mut j: usize = 0;
        while j < texts.len()
            invariant
                j <= texts@.len(),
                floats@.len() == j,
            decreases texts@.len() - j,
        {
            floats.push(const_float(self.context, texts[j].as_str()));
            j += 1;
        }
        let mut handles = Handles { functions, externals, strings: Vec::new(), floats };
        let bodies = unit.bodies();
        let mut b: usize = 0;
        while b < bodies.len()
            invariant
                b <= bodies@.len(),
                bodies@.map_values(|body: Body| body@) == unit@.bodies,
                well_formed(unit@),
                handles.of(unit@, b > 0),
            decreases bodies@.len() - b,
        {
            assert(bodies@[b as int]@ == unit@.bodies[b as int]);
            match self.build_body(unit, &bodies[b], &mut handles) {
                Outcome::Built => {},
                other => {
                    return other;
                },
            }
            b += 1;
        }
        Outcome::Built
    }

    /// Makes the string constants that have no handle yet. The builder must
    /// stand in a block.
    fn build_strings(&mut self, unit: &Lowering, handles: &mut Handles<'ctx>) -> (built: bool)
        requires
            old(handles).of(unit@, false),
        ensures
            final(handles).of(unit@, false),
            final(handles).keeps(old(handles)),
            built == (final(handles).strings@.len() == unit@.strings.len()),
    {
        let strings = unit.strings();
        while handles.strings.len() < strings.len()
            invariant
                handles.of(unit@, false),
                handles.keeps(old(handles)),
                strings@.map_values(|s: String| s@) == unit@.strings,
            decreases strings@.len() - handles.strings@.len(),
        {
            let index = handles.strings.len();
            let name = name_of_constant(index);
            match global_string(&mut self.assembly, strings[index].as_str(), name.as_str()) {
                Some(pointer) => {
                    handles.strings.push(pointer);
                },
                None => {
                    return false;
                },
            }
        }
        handles.strings.len() == strings.len()
    }

    /// Builds one function body.
    fn build_body(&mut self, unit: &Lowering, body: &Body, handles: &mut Handles<'ctx>) -> (outcome:
        Outcome)
        requires
            old(handles).of(unit@, false),
            body.function < unit@.signatures.len(),
            blocks_closed(body.instructions@),
            scoped(unit@, body.function as nat, body.instructions@),
            body_typed(entry_of(unit@, body.function as nat), body.instructions@),
            branches_resolved(body.instructions@),
            calls_fed(body.instructions@),
        ensures
            outcome != Outcome::Malformed,
            outcome == Outcome::Built ==> final(handles).of(unit@, true),
            final(handles).of(unit@, false),
            final(handles).keeps(old(handles)),
    {
        let ghost all = body.instructions@;
        if body.function >= handles.functions.len() {
            return Outcome::Malformed;
        }
        let function = handles.functions[body.function];
        let mut blocks = Vec::new();
        let mut i: usize = 0;
        assert(all.subrange(0, 0) =~= Seq::<Instruction>::empty());
        while i < body.instructions.len()
            invariant
                i <= all.len(),
                all == body.instructions@,
                blocks@.len() == labels(all.subrange(0, i as int)),
            decreases all.len() - i,
        {
            proof {
                lemma_labels_step(all, i as int);
            }
            match body.instructions[i] {
                Instruction::Label { label } => {
                    blocks.push(append_block(&mut self.assembly, function, label_name(label)));
                },
                _ => {},
            }
            i += 1;
        }
        assert(all.subrange(0, all.len() as int) =~= all);
        let mut frame = Frame {
            function,
            blocks,
            values: Vec::new(),
            pending: Vec::new(),
            passed: 0,
        };
        let mut k: usize = 0;
        assert(frame.at(all, 0)) by {
            reveal_with_fuel(labels, 1);
            reveal_with_fuel(pending, 1);
        }
        while k < body.instructions.len()
            invariant
                k <= all.len(),
                all == body.instructions@,
                frame.at(all, k as nat),
                handles.of(unit@, false),
                handles.of(unit@, k > 0),
                handles.keeps(old(handles)),
                blocks_closed(all),
                scoped(unit@, body.function as nat, all),
                body_typed(entry_of(unit@, body.function as nat), all),
                branches_resolved(all),
                calls_fed(all),
            decreases all.len() - k,
        {
            assert(in_scope(unit@, body.function as nat, all[k as int], k as int));
            assert(typed(entry_of(unit@, body.function as nat), all, all[k as int]));
            assert(resolved_at(all, k as int, labels(all)));
            assert(fed_at(all, k as int));
            match self.build_instruction(unit, body, k, &mut frame, handles) {
                Outcome::Built => {},
                other => {
                    return other;
                },
            }
            k += 1;
        }
        Outcome::Built
    }

    /// The handle of an operand. A handle is missing only where the unit
    /// does not hold what the operand names.
    fn operand(&self, operand: Operand, frame: &Frame<'ctx>, handles: &Handles<'ctx>) -> (found:
        Result<inkwell::values::BasicValueEnum<'ctx>, Outcome>)
        ensures
            finds(operand, frame, handles, found),
    {
        match operand {
            Operand::Integer(v) => Ok(const_int64(self.context, v)),
            Operand::Int32(v) => Ok(const_int32(self.context, v)),
            Operand::Float(index) => if index < handles.floats.len() {
                Ok(handles.floats[index])
            } else {
                Err(Outcome::Malformed)
            },
            Operand::Text(index) => if index < handles.strings.len() {
                Ok(handles.strings[index])
            } else {
                Err(Outcome::Malformed)
            },
            Operand::Parameter(index) => if index < 0xffff_ffff {
                match parameter(frame.function, index as u32) {
                    Some(value) => Ok(value),
                    None => Err(Outcome::Refused),
                }
            } else {
                Err(Outcome::Refused)
            },
            Operand::Result(index) => if index < frame.values.len() {
                match frame.values[index] {
                    Some(value) => Ok(value),
                    None => Err(Outcome::Malformed),
                }
            } else {
                Err(Outcome::Malformed)
            },
        }
    }

    /// The block that a branch from the current block goes to.
    fn target(&self, target: Target, frame: &Frame<'ctx>) -> (block: Result<
        inkwell::basic_block::BasicBlock<'ctx>,
        Outcome,
    >)
        ensures
            block == match block_index(frame.passed as nat, frame.blocks@.len(), target) {
                Some(index) => Ok(frame.blocks@[index]),
                None => Err(Outcome::Malformed),
            },
    {
        if frame.passed == 0 || frame.passed > frame.blocks.len() {
            return Err(Outcome::Malformed);
        }
        let current = frame.passed - 1;
        match target {
            Target::Ahead(ahead) => if ahead < frame.blocks.len() && current < frame.blocks.len()
                - ahead {
                Ok(frame.blocks[current + ahead])
            } else {
                Err(Outcome::Malformed)
            },
            Target::Back(back) => if back <= current {
                Ok(frame.blocks[current - back])
            } else {
                Err(Outcome::Malformed)
            },
        }
    }

    /// The handle of a C library function that the unit declares.
    fn external(&self, unit: &Lowering, external: External, handles: &Handles<'ctx>) -> (function:
        Option<inkwell::values::FunctionValue<'ctx>>)
        requires
            handles.of(unit@, false),
        ensures
            function == match first_index(unit@.externals, external) {
                Some(index) => Some(handles.externals@[index]),
                None => None,
            },
    {
        let declared = unit.externals();
        let mut i: usize = 0;
        while i < declared.len()
            invariant
                i <= declared@.len(),
                declared@ == unit@.externals,
                handles.of(unit@, false),
                forall|k: int| 0 <= k < i ==> declared@[k] != external,
            decreases declared@.len() - i,
        {
            if declared[i] == external {
                proof {
                    lemma_first_index(declared@, external, i as int);
                }
                return Some(handles.externals[i]);
            }
            i += 1;
        }
        proof {
            lemma_first_index(declared@, external, declared@.len() as int);
        }
        None
    }

    /// Builds an instruction that moves a value to or from the stack.
    fn build_memory(&mut self, instruction: Instruction, frame: &Frame<'ctx>, handles: &Handles<'ctx>) -> (given:
        Result<Option<inkwell::values::BasicValueEnum<'ctx>>, Outcome>)
        requires
            operands_ready(instruction, frame, handles),
            instruction is Alloca || instruction is Buffer || instruction is Store
                || instruction is Load,
        ensures
            match given {
                Ok(value) => (value is Some) == produces(instruction),
                Err(outcome) => outcome == Outcome::Refused,
            },
    {
        match instruction {
            Instruction::Alloca { kind } => {
                let ty = match kind {
                    ValueKind::Float => float64_type(self.context),
                    ValueKind::Pointer => text_type(self.context),
                    ValueKind::Int | ValueKind::Bool | ValueKind::NoneValue => int64_type(
                        self.context,
                    ),
                };
                produced(build_alloca(&mut self.assembly, ty, "slot"))
            },
            Instruction::Buffer { size } => {
                let bytes = match build_alloca(&mut self.assembly, bytes_type(self.context, size), "bytes") {
                    Some(bytes) => bytes,
                    None => {
                        return Err(Outcome::Refused);
                    },
                };
                produced(build_cast(&mut self.assembly, bytes, text_type(self.context), "buffer"))
            },
            Instruction::Store { slot, value } => {
                let slot = match self.operand(slot, frame, handles) {
                    Ok(found) => found,
                    Err(outcome) => {
                        return Err(outcome);
                    },
                };
                let value = match self.operand(value, frame, handles) {
                    Ok(found) => found,
                    Err(outcome) => {
                        return Err(outcome);
                    },
                };
                finished(build_store(&mut self.assembly, slot, value))
            },
            Instruction::Load { slot, kind } => {
                let slot = match self.operand(slot, frame, handles) {
                    Ok(found) => found,
                    Err(outcome) => {
                        return Err(outcome);
                    },
                };
                produced(build_load(&mut self.assembly, slot, "load"))
            },
            _ => Err(Outcome::Refused),
        }
    }

    /// Builds an instruction that computes a number.
    fn build_arithmetic(&mut self, instruction: Instruction, frame: &Frame<'ctx>, handles: &Handles<'ctx>) -> (given:
        Result<Option<inkwell::values::BasicValueEnum<'ctx>>, Outcome>)
        requires
            operands_ready(instruction, frame, handles),
            instruction is IntBinary || instruction is FloatBinary || instruction is IntToFloat,
        ensures
            match given {
                Ok(value) => (value is Some) == produces(instruction),
                Err(outcome) => outcome == Outcome::Refused,
            },
    {
        match instruction {
            Instruction::IntBinary { operation, left, right } => {
                let l = match self.operand(left, frame, handles) {
                    Ok(found) => found,
                    Err(outcome) => {
                        return Err(outcome);
                    },
                };
                let r = match self.operand(right, frame, handles) {
                    Ok(found) => found,
                    Err(outcome) => {
                        return Err(outcome);
                    },
                };
                let value = match operation {
                    IntOperation::Add => build_int_add(&mut self.assembly, l, r, "add"),
                    IntOperation::Subtract => build_int_sub(&mut self.assembly, l, r, "sub"),
                    IntOperation::Multiply => build_int_mul(&mut self.assembly, l, r, "mul"),
                    IntOperation::Divide => build_int_div(&mut self.assembly, l, r, "div"),
                    IntOperation::Remainder => build_int_rem(&mut self.assembly, l, r, "rem"),
                };
                produced(value)
            },
            Instruction::FloatBinary { operation, left, right } => {
                let l = match self.operand(left, frame, handles) {
                    Ok(found) => found,
                    Err(outcome) => {
                        return Err(outcome);
                    },
                };
                let r = match self.operand(right, frame, handles) {
                    Ok(found) => found,
                    Err(outcome) => {
                        return Err(outcome);
                    },
                };
                let value = match operation {
                    FloatOperation::Add => build_float_add(&mut self.assembly, l, r, "fadd"),
                    FloatOperation::Subtract => build_float_sub(&mut self.assembly, l, r, "fsub"),
                    FloatOperation::Multiply => build_float_mul(&mut self.assembly, l, r, "fmul"),
                    FloatOperation::Divide => build_float_div(&mut self.assembly, l, r, "fdiv"),
                    FloatOperation::Remainder => build_float_rem(&mut self.assembly, l, r, "frem"),
                };
                produced(value)
            },
            Instruction::IntToFloat { value } => {
                let value = match self.operand(value, frame, handles) {
                    Ok(found) => found,
                    Err(outcome) => {
                        return Err(outcome);
                    },
                };
                produced(build_int_to_float(self.context, &mut self.assembly, value, "float"))
            },
            _ => Err(Outcome::Refused),
        }
    }

    /// Builds a comparison or a selection.
    fn build_choice(&mut self, instruction: Instruction, frame: &Frame<'ctx>, handles: &Handles<'ctx>) -> (given:
        Result<Option<inkwell::values::BasicValueEnum<'ctx>>, Outcome>)
        requires
            operands_ready(instruction, frame, handles),
            instruction is IntEqual || instruction is IntGreater || instruction is FloatEqual
                || instruction is FloatLess || instruction is Select,
        ensures
            match given {
                Ok(value) => (value is Some) == produces(instruction),
                Err(outcome) => outcome == Outcome::Refused,
            },
    {
        match instruction {
            Instruction::IntEqual { left, right } => {
                let l = match self.operand(left, frame, handles) {
                    Ok(found) => found,
                    Err(outcome) => {
                        return Err(outcome);
                    },
                };
                let r = match self.operand(right, frame, handles) {
                    Ok(found) => found,
                    Err(outcome) => {
                        return Err(outcome);
                    },
                };
                produced(build_int_equal(&mut self.assembly, l, r, "equal"))
            },
            Instruction::IntGreater { left, right } => {
                let l = match self.operand(left, frame, handles) {
                    Ok(found) => found,
                    Err(outcome) => {
                        return Err(outcome);
                    },
                };
                let r = match self.operand(right, frame, handles) {
                    Ok(found) => found,
                    Err(outcome) => {
                        return Err(outcome);
                    },
                };
                produced(build_int_greater(&mut self.assembly, l, r, "greater"))
            },
            Instruction::FloatEqual { left, right } => {
                let l = match self.operand(left, frame, handles) {
                    Ok(found) => found,
                    Err(outcome) => {
                        return Err(outcome);
                    },
                };
                let r = match self.operand(right, frame, handles) {
                    Ok(found) => found,
                    Err(outcome) => {
                        return Err(outcome);
                    },
                };
                produced(build_float_equal(&mut self.assembly, l, r, "fequal"))
            },
            Instruction::FloatLess { left, right } => {
                let l = match self.operand(left, frame, handles) {
                    Ok(found) => found,
                    Err(outcome) => {
                        return Err(outcome);
                    },
                };
                let r = match self.operand(right, frame, handles) {
                    Ok(found) => found,
                    Err(outcome) => {
                        return Err(outcome);
                    },
                };
                produced(build_float_less(&mut self.assembly, l, r, "fless"))
            },
            Instruction::Select { condition, then_value, else_value, kind } => {
                let bit = match self.operand(condition, frame, handles) {
                    Ok(found) => found,
                    Err(outcome) => {
                        return Err(outcome);
                    },
                };
                let first = match self.operand(then_value, frame, handles) {
                    Ok(found) => found,
                    Err(outcome) => {
                        return Err(outcome);
                    },
                };
                let second = match self.operand(else_value, frame, handles) {
                    Ok(found) => found,
                    Err(outcome) => {
                        return Err(outcome);
                    },
                };
                produced(build_select(&mut self.assembly, bit, first, second, "select"))
            },
            _ => Err(Outcome::Refused),
        }
    }

    /// Builds an instruction that ends a block.
    fn build_terminator(&mut self, instruction: Instruction, frame: &Frame<'ctx>, handles: &Handles<'ctx>) -> (given:
        Result<Option<inkwell::values::BasicValueEnum<'ctx>>, Outcome>)
        requires
            operands_ready(instruction, frame, handles),
            targets_ready(instruction, frame),
            instruction is Return || instruction is Branch || instruction is CondBranch,
        ensures
            match given {
                Ok(value) => (value is Some) == produces(instruction),
                Err(outcome) => outcome == Outcome::Refused,
            },
    {
        match instruction {
            Instruction::Return { value } => {
                let value = match self.operand(value, frame, handles) {
                    Ok(found) => found,
                    Err(outcome) => {
                        return Err(outcome);
                    },
                };
                finished(build_return(&mut self.assembly, value))
            },
            Instruction::Branch { target } => {
                let block = match self.target(target, frame) {
                    Ok(found) => found,
                    Err(outcome) => {
                        return Err(outcome);
                    },
                };
                finished(build_branch(&mut self.assembly, block))
            },
            Instruction::CondBranch { condition, then_target, else_target } => {
                let bit = match self.operand(condition, frame, handles) {
                    Ok(found) => found,
                    Err(outcome) => {
                        return Err(outcome);
                    },
                };
                let then_block = match self.target(then_target, frame) {
                    Ok(found) => found,
                    Err(outcome) => {
                        return Err(outcome);
                    },
                };
                let else_block = match self.target(else_target, frame) {
                    Ok(found) => found,
                    Err(outcome) => {
                        return Err(outcome);
                    },
                };
                finished(build_conditional_branch(&mut self.assembly, bit, then_block, else_block))
            },
            _ => Err(Outcome::Refused),
        }
    }

    /// Builds one instruction and records what it gave.
    fn build_instruction(
        &mut self,
        unit: &Lowering,
        body: &Body,
        k: usize,
        frame: &mut Frame<'ctx>,
        handles: &mut Handles<'ctx>,
    ) -> (outcome: Outcome)
        requires
            k < body.instructions@.len(),
            old(frame).at(body.instructions@, k as nat),
            old(handles).of(unit@, false),
            old(handles).of(unit@, k > 0),
            body.instructions@[0] is Label,
            in_scope(unit@, body.function as nat, body.instructions@[k as int], k as int),
            typed(
                entry_of(unit@, body.function as nat),
                body.instructions@,
                body.instructions@[k as int],
            ),
            resolved_at(body.instructions@, k as int, labels(body.instructions@)),
            fed_at(body.instructions@, k as int),
        ensures
            outcome != Outcome::Malformed,
            final(handles).of(unit@, false),
            final(handles).keeps(old(handles)),
            !(body.instructions@[k as int] is Label) ==> final(handles).strings@ == old(
                handles,
            ).strings@,
            owed(body.instructions@[k as int], old(handles).of(unit@, true)) ==> outcome
                == Outcome::Built,
            outcome == Outcome::Built ==> final(frame).at(body.instructions@, (k + 1) as nat),
            outcome == Outcome::Built ==> final(handles).of(unit@, true),
            outcome == Outcome::Built ==> final(frame).follows(
                body.instructions@[k as int],
                old(frame),
                old(handles),
            ),
            outcome != Outcome::Built ==> final(frame).values@ == old(frame).values@,
    {
        let ghost all = body.instructions@;
        let instruction = body.instructions[k];
        proof {
            lemma_labels_step(all, k as int);
            lemma_pending_step(all, k as int);
            lemma_labels_within(all, k as int);
            lemma_labels_within(all, k + 1);
            lemma_ready(unit@, body.function as nat, all, k as int, frame, handles);
        }
        let given = match instruction {
            Instruction::Label { label } => {
                if frame.passed >= frame.blocks.len() {
                    return Outcome::Malformed;
                }
                position_at_end(&mut self.assembly, frame.blocks[frame.passed]);
                frame.passed = frame.passed + 1;
                if !self.build_strings(unit, handles) {
                    return Outcome::Refused;
                }
                Ok(None)
            },
            Instruction::Argument { value } => {
                match self.operand(value, frame, handles) {
                    Ok(found) => {
                        frame.pending.push(found);
                        Ok(None)
                    },
                    Err(outcome) => Err(outcome),
                }
            },
            Instruction::Call { callee, arguments } => {
                if frame.pending.len() != arguments {
                    return Outcome::Malformed;
                }
                let function = match callee {
                    Callee::Function(index) => if index < handles.functions.len() {
                        handles.functions[index]
                    } else {
                        return Outcome::Malformed;
                    },
                    Callee::External(external) => {
                        proof {
                            lemma_first_index_found(unit@.externals, external);
                        }
                        match self.external(unit, external, handles) {
                            Some(function) => function,
                            None => {
                                return Outcome::Malformed;
                            },
                        }
                    },
                };
                let value = build_call(&mut self.assembly, function, &frame.pending, "call");
                frame.pending = Vec::new();
                produced(value)
            },
            Instruction::Alloca { .. }
            | Instruction::Buffer { .. }
            | Instruction::Store { .. }
            | Instruction::Load { .. } => self.build_memory(instruction, frame, handles),
            Instruction::IntBinary { .. }
            | Instruction::FloatBinary { .. }
            | Instruction::IntToFloat { .. } => self.build_arithmetic(instruction, frame, handles),
            Instruction::IntEqual { .. }
            | Instruction::IntGreater { .. }
            | Instruction::FloatEqual { .. }
            | Instruction::FloatLess { .. }
            | Instruction::Select { .. } => self.build_choice(instruction, frame, handles),
            Instruction::Return { .. }
            | Instruction::Branch { .. }
            | Instruction::CondBranch { .. } => self.build_terminator(instruction, frame, handles),
        };
        match given {
            Ok(value) => {
                frame.values.push(value);
                proof {
                    assert(frame.values@.drop_last() =~= old(frame).values@);
                    if instruction is Argument {
                        assert(frame.pending@.drop_last() =~= old(frame).pending@);
                    }
                }
                Outcome::Built
            },
            Err(outcome) => outcome,
        }
    }
}

/// How the building of a unit ended.
#[derive(Clone, Copy, PartialEq, Eq, Structural)]
enum Outcome {
    Built,
    /// LLVM refused a call.
    Refused,
    /// The unit asked for what it does not hold.
    Malformed,
}

/// Whether an instruction gives a value.
spec fn produces(instruction: Instruction) -> bool {
    gives(instruction) != Sort::Nothing
}

/// Whether handles stand ready for every operand that an instruction reads.
spec fn operands_ready(instruction: Instruction, frame: &Frame, handles: &Handles) -> bool {
    match instruction {
        Instruction::Store { slot, value } => reachable(slot, frame, handles) && reachable(
            value,
            frame,
            handles,
        ),
        Instruction::Load { slot, .. } => reachable(slot, frame, handles),
        Instruction::IntBinary { left, right, .. }
        | Instruction::FloatBinary { left, right, .. }
        | Instruction::IntEqual { left, right }
        | Instruction::IntGreater { left, right }
        | Instruction::FloatEqual { left, right }
        | Instruction::FloatLess { left, right } => reachable(left, frame, handles) && reachable(
            right,
            frame,
            handles,
        ),
        Instruction::IntToFloat { value }
        | Instruction::Argument { value }
        | Instruction::Return { value } => reachable(value, frame, handles),
        Instruction::Select { condition, then_value, else_value, .. } => reachable(
            condition,
            frame,
            handles,
        ) && reachable(then_value, frame, handles) && reachable(else_value, frame, handles),
        Instruction::CondBranch { condition, .. } => reachable(condition, frame, handles),
        _ => true,
    }
}

/// Whether the blocks that an instruction branches to exist.
spec fn targets_ready(instruction: Instruction, frame: &Frame) -> bool {
    match instruction {
        Instruction::Branch { target } => frame.passed <= frame.blocks@.len() && target_exists(
            frame.passed as nat,
            frame.blocks@.len(),
            target,
        ),
        Instruction::CondBranch { then_target, else_target, .. } => frame.passed
            <= frame.blocks@.len() && target_exists(
            frame.passed as nat,
            frame.blocks@.len(),
            then_target,
        ) && target_exists(frame.passed as nat, frame.blocks@.len(), else_target),
        _ => true,
    }
}

/// An operand that is in scope and has the sort of a value has a handle.
proof fn lemma_reachable(
    unit: State,
    function: nat,
    body: Seq<Instruction>,
    k: int,
    operand: Operand,
    sort: Sort,
    frame: &Frame,
    handles: &Handles,
)
    requires
        frame.at(body, k as nat),
        handles.of(unit, k > 0),
        0 < k < body.len(),
        known(unit, function, operand, k),
        has_sort(body, operand, sort),
        sort != Sort::Nothing,
    ensures
        reachable(operand, frame, handles),
{
    if let Operand::Result(i) = operand {
        assert(produces(body[i as int]));
        assert((frame.values@[i as int] is Some) == produces(body[i as int]));
    }
}

/// Before an instruction that is in scope, typed and resolved, everything
/// that it reads stands ready.
proof fn lemma_ready(
    unit: State,
    function: nat,
    body: Seq<Instruction>,
    k: int,
    frame: &Frame,
    handles: &Handles,
)
    requires
        0 <= k < body.len(),
        frame.at(body, k as nat),
        handles.of(unit, k > 0),
        body[0] is Label,
        in_scope(unit, function, body[k], k),
        typed(entry_of(unit, function), body, body[k]),
        resolved_at(body, k, labels(body)),
    ensures
        operands_ready(body[k], frame, handles),
        targets_ready(body[k], frame),
{
    lemma_labels_step(body, k);
    lemma_labels_within(body, k);
    if k > 0 {
        let entry = entry_of(unit, function);
        match body[k] {
            Instruction::Store { slot, value } => {
                let kind = if fits_slot(body, slot, value, ValueKind::Int) {
                    ValueKind::Int
                } else if fits_slot(body, slot, value, ValueKind::Float) {
                    ValueKind::Float
                } else if fits_slot(body, slot, value, ValueKind::Pointer) {
                    ValueKind::Pointer
                } else if fits_slot(body, slot, value, ValueKind::Bool) {
                    ValueKind::Bool
                } else {
                    ValueKind::NoneValue
                };
                lemma_reachable(unit, function, body, k, slot, Sort::Slot(kind), frame, handles);
                lemma_reachable(unit, function, body, k, value, sort_of_kind(kind), frame, handles);
            },
            Instruction::Load { slot, kind } => {
                lemma_reachable(unit, function, body, k, slot, Sort::Slot(kind), frame, handles);
            },
            Instruction::IntBinary { left, right, .. } | Instruction::IntGreater { left, right } => {
                lemma_reachable(unit, function, body, k, left, Sort::Int64, frame, handles);
                lemma_reachable(unit, function, body, k, right, Sort::Int64, frame, handles);
            },
            Instruction::FloatBinary { left, right, .. }
            | Instruction::FloatEqual { left, right }
            | Instruction::FloatLess { left, right } => {
                lemma_reachable(unit, function, body, k, left, Sort::Float64, frame, handles);
                lemma_reachable(unit, function, body, k, right, Sort::Float64, frame, handles);
            },
            Instruction::IntEqual { left, right } => {
                if both(body, left, right, Sort::Int64) {
                    lemma_reachable(unit, function, body, k, left, Sort::Int64, frame, handles);
                    lemma_reachable(unit, function, body, k, right, Sort::Int64, frame, handles);
                } else {
                    lemma_reachable(unit, function, body, k, left, Sort::Bit, frame, handles);
                    lemma_reachable(unit, function, body, k, right, Sort::Bit, frame, handles);
                }
            },
            Instruction::IntToFloat { value } => {
                lemma_reachable(unit, function, body, k, value, Sort::Int64, frame, handles);
            },
            Instruction::Select { condition, then_value, else_value, kind } => {
                lemma_reachable(unit, function, body, k, condition, Sort::Bit, frame, handles);
                lemma_reachable(unit, function, body, k, then_value, sort_of_kind(kind), frame, handles);
                lemma_reachable(unit, function, body, k, else_value, sort_of_kind(kind), frame, handles);
            },
            Instruction::Argument { value } => {
                if has_sort(body, value, Sort::Int64) {
                    lemma_reachable(unit, function, body, k, value, Sort::Int64, frame, handles);
                } else if has_sort(body, value, Sort::Int32) {
                    lemma_reachable(unit, function, body, k, value, Sort::Int32, frame, handles);
                } else if has_sort(body, value, Sort::Float64) {
                    lemma_reachable(unit, function, body, k, value, Sort::Float64, frame, handles);
                } else {
                    lemma_reachable(unit, function, body, k, value, Sort::Text, frame, handles);
                }
            },
            Instruction::Return { value } => {
                lemma_reachable(
                    unit,
                    function,
                    body,
                    k,
                    value,
                    if entry {
                        Sort::Int32
                    } else {
                        Sort::Int64
                    },
                    frame,
                    handles,
                );
            },
            Instruction::CondBranch { condition, .. } => {
                lemma_reachable(unit, function, body, k, condition, Sort::Bit, frame, handles);
            },
            _ => {},
        }
    }
}

/// What looking up an operand gives. A constant is made anew and a
/// parameter is asked of LLVM, which may refuse; every other operand names a
/// handle that is kept, and is malformed where no such handle is there.
spec fn finds<'ctx>(
    operand: Operand,
    frame: &Frame<'ctx>,
    handles: &Handles<'ctx>,
    found: Result<inkwell::values::BasicValueEnum<'ctx>, Outcome>,
) -> bool {
    match operand {
        Operand::Integer(_) | Operand::Int32(_) => found is Ok,
        Operand::Parameter(index) => if index < u32::MAX {
            found is Ok || found == Err::<inkwell::values::BasicValueEnum<'ctx>, Outcome>(
                Outcome::Refused,
            )
        } else {
            found == Err::<inkwell::values::BasicValueEnum<'ctx>, Outcome>(Outcome::Refused)
        },
        Operand::Float(index) => found == if index < handles.floats@.len() {
            Ok(handles.floats@[index as int])
        } else {
            Err(Outcome::Malformed)
        },
        Operand::Text(index) => found == if index < handles.strings@.len() {
            Ok(handles.strings@[index as int])
        } else {
            Err(Outcome::Malformed)
        },
        Operand::Result(index) => found == if index < frame.values@.len()
            && frame.values@[index as int] is Some {
            Ok(frame.values@[index as int]->0)
        } else {
            Err(Outcome::Malformed)
        },
    }
}

/// The index, among `total` blocks, of the block that `target` names in the
/// block that is the last of the `here` blocks entered so far.
spec fn block_index(here: nat, total: nat, target: Target) -> Option<int> {
    if here <= total && target_exists(here, total, target) {
        Some(
            match target {
                Target::Ahead(ahead) => here - 1 + ahead,
                Target::Back(back) => here - 1 - back,
            },
        )
    } else {
        None
    }
}

/// Whether building an instruction is sure to succeed: LLVM is asked for
/// nothing that it may refuse. A label only enters its block, once the
/// string constants are `made`; an argument that is no parameter is looked
/// up among the handles.
spec fn owed(instruction: Instruction, made: bool) -> bool {
    match instruction {
        Instruction::Label { .. } => made,
        Instruction::Argument { value } => !(value is Parameter),
        _ => false,
    }
}

impl<'ctx> Frame<'ctx> {
    /// This frame is what `before` becomes where `instruction` is built with
    /// the handles `handles`: the function and its blocks stay, what the
    /// instruction gave is recorded behind what the earlier ones gave, a
    /// label enters the next block, an argument is handed over behind the
    /// ones that wait, and a call takes them all.
    spec fn follows(
        &self,
        instruction: Instruction,
        before: &Frame<'ctx>,
        handles: &Handles<'ctx>,
    ) -> bool {
        &&& self.function == before.function
        &&& self.blocks@ == before.blocks@
        &&& self.values@.len() == before.values@.len() + 1
        &&& self.values@.drop_last() == before.values@
        &&& (self.values@.last() is Some) == produces(instruction)
        &&& self.passed == before.passed + if instruction is Label {
            1nat
        } else {
            0nat
        }
        &&& match instruction {
            Instruction::Argument { value } => {
                &&& self.pending@.len() == before.pending@.len() + 1
                &&& self.pending@.drop_last() == before.pending@
                &&& finds(value, before, handles, Ok(self.pending@.last()))
            },
            Instruction::Call { .. } => self.pending@.len() == 0,
            _ => self.pending@ == before.pending@,
        }
    }
}

/// Whatever is declared has a first index, at which it stands.
proof fn lemma_first_index_found(declared: Seq<External>, external: External)
    ensures
        match first_index(declared, external) {
            Some(index) => 0 <= index < declared.len() && declared[index] == external,
            None => !declared.contains(external),
        },
    decreases declared.len(),
{
    if declared.len() > 0 && declared[0] != external {
        let rest = declared.drop_first();
        lemma_first_index_found(rest, external);
        match first_index(rest, external) {
            Some(index) => {
                assert(rest[index] == declared[index + 1]);
            },
            None => {
                assert forall|k: int| 0 <= k < declared.len() implies declared[k] != external by {
                    if k > 0 {
                        assert(rest[k - 1] == declared[k]);
                        assert(rest.contains(rest[k - 1]));
                    }
                }
            },
        }
    }
}

/// The first index at which `external` stands in `declared`.
spec fn first_index(declared: Seq<External>, external: External) -> Option<int>
    decreases declared.len(),
{
    if declared.len() == 0 {
        None
    } else if declared[0] == external {
        Some(0)
    } else {
        match first_index(declared.drop_first(), external) {
            Some(index) => Some(index + 1),
            None => None,
        }
    }
}

/// Where nothing before index `i` is `external`, the first index of it is
/// `i` if it stands there, and there is none if `i` is the end.
proof fn lemma_first_index(declared: Seq<External>, external: External, i: int)
    requires
        0 <= i <= declared.len(),
        forall|k: int| 0 <= k < i ==> declared[k] != external,
        i < declared.len() ==> declared[i] == external,
    ensures
        first_index(declared, external) == if i < declared.len() {
            Some(i)
        } else {
            None
        },
    decreases declared.len(),
{
    if declared.len() > 0 && i > 0 {
        let rest = declared.drop_first();
        assert forall|k: int| 0 <= k < i - 1 implies rest[k] != external by {
            assert(rest[k] == declared[k + 1]);
        }
        lemma_first_index(rest, external, i - 1);
    }
}

/// Whether a handle stands ready for an operand.
spec fn reachable(operand: Operand, frame: &Frame, handles: &Handles) -> bool {
    match operand {
        Operand::Float(i) => i < handles.floats@.len(),
        Operand::Text(i) => i < handles.strings@.len(),
        Operand::Result(i) => i < frame.values@.len() && frame.values@[i as int] is Some,
        _ => true,
    }
}

impl<'ctx> Frame<'ctx> {
    /// The frame stands before the instruction with index `k` of `body`.
    spec fn at(&self, body: Seq<Instruction>, k: nat) -> bool {
        &&& self.values@.len() == k
        &&& self.blocks@.len() == labels(body)
        &&& self.passed == labels(body.subrange(0, k as int))
        &&& self.pending@.len() == pending(body.subrange(0, k as int))
        &&& forall|i: int| 0 <= i < k ==> (#[trigger] self.values@[i] is Some) == produces(body[i])
    }
}

impl<'ctx> Handles<'ctx> {
    /// There is a handle for everything that the unit declares; for the
    /// string constants once building has `started`.
    spec fn of(&self, unit: State, started: bool) -> bool {
        &&& self.functions@.len() == unit.signatures.len()
        &&& self.externals@.len() == unit.externals.len()
        &&& self.floats@.len() == unit.floats.len()
        &&& self.strings@.len() <= unit.strings.len()
        &&& started ==> self.strings@.len() == unit.strings.len()
    }

    /// These handles are those of `before`, with string constants added
    /// behind those that `before` has.
    spec fn keeps(&self, before: &Handles<'ctx>) -> bool {
        &&& self.functions@ == before.functions@
        &&& self.externals@ == before.externals@
        &&& self.floats@ == before.floats@
        &&& before.strings@.is_prefix_of(self.strings@)
    }
}

/// The blocks up to an instruction, and with it.
proof fn lemma_labels_step(body: Seq<Instruction>, k: int)
    requires
        0 <= k < body.len(),
    ensures
        labels(body.subrange(0, k + 1)) == labels(body.subrange(0, k)) + if body[k] is Label {
            1nat
        } else {
            0nat
        },
{
    assert(body.subrange(0, k + 1).drop_last() =~= body.subrange(0, k));
}

/// The arguments that stand before an instruction, and with it.
proof fn lemma_pending_step(body: Seq<Instruction>, k: int)
    requires
        0 <= k < body.len(),
    ensures
        pending(body.subrange(0, k + 1)) == if body[k] is Argument {
            pending(body.subrange(0, k)) + 1
        } else {
            0
        },
{
    assert(body.subrange(0, k + 1).drop_last() =~= body.subrange(0, k));
}

/// A part of a body starts no more blocks than the body.
proof fn lemma_labels_within(body: Seq<Instruction>, k: int)
    requires
        0 <= k <= body.len(),
    ensures
        labels(body.subrange(0, k)) <= labels(body),
    decreases body.len() - k,
{
    if k < body.len() {
        lemma_labels_step(body, k);
        lemma_labels_within(body, k + 1);
    } else {
        assert(body.subrange(0, k) =~= body);
    }
}

} // verus!
