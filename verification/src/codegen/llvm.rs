//! The types and calls of `inkwell` (the LLVM bindings) that code generation uses.
//! LLVM objects are opaque here: the contracts say which kind of type or value
//! a call returns where `inkwell`'s source fixes it, and nothing else.
use vstd::prelude::*;
use inkwell::basic_block::BasicBlock;
use inkwell::builder::Builder;
use inkwell::context::Context;
use inkwell::execution_engine::ExecutionEngine;
use inkwell::module::Module;
use inkwell::passes::PassManager;
use inkwell::targets::{CodeModel, RelocMode, Target, TargetMachine, TargetTriple};
use inkwell::types::BasicType;
use inkwell::types::{
    ArrayType, BasicTypeEnum, FloatType, FunctionType, IntType, PointerType, StructType,
    VectorType, VoidType,
};
use inkwell::values::{
    ArrayValue, BasicValueEnum, CallSiteValue, FloatValue, FunctionValue, GlobalValue, IntValue,
    PointerValue, StructValue, VectorValue,
};
use inkwell::OptimizationLevel;

verus! {

#[verifier::external_type_specification]
#[verifier::external_body]
pub struct ExContext(Context);

#[verifier::external_type_specification]
#[verifier::external_body]
pub struct ExModule<'ctx>(Module<'ctx>);

#[verifier::external_type_specification]
#[verifier::external_body]
pub struct ExBuilder<'ctx>(Builder<'ctx>);

#[verifier::external_type_specification]
#[verifier::external_body]
pub struct ExBasicBlock<'ctx>(BasicBlock<'ctx>);

#[verifier::external_type_specification]
#[verifier::external_body]
pub struct ExExecutionEngine<'ctx>(ExecutionEngine<'ctx>);

#[verifier::external_type_specification]
#[verifier::external_body]
#[verifier::reject_recursive_types(T)]
pub struct ExPassManager<T>(PassManager<T>);

#[verifier::external_type_specification]
#[verifier::external_body]
pub struct ExTarget(Target);

#[verifier::external_type_specification]
#[verifier::external_body]
pub struct ExTargetTriple(TargetTriple);

#[verifier::external_type_specification]
#[verifier::external_body]
pub struct ExTargetMachine(TargetMachine);

#[verifier::external_type_specification]
pub struct ExOptimizationLevel(OptimizationLevel);

#[verifier::external_type_specification]
pub struct ExRelocMode(RelocMode);

#[verifier::external_type_specification]
pub struct ExCodeModel(CodeModel);

#[verifier::external_type_specification]
#[verifier::external_body]
pub struct ExArrayType<'ctx>(ArrayType<'ctx>);

#[verifier::external_type_specification]
#[verifier::external_body]
pub struct ExFloatType<'ctx>(FloatType<'ctx>);

#[verifier::external_type_specification]
#[verifier::external_body]
pub struct ExIntType<'ctx>(IntType<'ctx>);

#[verifier::external_type_specification]
#[verifier::external_body]
pub struct ExPointerType<'ctx>(PointerType<'ctx>);

#[verifier::external_type_specification]
#[verifier::external_body]
pub struct ExStructType<'ctx>(StructType<'ctx>);

#[verifier::external_type_specification]
#[verifier::external_body]
pub struct ExVectorType<'ctx>(VectorType<'ctx>);

#[verifier::external_type_specification]
#[verifier::external_body]
pub struct ExVoidType<'ctx>(VoidType<'ctx>);

#[verifier::external_type_specification]
#[verifier::external_body]
pub struct ExFunctionType<'ctx>(FunctionType<'ctx>);

#[verifier::external_type_specification]
pub struct ExBasicTypeEnum<'ctx>(BasicTypeEnum<'ctx>);

#[verifier::external_type_specification]
#[verifier::external_body]
pub struct ExArrayValue<'ctx>(ArrayValue<'ctx>);

#[verifier::external_type_specification]
#[verifier::external_body]
pub struct ExIntValue<'ctx>(IntValue<'ctx>);

#[verifier::external_type_specification]
#[verifier::external_body]
pub struct ExFloatValue<'ctx>(FloatValue<'ctx>);

#[verifier::external_type_specification]
#[verifier::external_body]
pub struct ExPointerValue<'ctx>(PointerValue<'ctx>);

#[verifier::external_type_specification]
#[verifier::external_body]
pub struct ExStructValue<'ctx>(StructValue<'ctx>);

#[verifier::external_type_specification]
#[verifier::external_body]
pub struct ExVectorValue<'ctx>(VectorValue<'ctx>);

#[verifier::external_type_specification]
pub struct ExBasicValueEnum<'ctx>(BasicValueEnum<'ctx>);

#[verifier::external_type_specification]
#[verifier::external_body]
pub struct ExFunctionValue<'ctx>(FunctionValue<'ctx>);

#[verifier::external_type_specification]
#[verifier::external_body]
pub struct ExGlobalValue<'ctx>(GlobalValue<'ctx>);

#[verifier::external_type_specification]
#[verifier::external_body]
pub struct ExCallSiteValue<'ctx>(CallSiteValue<'ctx>);

/// The names of the functions that a module holds. A function that LLVM
/// keeps unnamed has no entry.
pub uninterp spec fn module_functions(m: Module) -> Set<Seq<char>>;

/// Whether LLVM takes a name as given: not empty, and without a NUL
/// character (inkwell cuts a name at its first NUL).
pub open spec fn plain_symbol(name: Seq<char>) -> bool {
    name.len() > 0 && !name.contains('\0')
}

// --- Context ---------------------------------------------------------------

/// `Context::create_module`: a new, empty module with the given name; it
/// holds no function.
#[verifier::external_body]
pub(crate) fn create_module<'ctx>(context: &'ctx Context, name: &str) -> (r: Module<'ctx>)
    ensures
        module_functions(r) == Set::<Seq<char>>::empty(),
{
    context.create_module(name)
}

/// `Context::create_builder`: a new builder, not positioned in any block.
#[verifier::external_body]
pub(crate) fn create_builder<'ctx>(context: &'ctx Context) -> Builder<'ctx> {
    context.create_builder()
}

/// `Context::bool_type`, as a basic type; inkwell wraps it in the `IntType` variant.
#[verifier::external_body]
pub(crate) fn bool_type<'ctx>(context: &'ctx Context) -> (r: BasicTypeEnum<'ctx>)
    ensures
        r is IntType,
{
    context.bool_type().into()
}

/// `Context::i8_type`, the 8-bit integer type.
#[verifier::external_body]
pub(crate) fn i8_type<'ctx>(context: &'ctx Context) -> IntType<'ctx> {
    context.i8_type()
}

/// `Context::i16_type`, as a basic type; inkwell wraps it in the `IntType` variant.
#[verifier::external_body]
pub(crate) fn i16_type<'ctx>(context: &'ctx Context) -> (r: BasicTypeEnum<'ctx>)
    ensures
        r is IntType,
{
    context.i16_type().into()
}

/// `Context::i32_type`, the 32-bit integer type.
#[verifier::external_body]
pub(crate) fn i32_type<'ctx>(context: &'ctx Context) -> IntType<'ctx> {
    context.i32_type()
}

/// `Context::i64_type`, the 64-bit integer type.
#[verifier::external_body]
pub(crate) fn i64_type<'ctx>(context: &'ctx Context) -> IntType<'ctx> {
    context.i64_type()
}

/// `Context::i128_type`, as a basic type; inkwell wraps it in the `IntType` variant.
#[verifier::external_body]
pub(crate) fn i128_type<'ctx>(context: &'ctx Context) -> (r: BasicTypeEnum<'ctx>)
    ensures
        r is IntType,
{
    context.i128_type().into()
}

/// `Context::f32_type`, as a basic type; inkwell wraps it in the `FloatType` variant.
#[verifier::external_body]
pub(crate) fn f32_type<'ctx>(context: &'ctx Context) -> (r: BasicTypeEnum<'ctx>)
    ensures
        r is FloatType,
{
    context.f32_type().into()
}

/// `Context::f64_type`, as a basic type; inkwell wraps it in the `FloatType` variant.
#[verifier::external_body]
pub(crate) fn f64_type<'ctx>(context: &'ctx Context) -> (r: BasicTypeEnum<'ctx>)
    ensures
        r is FloatType,
{
    context.f64_type().into()
}

/// `Context::void_type`.
#[verifier::external_body]
pub(crate) fn void_type<'ctx>(context: &'ctx Context) -> VoidType<'ctx> {
    context.void_type()
}

/// `Context::append_basic_block`: a new block at the end of the function.
#[verifier::external_body]
pub(crate) fn append_basic_block<'ctx>(
    context: &'ctx Context,
    function: FunctionValue<'ctx>,
    name: &str,
) -> BasicBlock<'ctx> {
    context.append_basic_block(function, name)
}

// --- Types -----------------------------------------------------------------

/// An integer type as a basic type (`From<IntType> for BasicTypeEnum`), the `IntType` variant.
#[verifier::external_body]
pub(crate) fn int_as_basic<'ctx>(t: IntType<'ctx>) -> (r: BasicTypeEnum<'ctx>)
    ensures
        r == BasicTypeEnum::IntType(t),
{
    t.into()
}

/// `IntType::ptr_type` in the default address space.
#[verifier::external_body]
pub(crate) fn int_ptr_type<'ctx>(t: IntType<'ctx>) -> PointerType<'ctx> {
    t.ptr_type(inkwell::AddressSpace::default())
}

/// `PointerType::ptr_type` in the default address space.
#[verifier::external_body]
pub(crate) fn ptr_ptr_type<'ctx>(t: PointerType<'ctx>) -> PointerType<'ctx> {
    t.ptr_type(inkwell::AddressSpace::default())
}

/// A pointer type as a basic type, the `PointerType` variant.
#[verifier::external_body]
pub(crate) fn ptr_as_basic<'ctx>(t: PointerType<'ctx>) -> (r: BasicTypeEnum<'ctx>)
    ensures
        r == BasicTypeEnum::PointerType(t),
{
    t.into()
}

/// `BasicType::array_type`: an array of `size` elements of `t`, as a basic
/// type in the `ArrayType` variant.
#[verifier::external_body]
pub(crate) fn array_type<'ctx>(t: BasicTypeEnum<'ctx>, size: u32) -> (r: BasicTypeEnum<'ctx>)
    ensures
        r is ArrayType,
{
    t.array_type(size).into()
}

/// `IntType::fn_type`: a function type returning `ret`, not variadic.
#[verifier::external_body]
pub(crate) fn int_fn_type<'ctx>(ret: IntType<'ctx>, params: &[BasicTypeEnum<'ctx>]) -> FunctionType<'ctx> {
    let params: Vec<inkwell::types::BasicMetadataTypeEnum<'ctx>> = params.iter().map(|p| (*p).into()).collect();
    ret.fn_type(&params, false)
}

/// `FloatType::fn_type`: a function type returning `ret`, not variadic.
#[verifier::external_body]
pub(crate) fn float_fn_type<'ctx>(ret: FloatType<'ctx>, params: &[BasicTypeEnum<'ctx>]) -> FunctionType<
    'ctx,
> {
    let params: Vec<inkwell::types::BasicMetadataTypeEnum<'ctx>> = params.iter().map(|p| (*p).into()).collect();
    ret.fn_type(&params, false)
}

/// `PointerType::fn_type`: a function type returning `ret`, not variadic.
#[verifier::external_body]
pub(crate) fn ptr_fn_type<'ctx>(ret: PointerType<'ctx>, params: &[BasicTypeEnum<'ctx>]) -> FunctionType<
    'ctx,
> {
    let params: Vec<inkwell::types::BasicMetadataTypeEnum<'ctx>> = params.iter().map(|p| (*p).into()).collect();
    ret.fn_type(&params, false)
}

/// `VoidType::fn_type`: a function type returning nothing, not variadic.
#[verifier::external_body]
pub(crate) fn void_fn_type<'ctx>(ret: VoidType<'ctx>, params: &[BasicTypeEnum<'ctx>]) -> FunctionType<
    'ctx,
> {
    let params: Vec<inkwell::types::BasicMetadataTypeEnum<'ctx>> = params.iter().map(|p| (*p).into()).collect();
    ret.fn_type(&params, false)
}

/// `FunctionType::get_return_type`: `None` for a function that returns nothing.
#[verifier::external_body]
pub(crate) fn return_type<'ctx>(t: FunctionType<'ctx>) -> Option<BasicTypeEnum<'ctx>> {
    t.get_return_type()
}

// --- Values ----------------------------------------------------------------

/// `IntType::const_int`, as a basic value; inkwell wraps it in the `IntValue` variant.
#[verifier::external_body]
pub(crate) fn const_int<'ctx>(t: IntType<'ctx>, value: u64, sign_extend: bool) -> (r: BasicValueEnum<'ctx>)
    ensures
        r is IntValue,
{
    t.const_int(value, sign_extend).into()
}

/// `IntType::const_zero`, as a basic value; inkwell wraps it in the `IntValue` variant.
#[verifier::external_body]
pub(crate) fn const_zero<'ctx>(t: IntType<'ctx>) -> (r: BasicValueEnum<'ctx>)
    ensures
        r is IntValue,
{
    t.const_zero().into()
}

/// `PointerType::const_null`, as a basic value; inkwell wraps it in the `PointerValue` variant.
#[verifier::external_body]
pub(crate) fn const_null<'ctx>(t: PointerType<'ctx>) -> (r: BasicValueEnum<'ctx>)
    ensures
        r is PointerValue,
{
    t.const_null().into()
}

/// A pointer value as a basic value, the `PointerValue` variant.
#[verifier::external_body]
pub(crate) fn ptr_value<'ctx>(p: PointerValue<'ctx>) -> (r: BasicValueEnum<'ctx>)
    ensures
        r == BasicValueEnum::PointerValue(p),
{
    p.into()
}

/// `GlobalValue::as_pointer_value`.
#[verifier::external_body]
pub(crate) fn global_pointer<'ctx>(g: GlobalValue<'ctx>) -> PointerValue<'ctx> {
    g.as_pointer_value()
}

/// `BasicValueEnum::set_name`.
#[verifier::external_body]
pub(crate) fn set_value_name<'ctx>(v: BasicValueEnum<'ctx>, name: &str) {
    v.set_name(name)
}

/// `BasicValueEnum::get_type`.
#[verifier::external_body]
pub(crate) fn type_of_value<'ctx>(v: BasicValueEnum<'ctx>) -> BasicTypeEnum<'ctx> {
    v.get_type()
}

/// `CallSiteValue::try_as_basic_value`: the value a call gives, or `None`
/// when it is an instruction (a call that returns nothing).
#[verifier::external_body]
pub(crate) fn call_value<'ctx>(c: CallSiteValue<'ctx>) -> Option<BasicValueEnum<'ctx>> {
    c.try_as_basic_value().left()
}

// --- Functions and blocks -------------------------------------------------

/// `FunctionValue::get_first_basic_block`.
#[verifier::external_body]
pub(crate) fn first_block<'ctx>(f: FunctionValue<'ctx>) -> Option<BasicBlock<'ctx>> {
    f.get_first_basic_block()
}

/// `FunctionValue::get_param_iter`, collected: the function's parameters in order.
#[verifier::external_body]
pub(crate) fn params<'ctx>(f: FunctionValue<'ctx>) -> Vec<BasicValueEnum<'ctx>> {
    f.get_param_iter().collect()
}

/// `FunctionValue::get_type`.
#[verifier::external_body]
pub(crate) fn function_type<'ctx>(f: FunctionValue<'ctx>) -> FunctionType<'ctx> {
    f.get_type()
}

/// `FunctionValue::verify`, printing what LLVM finds wrong.
#[verifier::external_body]
pub(crate) fn verify_function<'ctx>(f: FunctionValue<'ctx>) -> bool {
    f.verify(true)
}

/// `FunctionValue::as_global_value`.
#[verifier::external_body]
pub(crate) fn function_global<'ctx>(f: FunctionValue<'ctx>) -> GlobalValue<'ctx> {
    f.as_global_value()
}

/// `BasicBlock::get_parent`: the function that holds the block.
#[verifier::external_body]
pub(crate) fn block_parent<'ctx>(b: BasicBlock<'ctx>) -> Option<FunctionValue<'ctx>> {
    b.get_parent()
}

// --- Module ----------------------------------------------------------------

/// `Module::get_function` (`LLVMGetNamedFunction`): the function of that
/// name, if the module has one. Stated for names that LLVM takes as given.
#[verifier::external_body]
pub(crate) fn get_function<'ctx>(m: &Module<'ctx>, name: &str) -> (r: Option<FunctionValue<'ctx>>)
    ensures
        plain_symbol(name@) ==> (r is Some <==> module_functions(*m).contains(name@)),
{
    m.get_function(name)
}

/// `Module::add_function` (`LLVMAddFunction`) with no linkage given. The
/// module keeps its functions and, for a name that LLVM takes as given, gains
/// exactly one more. Its name is `name` unless the module already holds a
/// function or a global of that name, when LLVM makes the name unique; which
/// of the two holds is not stated, since the module's globals are not modelled.
#[verifier::external_body]
pub(crate) fn add_function<'ctx>(
    m: &mut Module<'ctx>,
    name: &str,
    t: FunctionType<'ctx>,
) -> (r: FunctionValue<'ctx>)
    ensures
        module_functions(*old(m)).subset_of(module_functions(*final(m))),
        plain_symbol(name@) ==> exists|n: Seq<char>|
            !module_functions(*old(m)).contains(n) && module_functions(*final(m))
                == module_functions(*old(m)).insert(n),
{
    m.add_function(name, t, None)
}

/// `Module::verify`, with LLVM's message on failure.
#[verifier::external_body]
pub(crate) fn verify_module<'ctx>(m: &Module<'ctx>) -> Result<(), String> {
    m.verify().map_err(|e| e.to_string())
}

/// `Module::print_to_string`: the module as LLVM IR text.
#[verifier::external_body]
pub(crate) fn print_module<'ctx>(m: &Module<'ctx>) -> String {
    m.print_to_string().to_string()
}

/// `Module::create_jit_execution_engine`, with LLVM's message on failure.
#[verifier::external_body]
pub(crate) fn create_jit_execution_engine<'ctx>(m: Module<'ctx>, level: OptimizationLevel) -> Result<
    ExecutionEngine<'ctx>,
    String,
> {
    m.create_jit_execution_engine(level).map_err(|e| e.to_string())
}

// --- Builder ---------------------------------------------------------------

/// `Builder::get_insert_block`: the block the builder is positioned in.
#[verifier::external_body]
pub(crate) fn insert_block<'ctx>(b: &Builder<'ctx>) -> Option<BasicBlock<'ctx>> {
    b.get_insert_block()
}

/// `Builder::position_at_end`.
#[verifier::external_body]
pub(crate) fn position_at_end<'ctx>(b: &Builder<'ctx>, block: BasicBlock<'ctx>) {
    b.position_at_end(block)
}

/// `Builder::build_global_string_ptr`; `None` where the builder refuses.
#[verifier::external_body]
pub(crate) fn build_global_string_ptr<'ctx>(b: &Builder<'ctx>, value: &str, name: &str) -> Option<
    GlobalValue<'ctx>,
> {
    b.build_global_string_ptr(value, name).ok()
}

/// `Builder::build_call`; `None` where the builder refuses.
#[verifier::external_body]
pub(crate) fn build_call<'ctx>(
    b: &Builder<'ctx>,
    function: FunctionValue<'ctx>,
    args: &[BasicValueEnum<'ctx>],
    name: &str,
) -> Option<CallSiteValue<'ctx>> {
    let args: Vec<inkwell::values::BasicMetadataValueEnum<'ctx>> = args.iter().map(|a| (*a).into()).collect();
    b.build_call(function, &args, name).ok()
}

/// `Builder::build_alloca`; `None` where the builder refuses.
#[verifier::external_body]
pub(crate) fn build_alloca<'ctx>(b: &Builder<'ctx>, t: BasicTypeEnum<'ctx>, name: &str) -> Option<
    PointerValue<'ctx>,
> {
    b.build_alloca(t, name).ok()
}

/// `Builder::build_store`; whether the builder accepted it.
#[verifier::external_body]
pub(crate) fn build_store<'ctx>(b: &Builder<'ctx>, ptr: PointerValue<'ctx>, value: BasicValueEnum<'ctx>) -> bool {
    b.build_store(ptr, value).is_ok()
}

/// `Builder::build_return`, of a value or of nothing; whether the builder accepted it.
#[verifier::external_body]
pub(crate) fn build_return<'ctx>(b: &Builder<'ctx>, value: Option<BasicValueEnum<'ctx>>) -> bool {
    let value: Option<&dyn inkwell::values::BasicValue<'ctx>> =
        value.as_ref().map(|v| v as &dyn inkwell::values::BasicValue<'ctx>);
    b.build_return(value).is_ok()
}

// --- Targets and passes ----------------------------------------------------

/// `Target::initialize_native` with the default configuration.
#[verifier::external_body]
pub(crate) fn initialize_native() -> Result<(), String> {
    Target::initialize_native(&inkwell::targets::InitializationConfig::default())
}

/// `TargetMachine::get_default_triple`.
#[verifier::external_body]
pub(crate) fn default_triple() -> TargetTriple {
    TargetMachine::get_default_triple()
}

/// `Target::from_triple`, with LLVM's message on failure.
#[verifier::external_body]
pub(crate) fn target_from_triple(triple: &TargetTriple) -> Result<Target, String> {
    Target::from_triple(triple).map_err(|e| e.to_string())
}

/// `Target::create_target_machine`; `None` where LLVM refuses.
#[verifier::external_body]
pub(crate) fn create_target_machine(
    target: &Target,
    triple: &TargetTriple,
    cpu: &str,
    features: &str,
    level: OptimizationLevel,
    reloc_mode: RelocMode,
    code_model: CodeModel,
) -> Option<TargetMachine> {
    target.create_target_machine(triple, cpu, features, level, reloc_mode, code_model)
}

/// `PassManager::create` for the functions of a module.
#[verifier::external_body]
pub(crate) fn function_pass_manager<'ctx>(m: &Module<'ctx>) -> PassManager<FunctionValue<'ctx>> {
    PassManager::create(m)
}

/// `PassManager::initialize`; whether a pass changed anything.
#[verifier::external_body]
pub(crate) fn initialize_passes<'ctx>(p: &PassManager<FunctionValue<'ctx>>) -> bool {
    p.initialize()
}

/// `PassManager::run_on`; whether a pass changed the function.
#[verifier::external_body]
pub(crate) fn run_passes<'ctx>(p: &PassManager<FunctionValue<'ctx>>, f: &FunctionValue<'ctx>) -> bool {
    p.run_on(f)
}

} // verus!
