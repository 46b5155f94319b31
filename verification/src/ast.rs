//! The syntax tree of Spaceship programs, and its lowering to LLVM.
use vstd::prelude::*;
use inkwell::types::BasicTypeEnum;
use inkwell::values::BasicValueEnum;
use crate::codegen::compiler::{lowers, Compiler};
use crate::codegen::llvm::{
    add_function, append_basic_block, block_parent, build_call, build_global_string_ptr,
    build_return, build_store, call_value, const_int, const_null, const_zero, float_fn_type,
    function_global, function_type, get_function, global_pointer, i32_type, i64_type, i8_type,
    insert_block, int_fn_type, int_ptr_type, module_functions, params, plain_symbol, position_at_end, ptr_as_basic, ptr_fn_type,
    ptr_ptr_type, ptr_value, return_type, set_value_name, type_of_value, verify_function,
    void_fn_type, void_type,
};

verus! {

#[derive(Debug, PartialEq, Eq)]
pub enum TypeNode {
    Bool,
    I8,
    I16,
    I32,
    I64,
    I128,
    F32,
    F64,
    U8Array,
    Array(Box<TypeNode>, u32),
    HashMap(Box<TypeNode>, Box<TypeNode>),
}

#[derive(Debug)]
pub struct VarDecl {
    pub name: String,
    pub var_type: TypeNode,
    pub initial_value: Option<Expression>,
}

#[derive(Debug)]
pub enum Expression {
    IntegerLiteral(i64),
    StringLiteral(String),
    ProcessCall { command: String, args: Vec<Expression> },
    Pipeline { lhs: Box<Expression>, rhs: Box<Expression> },
    IndexAccess { aggregate: Box<Expression>, index: Box<Expression> },
}

#[derive(Debug)]
pub enum Statement {
    VarDecl { name: String, var_type: TypeNode, initial_value: Option<Expression> },
    FnDecl {
        fn_name: String,
        args: Vec<VarDecl>,
        return_type: Option<TypeNode>,
        is_error_contract: bool,
        body: Vec<Statement>,
    },
    JitDirective(String),
    CheckExcept { check_block: Vec<Statement>, except_block: Vec<Statement> },
}

/// An expression as a value: text as characters, lists as sequences.
pub enum ExprV {
    IntegerLiteral(i64),
    StringLiteral(Seq<char>),
    ProcessCall { command: Seq<char>, args: Seq<ExprV> },
    Pipeline { lhs: Box<ExprV>, rhs: Box<ExprV> },
    IndexAccess { aggregate: Box<ExprV>, index: Box<ExprV> },
}

/// A declaration of a variable or of a function parameter, as a value.
pub struct VarDeclV {
    pub name: Seq<char>,
    pub var_type: TypeNode,
    pub initial_value: Option<ExprV>,
}

/// A statement as a value.
pub enum StmtV {
    VarDecl { name: Seq<char>, var_type: TypeNode, initial_value: Option<ExprV> },
    FnDecl {
        fn_name: Seq<char>,
        args: Seq<VarDeclV>,
        return_type: Option<TypeNode>,
        is_error_contract: bool,
        body: Seq<StmtV>,
    },
    JitDirective(Seq<char>),
    CheckExcept { check_block: Seq<StmtV>, except_block: Seq<StmtV> },
}

pub open spec fn exprs_view(s: Seq<Expression>) -> Seq<ExprV>
    decreases s,
{
    if s.len() == 0 {
        seq![]
    } else {
        seq![expr_view(s[0])] + exprs_view(s.subrange(1, s.len() as int))
    }
}

pub open spec fn expr_view(e: Expression) -> ExprV
    decreases e,
{
    match e {
        Expression::IntegerLiteral(v) => ExprV::IntegerLiteral(v),
        Expression::StringLiteral(s) => ExprV::StringLiteral(s@),
        Expression::ProcessCall { command, args } => ExprV::ProcessCall {
            command: command@,
            args: exprs_view(args@),
        },
        Expression::Pipeline { lhs, rhs } => ExprV::Pipeline {
            lhs: Box::new(expr_view(*lhs)),
            rhs: Box::new(expr_view(*rhs)),
        },
        Expression::IndexAccess { aggregate, index } => ExprV::IndexAccess {
            aggregate: Box::new(expr_view(*aggregate)),
            index: Box::new(expr_view(*index)),
        },
    }
}

pub open spec fn var_decl_view(d: VarDecl) -> VarDeclV {
    VarDeclV {
        name: d.name@,
        var_type: d.var_type,
        initial_value: match d.initial_value {
            Some(e) => Some(expr_view(e)),
            None => None,
        },
    }
}

pub open spec fn var_decls_view(s: Seq<VarDecl>) -> Seq<VarDeclV>
    decreases s.len(),
{
    if s.len() == 0 {
        seq![]
    } else {
        seq![var_decl_view(s[0])] + var_decls_view(s.subrange(1, s.len() as int))
    }
}

pub open spec fn stmts_view(s: Seq<Statement>) -> Seq<StmtV>
    decreases s,
{
    if s.len() == 0 {
        seq![]
    } else {
        seq![stmt_view(s[0])] + stmts_view(s.subrange(1, s.len() as int))
    }
}

pub open spec fn stmt_view(st: Statement) -> StmtV
    decreases st,
{
    match st {
        Statement::VarDecl { name, var_type, initial_value } => StmtV::VarDecl {
            name: name@,
            var_type,
            initial_value: match initial_value {
                Some(e) => Some(expr_view(e)),
                None => None,
            },
        },
        Statement::FnDecl { fn_name, args, return_type, is_error_contract, body } => StmtV::FnDecl {
            fn_name: fn_name@,
            args: var_decls_view(args@),
            return_type,
            is_error_contract,
            body: stmts_view(body@),
        },
        Statement::JitDirective(path) => StmtV::JitDirective(path@),
        Statement::CheckExcept { check_block, except_block } => StmtV::CheckExcept {
            check_block: stmts_view(check_block@),
            except_block: stmts_view(except_block@),
        },
    }
}

impl View for Expression {
    type V = ExprV;

    open spec fn view(&self) -> ExprV {
        expr_view(*self)
    }
}

impl View for VarDecl {
    type V = VarDeclV;

    open spec fn view(&self) -> VarDeclV {
        var_decl_view(*self)
    }
}

impl View for Statement {
    type V = StmtV;

    open spec fn view(&self) -> StmtV {
        stmt_view(*self)
    }
}

/// A sequence of expressions is viewed element by element.
pub proof fn lemma_exprs_view(s: Seq<Expression>)
    ensures
        exprs_view(s).len() == s.len(),
        forall|i: int| 0 <= i < s.len() ==> #[trigger] exprs_view(s)[i] == expr_view(s[i]),
    decreases s.len(),
{
    if s.len() > 0 {
        lemma_exprs_view(s.subrange(1, s.len() as int));
    }
}

pub proof fn lemma_stmts_view(s: Seq<Statement>)
    ensures
        stmts_view(s).len() == s.len(),
        forall|i: int| 0 <= i < s.len() ==> #[trigger] stmts_view(s)[i] == stmt_view(s[i]),
    decreases s.len(),
{
    if s.len() > 0 {
        lemma_stmts_view(s.subrange(1, s.len() as int));
    }
}

pub proof fn lemma_var_decls_view(s: Seq<VarDecl>)
    ensures
        var_decls_view(s).len() == s.len(),
        forall|i: int| 0 <= i < s.len() ==> #[trigger] var_decls_view(s)[i] == var_decl_view(s[i]),
    decreases s.len(),
{
    if s.len() > 0 {
        lemma_var_decls_view(s.subrange(1, s.len() as int));
    }
}

pub proof fn lemma_exprs_view_push(s: Seq<Expression>, x: Expression)
    ensures
        exprs_view(s.push(x)) == exprs_view(s).push(expr_view(x)),
{
    lemma_exprs_view(s);
    lemma_exprs_view(s.push(x));
    assert(exprs_view(s.push(x)) =~= exprs_view(s).push(expr_view(x)));
}

pub proof fn lemma_stmts_view_push(s: Seq<Statement>, x: Statement)
    ensures
        stmts_view(s.push(x)) == stmts_view(s).push(stmt_view(x)),
{
    lemma_stmts_view(s);
    lemma_stmts_view(s.push(x));
    assert(stmts_view(s.push(x)) =~= stmts_view(s).push(stmt_view(x)));
}

pub proof fn lemma_var_decls_view_push(s: Seq<VarDecl>, x: VarDecl)
    ensures
        var_decls_view(s.push(x)) == var_decls_view(s).push(var_decl_view(x)),
{
    lemma_var_decls_view(s);
    lemma_var_decls_view(s.push(x));
    assert(var_decls_view(s.push(x)) =~= var_decls_view(s).push(var_decl_view(x)));
}

/// Whether lowering a declaration cannot start: its type has no LLVM
/// representation, or its initial value is an expression that has none.
pub open spec fn var_decl_unlowerable(var_type: TypeNode, initial_value: Option<Expression>) -> bool {
    ||| !lowers(var_type)
    ||| (initial_value matches Some(e) && (e is Pipeline || e is IndexAccess))
}

/// Whether a function's signature has no LLVM function type: a parameter
/// type or the return type does not lower, or the return type is an array.
pub open spec fn signature_unlowerable(args: Seq<VarDecl>, ret: Option<TypeNode>) -> bool {
    ||| exists|j: int| 0 <= j < args.len() && !lowers(#[trigger] args[j].var_type)
    ||| (ret matches Some(t) && (!lowers(t) || t is Array))
}

/// The runtime function that a process call calls.
pub open spec fn runtime_entry() -> Seq<char> {
    "spaceship_run_process"@
}

/// The names of a function's parameters.
pub open spec fn param_names(args: Seq<VarDecl>) -> Set<Seq<char>> {
    Set::new(|n: Seq<char>| exists|i: int| 0 <= i < args.len() && #[trigger] args[i].name@ == n)
}

/// The variable names that lowering a statement may bind: a declaration's
/// name, and a function's parameters and the names its body binds.
pub open spec fn names_bound_by(st: Statement) -> Set<Seq<char>>
    decreases st,
{
    match st {
        Statement::VarDecl { name, .. } => set![name@],
        Statement::FnDecl { args, body, .. } => param_names(args@).union(
            names_bound_in(body@),
        ),
        _ => Set::empty(),
    }
}

/// The variable names that lowering a sequence of statements may bind.
pub open spec fn names_bound_in(s: Seq<Statement>) -> Set<Seq<char>>
    decreases s,
{
    if s.len() == 0 {
        Set::empty()
    } else {
        names_bound_by(s[0]).union(names_bound_in(s.subrange(1, s.len() as int)))
    }
}

/// Appending a statement adds the names it may bind.
pub proof fn lemma_names_bound_in_push(s: Seq<Statement>, x: Statement)
    ensures
        names_bound_in(s.push(x)) == names_bound_in(s).union(names_bound_by(x)),
    decreases s.len(),
{
    if s.len() == 0 {
        assert(s.push(x).subrange(1, 1) =~= Seq::<Statement>::empty());
        assert(names_bound_in(s.push(x).subrange(1, 1)) == Set::<Seq<char>>::empty());
        assert(names_bound_in(s) == Set::<Seq<char>>::empty());
        assert(s.push(x)[0] == x);
        assert(names_bound_in(s.push(x)) =~= names_bound_in(s).union(names_bound_by(x)));
    } else {
        let t = s.subrange(1, s.len() as int);
        lemma_names_bound_in_push(t, x);
        assert(s.push(x).subrange(1, s.len() as int + 1) =~= t.push(x));
        assert(s.push(x)[0] == s[0]);
        assert(names_bound_in(s.push(x)) =~= names_bound_in(s).union(names_bound_by(x)));
    }
}

impl Expression {
    /// Lowers the expression at the builder's position: an integer literal
    /// is a 64-bit constant, a string literal a pointer to a global string,
    /// a process call a call of the runtime's `spaceship_run_process`;
    /// pipelines and index accesses have no lowering.
    ///
    /// The contract states which expressions have a lowering, that the
    /// compiler's bindings stay as they are, and how the module's functions
    /// change (the runtime function is found or added). The LLVM values
    /// themselves (the constant's value, the call's operands) are opaque here:
    /// what LLVM builds from them is not stated.
    pub fn codegen<'ctx>(&self, compiler: &mut Compiler<'ctx>) -> (r: Option<BasicValueEnum<'ctx>>)
        ensures
            final(compiler).context == old(compiler).context,
            final(compiler).builder == old(compiler).builder,
            final(compiler).named_values == old(compiler).named_values,
            module_functions(old(compiler).module).subset_of(
                module_functions(final(compiler).module),
            ),
            (self is IntegerLiteral || self is Pipeline || self is IndexAccess) ==> *final(compiler)
                == *old(compiler),
            !(self is ProcessCall) ==> module_functions(final(compiler).module) == module_functions(
                old(compiler).module,
            ),
            self is ProcessCall ==> {
                let fns0 = module_functions(old(compiler).module);
                let fns1 = module_functions(final(compiler).module);
                &&& fns0.contains(runtime_entry()) ==> fns1 == fns0
                &&& !fns0.contains(runtime_entry()) ==> exists|n: Seq<char>|
                    !fns0.contains(n) && fns1 == fns0.insert(n)
            },
            self is IntegerLiteral ==> (r matches Some(v) && v is IntValue),
            self is StringLiteral ==> (r matches Some(v) ==> v is PointerValue),
            (self is Pipeline || self is IndexAccess) ==> r is None,
    {
        match self {
            Expression::IntegerLiteral(value) => {
                Some(const_int(i64_type(compiler.context), *value as u64, true))
            },
            Expression::StringLiteral(text) => {
                match build_global_string_ptr(&compiler.builder, text.as_str(), "str_literal") {
                    Some(g) => Some(ptr_value(global_pointer(g))),
                    None => None,
                }
            },
            Expression::ProcessCall { command, args: _ } => {
                let i32_t = i32_type(compiler.context);
                let i8_ptr_type = int_ptr_type(i8_type(compiler.context));
                let char_ptr_ptr_type = ptr_ptr_type(i8_ptr_type);
                let param_types = vec![ptr_as_basic(i8_ptr_type), ptr_as_basic(char_ptr_ptr_type)];
                let func_type = int_fn_type(i32_t, param_types.as_slice());
                proof {
                    reveal_strlit("spaceship_run_process");
                    assert(plain_symbol(runtime_entry()));
                }
                let spaceship_fn = match get_function(&compiler.module, "spaceship_run_process") {
                    Some(f) => f,
                    None => add_function(&mut compiler.module, "spaceship_run_process", func_type),
                };
                let command_ptr = match build_global_string_ptr(
                    &compiler.builder,
                    command.as_str(),
                    "command",
                ) {
                    Some(g) => global_pointer(g),
                    None => return None,
                };
                let args_ptr = const_null(char_ptr_ptr_type);
                let call_args = vec![ptr_value(command_ptr), args_ptr];
                match build_call(&compiler.builder, spaceship_fn, call_args.as_slice(), "run_process") {
                    Some(call_site) => call_value(call_site),
                    None => None,
                }
            },
            Expression::Pipeline { .. } => None,
            Expression::IndexAccess { .. } => None,
        }
    }
}

impl Statement {
    /// Lowers the statement. A declaration gets storage in the entry block of
    /// the function being built, stores its initial value there and binds its
    /// name; a function declaration becomes an LLVM function whose parameters
    /// are spilled to storage, whose body is lowered statement by statement
    /// and which returns nothing or zero. Directives and `check`/`except`
    /// blocks have no lowering. The result is the storage or the function's
    /// address.
    ///
    /// The contract states which statements cannot be lowered, the variables
    /// bound afterwards (the declared name to the returned storage; for a
    /// function, its parameters and what its body binds, replacing the
    /// bindings before), and that lowering a function adds a function to the
    /// module. The instructions built, the added function's name and
    /// signature, and whether LLVM accepts it are LLVM's and not stated.
    #[verifier::loop_isolation(false)]
    pub fn codegen<'ctx>(&self, compiler: &mut Compiler<'ctx>) -> (r: Option<BasicValueEnum<'ctx>>)
        requires
            old(compiler).wf(),
        ensures
            final(compiler).wf(),
            final(compiler).context == old(compiler).context,
            r matches Some(v) ==> v is PointerValue,
            match *self {
                Statement::VarDecl { name, var_type, initial_value } => {
                    &&& var_decl_unlowerable(var_type, initial_value) ==> r is None
                    &&& r is None ==> final(compiler).bindings() == old(compiler).bindings()
                    &&& r matches Some(BasicValueEnum::PointerValue(p))
                        ==> final(compiler).bindings() == old(compiler).bindings().insert(name@, p)
                },
                Statement::FnDecl { fn_name, args, return_type, body, .. } => {
                    &&& signature_unlowerable(args@, return_type) ==> (r is None && final(compiler).bindings() == old(compiler).bindings())
                    &&& (!signature_unlowerable(args@, return_type) && plain_symbol(fn_name@))
                        ==> exists|n: Seq<char>|
                        !module_functions(old(compiler).module).contains(n) && module_functions(final(compiler).module).contains(n)
                    &&& !signature_unlowerable(args@, return_type) ==> final(
                        compiler).bindings().dom().subset_of(
                        param_names(args@).union(names_bound_in(body@)),
                    )
                    &&& (r is Some && forall|i: int|
                        0 <= i < body@.len() ==> !(#[trigger] body@[i] is FnDecl)) ==> param_names(
                        args@,
                    ).subset_of(final(compiler).bindings().dom())
                },
                _ => r is None && *final(compiler) == *old(compiler),
            },
            module_functions(old(compiler).module).subset_of(
                module_functions(final(compiler).module),
            ),
            final(compiler).bindings().dom().subset_of(
                old(compiler).bindings().dom().union(names_bound_by(*self)),
            ),
            !(self is FnDecl) ==> old(compiler).bindings().dom().subset_of(
                final(compiler).bindings().dom(),
            ),
        decreases self,
    {
        match self {
            Statement::VarDecl { name, var_type, initial_value } => {
                let llvm_type = match compiler.type_to_llvm(var_type) {
                    Some(t) => t,
                    None => return None,
                };
                let current_block = match insert_block(&compiler.builder) {
                    Some(b) => b,
                    None => return None,
                };
                let current_function = match block_parent(current_block) {
                    Some(f) => f,
                    None => return None,
                };
                let variable = match compiler.create_entry_block_alloca(
                    current_function,
                    name.as_str(),
                    llvm_type,
                ) {
                    Some(v) => v,
                    None => return None,
                };
                match initial_value {
                    Some(expr) => {
                        let value = match expr.codegen(compiler) {
                            Some(v) => v,
                            None => return None,
                        };
                        build_store(&compiler.builder, variable, value);
                    },
                    None => {},
                }
                compiler.bind(name.clone(), variable);
                Some(ptr_value(variable))
            },
            Statement::FnDecl { fn_name, args, return_type: ret, body, .. } => {
                let mut arg_types: Vec<BasicTypeEnum<'ctx>> = Vec::new();
                let mut i: usize = 0;
                while i < args.len()
                    invariant
                        i <= args@.len(),
                        forall|j: int| 0 <= j < i ==> lowers(#[trigger] args@[j].var_type),
                    decreases args.len() - i,
                {
                    match compiler.type_to_llvm(&args[i].var_type) {
                        Some(t) => arg_types.push(t),
                        None => return None,
                    }
                    i = i + 1;
                }
                let fn_type = match ret {
                    Some(t) => match compiler.type_to_llvm(t) {
                        Some(BasicTypeEnum::IntType(it)) => int_fn_type(it, arg_types.as_slice()),
                        Some(BasicTypeEnum::FloatType(ft)) => float_fn_type(ft, arg_types.as_slice()),
                        Some(BasicTypeEnum::PointerType(pt)) => ptr_fn_type(pt, arg_types.as_slice()),
                        _ => return None,
                    },
                    None => void_fn_type(void_type(compiler.context), arg_types.as_slice()),
                };
                assert(!signature_unlowerable(args@, *ret));
                let ghost fns0 = module_functions(compiler.module);
                let function = add_function(&mut compiler.module, fn_name.as_str(), fn_type);
                let ghost added = choose|n: Seq<char>|
                    !fns0.contains(n) && module_functions(compiler.module).contains(n);
                proof {
                    if plain_symbol(fn_name@) {
                        let n = choose|n: Seq<char>|
                            !fns0.contains(n) && module_functions(compiler.module) == fns0.insert(n);
                        assert(module_functions(compiler.module).contains(n));
                    }
                }
                let entry = append_basic_block(compiler.context, function, "entry");
                position_at_end(&compiler.builder, entry);
                compiler.clear_names();
                let param_values = params(function);
                let mut index: usize = 0;
                while index < args.len()
                    invariant
                        compiler.context == old(compiler).context,
                        compiler.wf(),
                        index <= args@.len(),
                        compiler.bindings().dom() == param_names(args@.take(index as int)),
                        module_functions(old(compiler).module).subset_of(
                            module_functions(compiler.module),
                        ),
                        plain_symbol(fn_name@) ==> !module_functions(old(compiler).module).contains(
                            added,
                        ) && module_functions(compiler.module).contains(added),
                    decreases args.len() - index,
                {
                    if index >= param_values.len() {
                        return None;
                    }
                    let arg_value = param_values[index];
                    let arg_name = args[index].name.clone();
                    set_value_name(arg_value, arg_name.as_str());
                    let alloca = match compiler.create_entry_block_alloca(
                        function,
                        arg_name.as_str(),
                        type_of_value(arg_value),
                    ) {
                        Some(a) => a,
                        None => return None,
                    };
                    build_store(&compiler.builder, alloca, arg_value);
                    let ghost before = compiler.bindings().dom();
                    compiler.bind(arg_name, alloca);
                    proof {
                        let t0 = args@.take(index as int);
                        let t1 = args@.take(index + 1);
                        assert forall|n: Seq<char>| param_names(t1).contains(n) <==> param_names(
                            t0,
                        ).insert(args@[index as int].name@).contains(n) by {
                            if param_names(t1).contains(n) {
                                let j = choose|j: int| 0 <= j < t1.len() && #[trigger] t1[j].name@ == n;
                                if j < index {
                                    assert(t0[j] == t1[j]);
                                }
                            }
                            if param_names(t0).contains(n) {
                                let j = choose|j: int| 0 <= j < t0.len() && #[trigger] t0[j].name@ == n;
                                assert(t1[j] == t0[j]);
                            }
                            if n == args@[index as int].name@ {
                                assert(t1[index as int] == args@[index as int]);
                            }
                        }
                        assert(param_names(t1) =~= param_names(t0).insert(args@[index as int].name@));
                    }
                    index = index + 1;
                }
                assert(args@.take(args@.len() as int) =~= args@);
                let mut k: usize = 0;
                while k < body.len()
                    invariant
                        compiler.context == old(compiler).context,
                        compiler.wf(),
                        k <= body@.len(),
                        compiler.bindings().dom().subset_of(
                            param_names(args@).union(names_bound_in(body@.take(k as int))),
                        ),
                        (forall|i: int| 0 <= i < k ==> !(#[trigger] body@[i] is FnDecl)) ==> param_names(
                            args@,
                        ).subset_of(compiler.bindings().dom()),
                        module_functions(old(compiler).module).subset_of(
                            module_functions(compiler.module),
                        ),
                        plain_symbol(fn_name@) ==> !module_functions(old(compiler).module).contains(
                            added,
                        ) && module_functions(compiler.module).contains(added),
                    decreases body.len() - k,
                {
                    proof {
                        assert(decreases_to!(self => body@[k as int]));
                        lemma_names_bound_in_push(body@.take(k as int), body@[k as int]);
                        assert(body@.take(k + 1) =~= body@.take(k as int).push(body@[k as int]));
                    }
                    body[k].codegen(compiler);
                    k = k + 1;
                }
                assert(body@.take(body@.len() as int) =~= body@);
                if return_type(function_type(function)).is_none() {
                    build_return(&compiler.builder, None);
                } else {
                    let zero = const_zero(i32_type(compiler.context));
                    build_return(&compiler.builder, Some(zero));
                }
                if verify_function(function) {
                    Some(ptr_value(global_pointer(function_global(function))))
                } else {
                    None
                }
            },
            Statement::JitDirective(_) => None,
            Statement::CheckExcept { .. } => None,
        }
    }
}


// ---------------------------------------------------------------------------
// Copies of syntax trees.
// ---------------------------------------------------------------------------

/// A copy of a type.
fn copy_type(t: &TypeNode) -> (r: TypeNode)
    ensures
        r == *t,
    decreases t,
{
    match t {
        TypeNode::Bool => TypeNode::Bool,
        TypeNode::I8 => TypeNode::I8,
        TypeNode::I16 => TypeNode::I16,
        TypeNode::I32 => TypeNode::I32,
        TypeNode::I64 => TypeNode::I64,
        TypeNode::I128 => TypeNode::I128,
        TypeNode::F32 => TypeNode::F32,
        TypeNode::F64 => TypeNode::F64,
        TypeNode::U8Array => TypeNode::U8Array,
        TypeNode::Array(inner, n) => TypeNode::Array(Box::new(copy_type(inner)), *n),
        TypeNode::HashMap(k, v) => TypeNode::HashMap(Box::new(copy_type(k)), Box::new(copy_type(v))),
    }
}

/// A copy of an expression.
#[verifier::loop_isolation(false)]
fn copy_expr(e: &Expression) -> (r: Expression)
    ensures
        r@ == e@,
    decreases e,
{
    match e {
        Expression::IntegerLiteral(v) => Expression::IntegerLiteral(*v),
        Expression::StringLiteral(s) => Expression::StringLiteral(s.clone()),
        Expression::ProcessCall { command, args } => {
            let mut out: Vec<Expression> = Vec::new();
            let mut i: usize = 0;
            proof {
                assert(args@.take(0) =~= Seq::<Expression>::empty());
                assert(out@ =~= Seq::<Expression>::empty());
            }
            while i < args.len()
                invariant
                    i <= args@.len(),
                    exprs_view(out@) == exprs_view(args@.take(i as int)),
                decreases args.len() - i,
            {
                proof {
                    assert(decreases_to!(e => args@[i as int]));
                }
                let a = copy_expr(&args[i]);
                proof {
                    lemma_exprs_view_push(out@, a);
                    lemma_exprs_view_push(args@.take(i as int), args@[i as int]);
                    assert(args@.take(i + 1) =~= args@.take(i as int).push(args@[i as int]));
                }
                out.push(a);
                i = i + 1;
            }
            assert(args@.take(args@.len() as int) =~= args@);
            Expression::ProcessCall { command: command.clone(), args: out }
        },
        Expression::Pipeline { lhs, rhs } => Expression::Pipeline {
            lhs: Box::new(copy_expr(lhs)),
            rhs: Box::new(copy_expr(rhs)),
        },
        Expression::IndexAccess { aggregate, index } => Expression::IndexAccess {
            aggregate: Box::new(copy_expr(aggregate)),
            index: Box::new(copy_expr(index)),
        },
    }
}

/// A copy of a declaration.
fn copy_var_decl(d: &VarDecl) -> (r: VarDecl)
    ensures
        r@ == d@,
{
    VarDecl {
        name: d.name.clone(),
        var_type: copy_type(&d.var_type),
        initial_value: match &d.initial_value {
            Some(e) => Some(copy_expr(e)),
            None => None,
        },
    }
}

/// A copy of a list of statements.
#[verifier::loop_isolation(false)]
fn copy_stmts(s: &Vec<Statement>, Ghost(parent): Ghost<Statement>) -> (r: Vec<Statement>)
    requires
        forall|i: int| 0 <= i < s@.len() ==> decreases_to!(parent => #[trigger] s@[i]),
    ensures
        stmts_view(r@) == stmts_view(s@),
    decreases parent, 0int,
{
    let mut out: Vec<Statement> = Vec::new();
    let mut i: usize = 0;
    proof {
        assert(s@.take(0) =~= Seq::<Statement>::empty());
        assert(out@ =~= Seq::<Statement>::empty());
    }
    while i < s.len()
        invariant
            i <= s@.len(),
            stmts_view(out@) == stmts_view(s@.take(i as int)),
        decreases s.len() - i,
    {
        let x = copy_stmt(&s[i]);
        proof {
            lemma_stmts_view_push(out@, x);
            lemma_stmts_view_push(s@.take(i as int), s@[i as int]);
            assert(s@.take(i + 1) =~= s@.take(i as int).push(s@[i as int]));
        }
        out.push(x);
        i = i + 1;
    }
    assert(s@.take(s@.len() as int) =~= s@);
    out
}

/// A copy of a statement.
#[verifier::loop_isolation(false)]
fn copy_stmt(st: &Statement) -> (r: Statement)
    ensures
        r@ == st@,
    decreases st, 1int,
{
    match st {
        Statement::VarDecl { name, var_type, initial_value } => Statement::VarDecl {
            name: name.clone(),
            var_type: copy_type(var_type),
            initial_value: match initial_value {
                Some(e) => Some(copy_expr(e)),
                None => None,
            },
        },
        Statement::FnDecl { fn_name, args, return_type, is_error_contract, body } => {
            let mut new_args: Vec<VarDecl> = Vec::new();
            let mut i: usize = 0;
            proof {
                assert(args@.take(0) =~= Seq::<VarDecl>::empty());
                assert(new_args@ =~= Seq::<VarDecl>::empty());
            }
            while i < args.len()
                invariant
                    i <= args@.len(),
                    var_decls_view(new_args@) == var_decls_view(args@.take(i as int)),
                decreases args.len() - i,
            {
                let a = copy_var_decl(&args[i]);
                proof {
                    lemma_var_decls_view_push(new_args@, a);
                    lemma_var_decls_view_push(args@.take(i as int), args@[i as int]);
                    assert(args@.take(i + 1) =~= args@.take(i as int).push(args@[i as int]));
                }
                new_args.push(a);
                i = i + 1;
            }
            assert(args@.take(args@.len() as int) =~= args@);
            proof {
                assert forall|i: int| 0 <= i < body@.len() implies decreases_to!(
                    *st => #[trigger] body@[i]) by {
                    assert(decreases_to!(*st => body@[i]));
                }
            }
            Statement::FnDecl {
                fn_name: fn_name.clone(),
                args: new_args,
                return_type: match return_type {
                    Some(t) => Some(copy_type(t)),
                    None => None,
                },
                is_error_contract: *is_error_contract,
                body: copy_stmts(body, Ghost(*st)),
            }
        },
        Statement::JitDirective(path) => Statement::JitDirective(path.clone()),
        Statement::CheckExcept { check_block, except_block } => {
            proof {
                assert forall|i: int| 0 <= i < check_block@.len() implies decreases_to!(
                    *st => #[trigger] check_block@[i]) by {
                    assert(decreases_to!(*st => check_block@[i]));
                }
                assert forall|i: int| 0 <= i < except_block@.len() implies decreases_to!(
                    *st => #[trigger] except_block@[i]) by {
                    assert(decreases_to!(*st => except_block@[i]));
                }
            }
            Statement::CheckExcept {
                check_block: copy_stmts(check_block, Ghost(*st)),
                except_block: copy_stmts(except_block, Ghost(*st)),
            }
        },
    }
}

impl Clone for TypeNode {
    fn clone(&self) -> (r: Self)
        ensures
            r == *self,
    {
        copy_type(self)
    }
}

impl Clone for Expression {
    fn clone(&self) -> (r: Self)
        ensures
            r@ == self@,
    {
        copy_expr(self)
    }
}

impl Clone for VarDecl {
    fn clone(&self) -> (r: Self)
        ensures
            r@ == self@,
    {
        copy_var_decl(self)
    }
}

impl Clone for Statement {
    fn clone(&self) -> (r: Self)
        ensures
            r@ == self@,
    {
        copy_stmt(self)
    }
}

} // verus!
