use inkwell::context::Context;
use inkwell::types::AnyType;
use inkwell::values::BasicValueEnum;
use orbit::ast::{Expression, Statement, TypeNode, VarDecl};
use orbit::codegen::compiler::{CodegenError, Compiler};
use orbit::engine::jit::JitEngine;
use orbit::engine::target::TargetManager;
use orbit::frontend::ast::ASTNode;
use orbit::passes::manager::OptimizationManager;

fn main_with(body: Vec<Statement>) -> Statement {
    Statement::FnDecl {
        fn_name: "main".to_string(),
        args: vec![],
        return_type: None,
        is_error_contract: false,
        body,
    }
}

#[test]
fn integer_literal_lowers_to_an_integer_constant() {
    let context = Context::create();
    let mut compiler = Compiler::new(&context);
    let value = Expression::IntegerLiteral(42).codegen(&mut compiler);
    match value {
        Some(BasicValueEnum::IntValue(v)) => {
            assert_eq!(v.get_zero_extended_constant(), Some(42));
            assert_eq!(v.get_type().get_bit_width(), 64);
        }
        other => panic!("expected an integer constant, got {:?}", other),
    }
}

#[test]
fn pipelines_and_index_accesses_have_no_lowering() {
    let context = Context::create();
    let mut compiler = Compiler::new(&context);
    let pipeline = Expression::Pipeline {
        lhs: Box::new(Expression::IntegerLiteral(1)),
        rhs: Box::new(Expression::IntegerLiteral(2)),
    };
    let index = Expression::IndexAccess {
        aggregate: Box::new(Expression::StringLiteral("ab".to_string())),
        index: Box::new(Expression::IntegerLiteral(0)),
    };
    assert!(pipeline.codegen(&mut compiler).is_none());
    assert!(index.codegen(&mut compiler).is_none());
}

#[test]
fn string_literal_needs_a_positioned_builder() {
    let context = Context::create();
    let mut compiler = Compiler::new(&context);
    let text = Expression::StringLiteral("hello".to_string());
    assert!(text.codegen(&mut compiler).is_none());
}

#[test]
fn function_with_declaration_is_lowered() {
    let context = Context::create();
    let mut compiler = Compiler::new(&context);
    let program = main_with(vec![Statement::VarDecl {
        name: "answer".to_string(),
        var_type: TypeNode::I64,
        initial_value: Some(Expression::IntegerLiteral(42)),
    }]);
    let result = program.codegen(&mut compiler);
    assert!(matches!(result, Some(BasicValueEnum::PointerValue(_))));
    assert!(compiler.verify().is_ok());
    let ir = compiler.print_ir();
    assert!(ir.contains("define void @main()"));
    assert!(ir.contains("%answer = alloca i64"));
    assert!(ir.contains("store i64 42"));
    assert!(ir.contains("ret void"));
    assert_eq!(compiler.named_values.len(), 1);
    assert_eq!(compiler.named_values[0].0, "answer");
}

#[test]
fn parameters_are_spilled_and_bound() {
    let context = Context::create();
    let mut compiler = Compiler::new(&context);
    let function = Statement::FnDecl {
        fn_name: "add".to_string(),
        args: vec![
            VarDecl { name: "a".to_string(), var_type: TypeNode::I32, initial_value: None },
            VarDecl { name: "b".to_string(), var_type: TypeNode::I32, initial_value: None },
        ],
        return_type: Some(TypeNode::I32),
        is_error_contract: false,
        body: vec![],
    };
    assert!(function.codegen(&mut compiler).is_some());
    let ir = compiler.print_ir();
    assert!(ir.contains("define i32 @add(i32 %a, i32 %b)"));
    assert!(ir.contains("ret i32 0"));
    let names: Vec<&str> = compiler.named_values.iter().map(|(n, _)| n.as_str()).collect();
    assert_eq!(names, vec!["a", "b"]);
}

#[test]
fn rebinding_a_name_keeps_one_binding() {
    let context = Context::create();
    let mut compiler = Compiler::new(&context);
    let program = main_with(vec![
        Statement::VarDecl { name: "x".to_string(), var_type: TypeNode::I64, initial_value: None },
        Statement::VarDecl { name: "x".to_string(), var_type: TypeNode::I8, initial_value: None },
    ]);
    assert!(program.codegen(&mut compiler).is_some());
    assert_eq!(compiler.named_values.len(), 1);
}

#[test]
fn unlowerable_signatures_give_nothing() {
    let context = Context::create();
    let mut compiler = Compiler::new(&context);
    let map_arg = Statement::FnDecl {
        fn_name: "f".to_string(),
        args: vec![VarDecl {
            name: "m".to_string(),
            var_type: TypeNode::HashMap(Box::new(TypeNode::I32), Box::new(TypeNode::I32)),
            initial_value: None,
        }],
        return_type: None,
        is_error_contract: false,
        body: vec![],
    };
    let array_return = Statement::FnDecl {
        fn_name: "g".to_string(),
        args: vec![],
        return_type: Some(TypeNode::Array(Box::new(TypeNode::I8), 4)),
        is_error_contract: false,
        body: vec![],
    };
    assert!(map_arg.codegen(&mut compiler).is_none());
    assert!(array_return.codegen(&mut compiler).is_none());
    assert!(!compiler.print_ir().contains("define"));
}

#[test]
fn declarations_outside_a_function_give_nothing() {
    let context = Context::create();
    let mut compiler = Compiler::new(&context);
    let decl = Statement::VarDecl {
        name: "x".to_string(),
        var_type: TypeNode::I32,
        initial_value: None,
    };
    assert!(decl.codegen(&mut compiler).is_none());
    assert!(compiler.named_values.is_empty());
    assert!(Statement::JitDirective("deploy.sh".to_string()).codegen(&mut compiler).is_none());
    let check = Statement::CheckExcept { check_block: vec![], except_block: vec![] };
    assert!(check.codegen(&mut compiler).is_none());
}

#[test]
fn types_lower_to_their_llvm_types() {
    let context = Context::create();
    let compiler = Compiler::new(&context);
    let show = |t: TypeNode| compiler.type_to_llvm(&t).map(|t| t.print_to_string().to_string());
    assert_eq!(show(TypeNode::Bool), Some("i1".to_string()));
    assert_eq!(show(TypeNode::I16), Some("i16".to_string()));
    assert_eq!(show(TypeNode::I128), Some("i128".to_string()));
    assert_eq!(show(TypeNode::F32), Some("float".to_string()));
    assert_eq!(show(TypeNode::F64), Some("double".to_string()));
    assert_eq!(show(TypeNode::U8Array), Some("i8*".to_string()));
    assert_eq!(
        show(TypeNode::Array(Box::new(TypeNode::I32), 3)),
        Some("[3 x i32]".to_string())
    );
    assert_eq!(show(TypeNode::HashMap(Box::new(TypeNode::I8), Box::new(TypeNode::I8))), None);
    assert_eq!(
        show(TypeNode::Array(
            Box::new(TypeNode::HashMap(Box::new(TypeNode::I8), Box::new(TypeNode::I8))),
            2
        )),
        None
    );
}

#[test]
fn compile_lowers_a_program() {
    let context = Context::create();
    let mut compiler = Compiler::new(&context);
    let program = vec![main_with(vec![Statement::VarDecl {
        name: "answer".to_string(),
        var_type: TypeNode::I64,
        initial_value: Some(Expression::IntegerLiteral(42)),
    }])];
    assert!(compiler.compile(&program).is_ok());
    assert!(compiler.print_ir().contains("@main"));
}

#[test]
fn front_end_declarations_of_unsupported_types_are_refused() {
    let context = Context::create();
    let mut compiler = Compiler::new(&context);
    let nodes = vec![ASTNode::VarDecl {
        name: "s".to_string(),
        is_mut: false,
        declared_type: "[u8]".to_string(),
        initial_value: None,
    }];
    assert_eq!(compiler.compile_module(&nodes), Err(CodegenError::UnsupportedType));
}

#[test]
fn front_end_declarations_need_a_positioned_builder() {
    let context = Context::create();
    let mut compiler = Compiler::new(&context);
    let nodes = vec![ASTNode::VarDecl {
        name: "n".to_string(),
        is_mut: true,
        declared_type: "i32".to_string(),
        initial_value: Some(Box::new(ASTNode::IntegerLiteral(7))),
    }];
    assert_eq!(compiler.compile_module(&nodes), Err(CodegenError::Builder));
}

#[test]
fn front_end_nodes_other_than_declarations_are_passed_over() {
    let context = Context::create();
    let mut compiler = Compiler::new(&context);
    let nodes = vec![ASTNode::IntegerLiteral(1), ASTNode::JitDirective("x.sh".to_string())];
    assert_eq!(compiler.compile_module(&nodes), Ok(()));
    assert!(compiler.named_values.is_empty());
}

#[test]
fn target_machine_for_the_host() {
    assert!(TargetManager::new().is_ok());
}

#[test]
fn jit_engine_and_passes_take_a_module() {
    let context = Context::create();
    let mut compiler = Compiler::new(&context);
    let program = main_with(vec![]);
    assert!(program.codegen(&mut compiler).is_some());
    let passes = OptimizationManager::new(&compiler.module);
    let main = compiler.module.get_function("main").unwrap();
    passes.optimize_function(main);
    assert!(JitEngine::new(compiler.module).is_ok());
}

#[test]
fn process_call_calls_the_runtime() {
    let context = Context::create();
    let mut compiler = Compiler::new(&context);
    let program = main_with(vec![Statement::VarDecl {
        name: "status".to_string(),
        var_type: TypeNode::I32,
        initial_value: Some(Expression::ProcessCall { command: "ls".to_string(), args: vec![] }),
    }]);
    assert!(program.codegen(&mut compiler).is_some());
    let ir = compiler.print_ir();
    assert!(ir.contains("declare i32 @spaceship_run_process(i8*, i8**)"));
    assert!(ir.contains("call i32 @spaceship_run_process("));
    assert!(ir.contains("i8** null"));
    assert!(ir.contains("c\"ls\\00\""));
}

#[test]
fn function_declaration_adds_the_function_and_binds_exactly_its_parameters() {
    let context = Context::create();
    let mut compiler = Compiler::new(&context);
    let function = Statement::FnDecl {
        fn_name: "count".to_string(),
        args: vec![
            VarDecl { name: "n".to_string(), var_type: TypeNode::I64, initial_value: None },
            VarDecl { name: "flag".to_string(), var_type: TypeNode::Bool, initial_value: None },
        ],
        return_type: None,
        is_error_contract: false,
        body: vec![],
    };
    assert!(function.codegen(&mut compiler).is_some());
    let added = compiler.module.get_function("count").unwrap();
    assert_eq!(added.count_params(), 2);
    assert!(added.get_type().get_return_type().is_none());
    let mut names: Vec<&str> = compiler.named_values.iter().map(|(n, _)| n.as_str()).collect();
    names.sort();
    assert_eq!(names, vec!["flag", "n"]);
}

#[test]
fn compile_module_with_no_declarations_succeeds() {
    let context = Context::create();
    let mut compiler = Compiler::new(&context);
    assert_eq!(compiler.compile_module(&[]), Ok(()));
}
