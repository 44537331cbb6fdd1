use aguda_rs::codegen::codegen::{
    Action, Arith, CodeGen, CodegenError, Global, LowType, Operand, Place, Predicate, Returns,
    Signature,
};
use aguda_rs::compile_aguda_program;

fn generate(src: &str) -> Result<CodeGen, CodegenError> {
    let (program, _) = compile_aguda_program(src).unwrap();
    let mut generator = CodeGen::new();
    generator.gen_program(&program)?;
    Ok(generator)
}

fn name(s: &str) -> String {
    s.to_string()
}

#[test]
fn main_prints_a_sum_and_returns_zero() {
    let generator = generate("let main(_) : (Unit) -> Unit = print(1+2*3)").unwrap();
    assert_eq!(
        generator.signatures,
        vec![Signature {
            name: name("main"),
            params: vec![LowType::Unit],
            result: Returns::Status
        }]
    );
    assert_eq!(
        generator.bodies,
        vec![vec![
            Action::AppendBlock { name: name("entry") },
            Action::PositionAtEnd { block: 0 },
            Action::Arith {
                op: Arith::Mul,
                lhs: Operand::ConstInt(2),
                rhs: Operand::ConstInt(3),
                name: name("mul")
            },
            Action::Arith {
                op: Arith::Add,
                lhs: Operand::ConstInt(1),
                rhs: Operand::Temp(2),
                name: name("add")
            },
            Action::Call {
                callee: name("__print_int__"),
                args: vec![Operand::Temp(3)],
                name: name("call")
            },
            Action::Return { value: Some(Operand::ConstInt(0)) },
        ]]
    );
}

#[test]
fn print_goes_by_the_type_of_its_argument() {
    let callee = |src: &str| {
        let generator = generate(src).unwrap();
        generator.bodies[0]
            .iter()
            .find_map(|a| match a {
                Action::Call { callee, .. } => Some(callee.clone()),
                _ => None,
            })
            .unwrap()
    };
    assert_eq!(callee("let main(_) : (Unit) -> Unit = print(true)"), "__print_bool__");
    assert_eq!(callee("let main(_) : (Unit) -> Unit = print(unit)"), "__print_unit__");
    assert_eq!(callee("let main(_) : (Unit) -> Unit = print(7)"), "__print_int__");
}

#[test]
fn and_skips_its_right_operand_with_a_branch() {
    let generator = generate("let main(_) : (Unit) -> Unit = print(false && true)").unwrap();
    assert_eq!(
        generator.bodies[0],
        vec![
            Action::AppendBlock { name: name("entry") },
            Action::PositionAtEnd { block: 0 },
            Action::AppendBlock { name: name("rhs") },
            Action::AppendBlock { name: name("merge") },
            Action::CondBranch {
                cond: Operand::ConstBool(false),
                then_block: 2,
                else_block: 3
            },
            Action::PositionAtEnd { block: 2 },
            Action::Branch { target: 3 },
            Action::PositionAtEnd { block: 3 },
            Action::Phi {
                ty: LowType::I1,
                first: (Operand::ConstBool(false), 0),
                second: (Operand::ConstBool(true), 2),
                name: name("logical_op")
            },
            Action::Call {
                callee: name("__print_bool__"),
                args: vec![Operand::Temp(8)],
                name: name("call")
            },
            Action::Return { value: Some(Operand::ConstInt(0)) },
        ]
    );
}

#[test]
fn or_branches_on_the_negated_left_operand() {
    let generator = generate("let main(_) : (Unit) -> Unit = print(true || false)").unwrap();
    assert_eq!(
        generator.bodies[0][4],
        Action::Not { value: Operand::ConstBool(true), name: name("not") }
    );
    assert_eq!(
        generator.bodies[0][5],
        Action::CondBranch { cond: Operand::Temp(4), then_block: 2, else_block: 3 }
    );
}

#[test]
fn a_loop_branches_back_to_its_condition() {
    let src = "let main(_) : (Unit) -> Unit = let x:Int=0; while x<3 do set x = x+1";
    let generator = generate(src).unwrap();
    assert_eq!(
        generator.bodies[0],
        vec![
            Action::AppendBlock { name: name("entry") },
            Action::PositionAtEnd { block: 0 },
            Action::Alloca { ty: LowType::I32, name: name("x") },
            Action::Store { place: Place::Local(2), value: Operand::ConstInt(0) },
            Action::AppendBlock { name: name("cond") },
            Action::AppendBlock { name: name("body") },
            Action::AppendBlock { name: name("after") },
            Action::Branch { target: 4 },
            Action::PositionAtEnd { block: 4 },
            Action::Load { ty: LowType::I32, place: Place::Local(2), name: name("x") },
            Action::Compare {
                pred: Predicate::SLT,
                lhs: Operand::Temp(9),
                rhs: Operand::ConstInt(3),
                name: name("lt")
            },
            Action::Compare {
                pred: Predicate::NE,
                lhs: Operand::Temp(10),
                rhs: Operand::ConstBool(false),
                name: name("while_cond")
            },
            Action::CondBranch { cond: Operand::Temp(11), then_block: 5, else_block: 6 },
            Action::PositionAtEnd { block: 5 },
            Action::Load { ty: LowType::I32, place: Place::Local(2), name: name("x") },
            Action::Arith {
                op: Arith::Add,
                lhs: Operand::Temp(14),
                rhs: Operand::ConstInt(1),
                name: name("add")
            },
            Action::Store { place: Place::Local(2), value: Operand::Temp(15) },
            Action::Branch { target: 4 },
            Action::PositionAtEnd { block: 6 },
            Action::Return { value: Some(Operand::ConstInt(0)) },
        ]
    );
}

#[test]
fn functions_are_declared_before_any_body() {
    let src = "let f(n):(Int)->Int = if n<=1 then n else f(n-1)+f(n-2) \
               let main(_):(Unit)->Unit = print(f(10)) \
               let limit : Int = 5 \
               let quiet(b):(Bool)->Unit = unit";
    let generator = generate(src).unwrap();
    let names: Vec<&str> = generator.signatures.iter().map(|s| s.name.as_str()).collect();
    assert_eq!(names, vec!["f", "main", "quiet"]);
    assert_eq!(generator.signatures[0].result, Returns::Value(LowType::I32));
    assert_eq!(generator.signatures[2].result, Returns::Void);
    assert_eq!(
        generator.globals,
        vec![Global { name: name("limit"), ty: LowType::I32, init: Operand::ConstInt(5) }]
    );
    assert_eq!(generator.bodies.len(), 3);
    let f = &generator.bodies[0];
    assert_eq!(f[2], Action::Alloca { ty: LowType::I32, name: name("n") });
    assert_eq!(f[3], Action::Store { place: Place::Local(2), value: Operand::Param(0) });
    assert!(matches!(f.last(), Some(Action::Return { value: Some(Operand::Temp(_)) })));
    assert_eq!(generator.bodies[2].last(), Some(&Action::Return { value: None }));
}

#[test]
fn division_and_power_call_the_runtime() {
    let generator = generate("let main(_) : (Unit) -> Unit = print(7 / 2 ^ 3 % 4)").unwrap();
    let calls: Vec<String> = generator.bodies[0]
        .iter()
        .filter_map(|a| match a {
            Action::Call { callee, .. } => Some(callee.clone()),
            _ => None,
        })
        .collect();
    assert_eq!(calls, vec!["__pow__", "__div__", "__print_int__"]);
}

#[test]
fn arrays_and_strings_are_refused() {
    assert_eq!(
        generate("let main(_) : (Unit) -> Unit = print(\"hi\")").err(),
        Some(CodegenError::UnsupportedExpression)
    );
    assert_eq!(
        generate("let main(_) : (Unit) -> Unit = let a : Int[] = new Int[3 | 0]; unit").err(),
        Some(CodegenError::UnsupportedExpression)
    );
    assert_eq!(
        generate("let f(a) : (Int[]) -> Int = 1 let main(_) : (Unit) -> Unit = unit").err(),
        Some(CodegenError::UnsupportedType)
    );
    assert_eq!(
        generate("let g : Int = 1 + 2 let main(_) : (Unit) -> Unit = print(g)").err(),
        Some(CodegenError::UnsupportedGlobal)
    );
}

#[test]
fn generating_twice_gives_the_same_plan() {
    let src = "let main(_):(Unit)->Unit = let y:Int=0; true && (set y=y+1; true); print(y)";
    let first = generate(src).unwrap();
    let second = generate(src).unwrap();
    assert_eq!(first.bodies, second.bodies);
    assert_eq!(first.signatures, second.signatures);
}

fn generate_unchecked(src: &str) -> Result<CodeGen, CodegenError> {
    let tokens = aguda_rs::syntax::lexer::Lexer::new(src).tokenize().unwrap();
    let program = aguda_rs::syntax::parser::Parser::new(tokens).parse().unwrap();
    let mut generator = CodeGen::new();
    generator.gen_program(&program)?;
    Ok(generator)
}

#[test]
fn unchecked_programs_are_refused_with_the_reason() {
    assert_eq!(
        generate_unchecked("let main(_) : (Unit) -> Unit = print(x)").err(),
        Some(CodegenError::UndefinedVariable(name("x")))
    );
    assert_eq!(
        generate_unchecked("let main(_) : (Unit) -> Unit = missing(1)").err(),
        Some(CodegenError::UndefinedFunction(name("missing")))
    );
    assert_eq!(
        generate_unchecked("let main(_) : (Unit) -> Unit = print(!unit)").err(),
        Some(CodegenError::InvalidOperand)
    );
    assert_eq!(
        generate_unchecked("let main(_) : (Unit) -> Unit = print()").err(),
        Some(CodegenError::InvalidOperand)
    );
}

#[test]
fn a_conditional_joins_its_branches_in_a_phi() {
    let generator = generate("let main(_) : (Unit) -> Unit = print(if true then 1 else 2)").unwrap();
    assert_eq!(
        generator.bodies[0],
        vec![
            Action::AppendBlock { name: name("entry") },
            Action::PositionAtEnd { block: 0 },
            Action::AppendBlock { name: name("then") },
            Action::AppendBlock { name: name("else") },
            Action::AppendBlock { name: name("merge") },
            Action::Compare {
                pred: Predicate::NE,
                lhs: Operand::ConstBool(true),
                rhs: Operand::ConstBool(false),
                name: name("if_cond")
            },
            Action::CondBranch { cond: Operand::Temp(5), then_block: 2, else_block: 3 },
            Action::PositionAtEnd { block: 2 },
            Action::Branch { target: 4 },
            Action::PositionAtEnd { block: 3 },
            Action::Branch { target: 4 },
            Action::PositionAtEnd { block: 4 },
            Action::Phi {
                ty: LowType::I32,
                first: (Operand::ConstInt(1), 2),
                second: (Operand::ConstInt(2), 3),
                name: name("phi")
            },
            Action::Call {
                callee: name("__print_int__"),
                args: vec![Operand::Temp(12)],
                name: name("call")
            },
            Action::Return { value: Some(Operand::ConstInt(0)) },
        ]
    );
}

#[test]
fn a_global_is_read_through_its_place() {
    let generator =
        generate("let g : Int = 4 let main(_) : (Unit) -> Unit = set g = g + 1").unwrap();
    assert_eq!(
        generator.bodies[0][2],
        Action::Load { ty: LowType::I32, place: Place::Global(0), name: name("g") }
    );
    assert_eq!(
        generator.bodies[0][4],
        Action::Store { place: Place::Global(0), value: Operand::Temp(3) }
    );
}
