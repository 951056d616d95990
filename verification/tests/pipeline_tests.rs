use c4_rust::instruction::Instruction;
use c4_rust::parser::{CompileError, Parser};
use c4_rust::vm::{OutputItem, RuntimeError, Value, VM};
use std::collections::HashMap;

fn arity_by_entry(parser: &Parser) -> HashMap<usize, usize> {
    let mut m: HashMap<usize, usize> = HashMap::new();
    for (name, addr) in parser.functions.iter() {
        let mut arity: usize = 0;
        for (n2, k) in parser.function_arity.iter() {
            if n2 == name {
                arity = *k;
            }
        }
        m.insert(*addr, arity);
    }
    m
}

fn compile(source: &str) -> Parser {
    let mut parser = Parser::new(source);
    parser.parse().expect("compilation failed");
    parser
}

fn run_and_return(source: &str) -> i64 {
    let parser = compile(source);
    let mut vm = VM::new(arity_by_entry(&parser));
    for _ in 0..parser.locals.len() {
        vm.stack.push(Value::Int(0));
    }
    vm.run(&parser.code)
        .expect("execution failed")
        .expect("VM did not return a value")
}

fn compile_err(source: &str) -> CompileError {
    let mut parser = Parser::new(source);
    parser.parse().expect_err("compilation unexpectedly succeeded")
}

fn run_err(source: &str) -> RuntimeError {
    let parser = compile(source);
    let mut vm = VM::new(arity_by_entry(&parser));
    for _ in 0..parser.locals.len() {
        vm.stack.push(Value::Int(0));
    }
    vm.run(&parser.code)
        .expect_err("execution unexpectedly succeeded")
}

#[test]
fn recompiling_identical_source_is_deterministic() {
    let source = r#"
        int add(int a, int b) {
            return a + b ? a : b * 2;
        }

        int main() {
            int x;
            x = 4;
            while (x) x = x - 1;
            return add(7, 5);
        }
    "#;
    let p1 = compile(source);
    let p2 = compile(source);
    assert_eq!(p1.code, p2.code);
    assert_eq!(p1.functions, p2.functions);
    assert_eq!(p1.function_arity, p2.function_arity);
    assert_eq!(p1.locals, p2.locals);
    assert_eq!(p1.main_label, p2.main_label);
}

#[test]
fn while_loop_accumulates() {
    let src = r#"
    {
        int n, sum;
        n = 5;
        sum = 0;
        while (n) {
            sum = sum + n;
            n = n - 1;
        }
        return sum;
    }
    "#;
    assert_eq!(run_and_return(src), 15);
}

#[test]
fn recursion_through_call_frames() {
    let src = r#"
        int sum(int n) {
            if (n) return n + sum(n - 1);
            return 0;
        }

        int main() {
            return sum(3);
        }
    "#;
    let parser = compile(src);
    let mut vm = VM::new(arity_by_entry(&parser));
    let main_ip = parser.main_label.expect("no main entry");
    let result = vm.run_from(&parser.code, main_ip).expect("execution failed");
    assert_eq!(result, Some(6));
}

#[test]
fn argument_order_is_left_to_right() {
    let src = r#"
        int sub(int a, int b) {
            return a - b;
        }

        int main() {
            return sub(10, 4);
        }
    "#;
    let parser = compile(src);
    let mut vm = VM::new(arity_by_entry(&parser));
    let main_ip = parser.main_label.expect("no main entry");
    assert_eq!(vm.run_from(&parser.code, main_ip).unwrap(), Some(6));
}

#[test]
fn modulo_and_division() {
    assert_eq!(run_and_return("{ return 7 % 3; }"), 1);
    assert_eq!(run_and_return("{ return 7 / 2; }"), 3);
    assert_eq!(run_and_return("{ return -7 / 2; }"), -3);
}

#[test]
fn char_literal_value() {
    assert_eq!(run_and_return("{ return 'a'; }"), 97);
}

#[test]
fn ternary_skips_untaken_branch_side_effects() {
    let src = r#"
    {
        int x;
        x = 0;
        return 1 ? 10 : x = 99;
    }
    "#;
    assert_eq!(run_and_return(src), 10);
}

#[test]
fn top_level_declaration_without_block() {
    let src = r#"
        int x;
        { x = 5; return x + 1; }
    "#;
    assert_eq!(run_and_return(src), 6);
}

#[test]
fn print_collects_output() {
    let src = r#"
    {
        print(1 + 2);
        print("done");
        return 0;
    }
    "#;
    let parser = compile(src);
    let mut vm = VM::new(arity_by_entry(&parser));
    for _ in 0..parser.locals.len() {
        vm.stack.push(Value::Int(0));
    }
    let result = vm.run(&parser.code).expect("execution failed");
    assert_eq!(result, Some(0));
    assert_eq!(
        vm.output,
        vec![
            OutputItem::Num(3),
            OutputItem::Text("done".to_string()),
        ]
    );
}

#[test]
fn division_by_zero_is_fatal() {
    assert_eq!(run_err("{ return 1 / 0; }"), RuntimeError::DivisionByZero);
    assert_eq!(run_err("{ return 1 % 0; }"), RuntimeError::DivisionByZero);
}

#[test]
fn out_of_range_shift_is_fatal() {
    assert_eq!(run_err("{ return 1 << 64; }"), RuntimeError::InvalidShift);
}

#[test]
fn undefined_variable_is_a_compile_error() {
    assert_eq!(
        compile_err("{ return nope + 1; }"),
        CompileError::UndefinedVariable
    );
}

#[test]
fn unknown_function_is_a_compile_error() {
    assert_eq!(
        compile_err("int main() { return missing(); }"),
        CompileError::UnknownFunction
    );
}

#[test]
fn missing_semicolon_is_a_compile_error() {
    assert_eq!(
        compile_err("{ return 1 }"),
        CompileError::ExpectedSemicolonAfterReturn
    );
}

#[test]
fn float_literal_is_a_compile_error() {
    assert_eq!(
        compile_err("{ return 1.5; }"),
        CompileError::FloatLiteralUnsupported
    );
}

#[test]
fn string_value_is_a_compile_error() {
    assert_eq!(
        compile_err(r#"{ return "abc"; }"#),
        CompileError::StringLiteralUnsupported
    );
}

#[test]
fn logical_or_is_an_unsupported_infix_operator() {
    assert_eq!(
        compile_err("{ return 1 || 0; }"),
        CompileError::UnsupportedInfixOperator
    );
}

#[test]
fn sizeof_pointer_width() {
    assert_eq!(run_and_return("{ return sizeof(int*); }"), 8);
}

#[test]
fn exit_sentinel_closes_every_program() {
    let parser = compile("{ return 1; }");
    assert!(parser.code.len() > 0);
    assert_eq!(
        parser.code[parser.code.len() - 1],
        Instruction::Label(usize::MAX)
    );
}

#[test]
fn wrapping_addition_matches_two_complement() {
    assert_eq!(
        run_and_return("{ return 9223372036854775807 + 1; }"),
        i64::MIN
    );
}
