use kingcobra::ast::{Expression, Program, Statement};
use kingcobra::builtins::inject_builtins;
use kingcobra::environment::Environment;
use kingcobra::evaluator::{
    eval_block_statement, eval_expression, eval_expression_bounded, eval_program, eval_statement,
    eval_statement_bounded, Machine, Outcome,
};
use kingcobra::host::{HostReply, HostRequest};
use kingcobra::lexer::Lexer;
use kingcobra::object::{HashKey, Object};
use kingcobra::parser::Parser;

fn parse_input(input: &str) -> Program {
    let lexer = Lexer::new(input);
    let mut parser = Parser::new(lexer);
    parser.parse_program()
}

fn test_eval(input: &str) -> Object {
    let program = parse_input(input);
    let mut m = Machine::new();
    let env = m.heap.add(Environment::new());
    let replies: Vec<HostReply> = Vec::new();
    match eval_program(&program, env, &mut m, &replies) {
        Outcome::Value(v) => v,
        other => panic!("evaluation of {:?} did not end with a value: {:?}", input, other),
    }
}

/// Runs a program with the builtins bound, answering each request with `answer` and running
/// the program again from the start with the longer log, as a host does.
fn run_hosted(input: &str, answer: &dyn Fn(&HostRequest) -> HostReply) -> (Outcome, Vec<HostRequest>) {
    let program = parse_input(input);
    let mut replies: Vec<HostReply> = Vec::new();
    let mut requests = Vec::new();
    loop {
        let mut m = Machine::new();
        let env = m.heap.add(Environment::new());
        inject_builtins(&mut m.heap, env);
        match eval_program(&program, env, &mut m, &replies) {
            Outcome::Request(r) => {
                replies.push(answer(&r));
                requests.push(r);
            }
            other => return (other, requests),
        }
    }
}

#[test]
fn test_eval_integer_expression() {
    let tests = vec![
        ("5", Object::Integer(5)),
        ("10", Object::Integer(10)),
        ("-5", Object::Integer(-5)),
        ("-10", Object::Integer(-10)),
        ("5 + 5 + 5 + 5 - 10", Object::Integer(10)),
        ("2 * 2 * 2 * 2 * 2", Object::Integer(32)),
        ("-50 + 100 + -50", Object::Integer(0)),
        ("5 * 2 + 10", Object::Integer(20)),
        ("5 + 2 * 10", Object::Integer(25)),
        ("20 + 2 * -10", Object::Integer(0)),
        ("50 / 2 * 2 + 10", Object::Integer(60)),
        ("2 * (5 + 10)", Object::Integer(30)),
        ("3 * 3 * 3 + 10", Object::Integer(37)),
        ("3 * (3 * 3) + 10", Object::Integer(37)),
        ("(5 + 10 * 2 + 15 / 3) * 2 + -10", Object::Integer(50)),
    ];

    for (input, expected) in tests {
        assert_eq!(test_eval(input), expected, "Failed on input: {}", input);
    }
}

#[test]
fn test_eval_boolean_expression() {
    let tests = vec![
        ("true", Object::Boolean(true)),
        ("false", Object::Boolean(false)),
        ("1 < 2", Object::Boolean(true)),
        ("1 > 2", Object::Boolean(false)),
        ("1 < 1", Object::Boolean(false)),
        ("1 > 1", Object::Boolean(false)),
        ("1 == 1", Object::Boolean(true)),
        ("1 != 1", Object::Boolean(false)),
        ("1 == 2", Object::Boolean(false)),
        ("1 != 2", Object::Boolean(true)),
        ("true == true", Object::Boolean(true)),
        ("false == false", Object::Boolean(true)),
        ("true == false", Object::Boolean(false)),
        ("true != false", Object::Boolean(true)),
        ("false != true", Object::Boolean(true)),
        ("(1 < 2) == true", Object::Boolean(true)),
        ("(1 < 2) == false", Object::Boolean(false)),
        ("(1 > 2) == true", Object::Boolean(false)),
        ("(1 > 2) == false", Object::Boolean(true)),
    ];

    for (input, expected) in tests {
        assert_eq!(test_eval(input), expected, "Failed on input: {}", input);
    }
}

#[test]
fn test_if_else_expressions() {
    let tests = vec![
        ("when true: return 10 done", Object::Integer(10)),
        ("when false: return 10 done", Object::Null),
        ("when 1: return 10 done", Object::Integer(10)),
        ("when 1 < 2: return 10 done", Object::Integer(10)),
        ("when 1 > 2: return 10 done", Object::Null),
        ("when 1 > 2: return 10 otherwise: return 20 done", Object::Integer(20)),
        ("when 1 < 2: return 10 otherwise: return 20 done", Object::Integer(10)),
    ];

    for (input, expected) in tests {
        assert_eq!(test_eval(input), expected, "Failed on input: {}", input);
    }
}

#[test]
fn evaluator_test_return_statements() {
    let tests = vec![
        ("return 10", Object::Integer(10)),
        ("return 10 return 9", Object::Integer(10)),
        ("return 2 * 5", Object::Integer(10)),
        ("9 return 2 * 5 9", Object::Integer(10)),
        (
            "when 10 > 1:
                when 10 > 1:
                    return 10
                done
                return 1
            done",
            Object::Integer(10),
        ),
    ];

    for (input, expected) in tests {
        assert_eq!(test_eval(input), expected, "Failed on input: {}", input);
    }
}

#[test]
fn test_error_handling() {
    let tests = vec![
        ("5 + true", "Type mismatch: Integer(5) and Boolean(true)"),
        ("5 + true return 5", "Type mismatch: Integer(5) and Boolean(true)"),
        ("-true", "Unknown operator: -Boolean(true)"),
        ("true + false", "Unknown operator: Plus for booleans"),
        ("foobar", "Identifier not found: foobar"),
    ];

    for (input, expected) in tests {
        let result = test_eval(input);
        if let Object::Error(msg) = result {
            assert_eq!(msg, expected);
        } else {
            panic!("Expected Error, got {:?}", result);
        }
    }
}

#[test]
fn evaluator_test_let_statements() {
    let tests = vec![
        ("let a = 5 a", Object::Integer(5)),
        ("let a = 5 * 5 a", Object::Integer(25)),
        ("let a = 5 let b = a b", Object::Integer(5)),
        ("let a = 5 let b = a let c = a + b + 5 c", Object::Integer(15)),
    ];

    for (input, expected) in tests {
        assert_eq!(test_eval(input), expected, "Failed on input: {}", input);
    }
}

#[test]
fn test_function_application() {
    let tests = vec![
        ("let identity = fn(x): return x done identity(5)", Object::Integer(5)),
        ("let identity = fn(x): return x done identity(identity(5))", Object::Integer(5)),
        ("let double = fn(x): return x * 2 done double(5)", Object::Integer(10)),
        ("let add = fn(x, y): return x + y done add(5, 5)", Object::Integer(10)),
        ("let add = fn(x, y): return x + y done add(5 + 5, add(5, 5))", Object::Integer(20)),
        ("fn(x): return x done(5)", Object::Integer(5)),
    ];

    for (input, expected) in tests {
        assert_eq!(test_eval(input), expected, "Failed on input: {}", input);
    }
}

#[test]
fn test_array_literals() {
    let input = "[1, 2 * 2, 3 + 3]";
    let evaluated = test_eval(input);
    if let Object::Array(elements) = evaluated {
        assert_eq!(elements.len(), 3);
        assert_eq!(elements[0], Object::Integer(1));
        assert_eq!(elements[1], Object::Integer(4));
        assert_eq!(elements[2], Object::Integer(6));
    } else {
        panic!("Expected Array, got {:?}", evaluated);
    }
}

#[test]
fn test_array_index_expressions() {
    let tests = vec![
        ("[1, 2, 3][0]", Object::Integer(1)),
        ("[1, 2, 3][1]", Object::Integer(2)),
        ("[1, 2, 3][2]", Object::Integer(3)),
        ("let my_array = [1, 2, 3] let i = 0 my_array[i]", Object::Integer(1)),
        ("[1, 2, 3][1 + 1]", Object::Integer(3)),
        ("let my_array = [1, 2, 3] my_array[2]", Object::Integer(3)),
        ("let my_array = [1, 2, 3] my_array[0] + my_array[1] + my_array[2]", Object::Integer(6)),
        ("let my_array = [1, 2, 3] let i = my_array[0] my_array[i]", Object::Integer(2)),
        ("[1, 2, 3][3]", Object::Null),
        ("[1, 2, 3][-1]", Object::Null),
    ];

    for (input, expected) in tests {
        assert_eq!(test_eval(input), expected, "Failed on input: {}", input);
    }
}

#[test]
fn test_hash_literals() {
    let input = r#"
    let two = "two"
    {
        "one": 10 - 9,
        two: 1 + 1,
        "thr" + "ee": 6 / 2,
        4: 4,
        true: 5,
        false: 6
    }
    "#;

    let evaluated = test_eval(input);
    if let Object::Hash(pairs) = evaluated {
        assert_eq!(pairs.len(), 6);

        assert_eq!(pairs.get(&HashKey::String("one".to_string())).unwrap(), &Object::Integer(1));
        assert_eq!(pairs.get(&HashKey::String("two".to_string())).unwrap(), &Object::Integer(2));
        assert_eq!(pairs.get(&HashKey::String("three".to_string())).unwrap(), &Object::Integer(3));
        assert_eq!(pairs.get(&HashKey::Integer(4)).unwrap(), &Object::Integer(4));
        assert_eq!(pairs.get(&HashKey::Boolean(true)).unwrap(), &Object::Integer(5));
        assert_eq!(pairs.get(&HashKey::Boolean(false)).unwrap(), &Object::Integer(6));
    } else {
        panic!("Expected Hash, got {:?}", evaluated);
    }
}

#[test]
fn test_hash_index_expressions() {
    let tests = vec![
        ("{\"foo\": 5}[\"foo\"]", Object::Integer(5)),
        ("{\"foo\": 5}[\"bar\"]", Object::Null),
        ("let key = \"foo\" {\"foo\": 5}[key]", Object::Integer(5)),
        ("{}[\"foo\"]", Object::Null),
        ("{5: 5}[5]", Object::Integer(5)),
        ("{true: 5}[true]", Object::Integer(5)),
        ("{false: 5}[false]", Object::Integer(5)),
    ];

    for (input, expected) in tests {
        assert_eq!(test_eval(input), expected, "Failed on input: {}", input);
    }
}

#[test]
fn test_while_loops() {
    let input = r#"
    let i = 0
    let sum = 0
    while i < 5:
        let i = i + 1
        let sum = sum + i
    done
    sum
    "#;

    assert_eq!(test_eval(input), Object::Integer(15));
}

#[test]
fn let_then_read_gives_the_value_bound() {
    assert_eq!(test_eval("let x = 3 * 4 x"), Object::Integer(12));
    assert_eq!(test_eval("let x = 1 let x = x + 1 x"), Object::Integer(2));
}

#[test]
fn empty_program_is_null() {
    assert_eq!(test_eval(""), Object::Null);
    assert_eq!(test_eval("let a = 1"), Object::Null);
}

#[test]
fn string_operations() {
    assert_eq!(test_eval("\"ab\" + \"cd\""), Object::String("abcd".to_string()));
    assert_eq!(test_eval("\"a\" == \"a\""), Object::Boolean(true));
    assert_eq!(test_eval("\"a\" != \"a\""), Object::Boolean(false));
    assert_eq!(test_eval("\"a\" - \"b\""), Object::Error("Unknown operator: Minus for strings".to_string()));
}

#[test]
fn division_by_zero_is_an_error() {
    assert_eq!(test_eval("5 / 0"), Object::Error("Division by zero".to_string()));
    assert_eq!(test_eval("7 / 2"), Object::Integer(3));
    assert_eq!(test_eval("-7 / 2"), Object::Integer(-3));
}

#[test]
fn overflow_crashes_as_rust_does() {
    let program = parse_input("9223372036854775807 + 1");
    let mut m = Machine::new();
    let env = m.heap.add(Environment::new());
    let replies: Vec<HostReply> = Vec::new();
    let out = eval_program(&program, env, &mut m, &replies);
    assert_eq!(out, Outcome::Crash("attempt to add with overflow".to_string()));
}

#[test]
fn index_errors() {
    assert_eq!(test_eval("1[0]"), Object::Error("Index operator not supported: Integer(1) [Integer(0)]".to_string()));
    assert!(matches!(test_eval("{1: 2}[[1]]"), Object::Error(_)));
    assert_eq!(test_eval("{1: 2}[[1]]"), Object::Error("Unusable as hash key: Array([Integer(1)])".to_string()));
}

#[test]
fn unusable_hash_key_is_an_error() {
    assert_eq!(test_eval("{[1]: 2}"), Object::Error("Unusable as hash key: Array([Integer(1)])".to_string()));
}

#[test]
fn calling_a_non_function_is_an_error() {
    assert_eq!(test_eval("5(1)"), Object::Error("Not a function or class: Integer(5)".to_string()));
}

#[test]
fn invalid_let_target_is_an_error() {
    assert_eq!(test_eval("let 5 = 1"), Object::Error("Invalid left-hand side of let statement: Integer(5)".to_string()));
}

#[test]
fn classes_instances_and_methods() {
    let input = r#"
    class Counter:
        let start = 5
        let get = fn(): return self.count done
    done
    let c = new Counter()
    let c.count = 41
    c.get() + 1
    "#;
    assert_eq!(test_eval(input), Object::Integer(42));
}

#[test]
fn instance_missing_property() {
    let input = "class A: let x = 1 done let a = new A() a.y";
    assert_eq!(test_eval(input), Object::Error("Instance has no property 'y'".to_string()));
}

#[test]
fn new_needs_a_class_instance() {
    assert_eq!(test_eval("new 5"), Object::Error("'new' can only be used with class instantiation, got Integer(5)".to_string()));
}

#[test]
fn print_requests_output() {
    let (out, requests) = run_hosted("print(1, \"a\", true)", &|_| HostReply::Done);
    assert_eq!(out, Outcome::Value(Object::Null));
    assert_eq!(requests, vec![HostRequest::Print("1 a true \n".to_string())]);
}

#[test]
fn len_counts_bytes() {
    let (out, requests) = run_hosted("len(\"héllo\")", &|_| HostReply::Done);
    assert_eq!(out, Outcome::Value(Object::Integer(6)));
    assert!(requests.is_empty());
    let (out, _) = run_hosted("len(1, 2)", &|_| HostReply::Done);
    assert_eq!(out, Outcome::Value(Object::Error("Wrong number of arguments for len. Got 2, expected 1".to_string())));
    let (out, _) = run_hosted("len(5)", &|_| HostReply::Done);
    assert_eq!(out, Outcome::Value(Object::Error("Argument to 'len' not supported: 5".to_string())));
}

#[test]
fn read_file_uses_the_reply() {
    let (out, requests) = run_hosted("read_file(\"a.txt\")", &|_| HostReply::Text("content".to_string()));
    assert_eq!(out, Outcome::Value(Object::String("content".to_string())));
    assert_eq!(requests, vec![HostRequest::ReadFile("a.txt".to_string())]);
    let (out, _) = run_hosted("read_file(\"a.txt\")", &|_| HostReply::Failure("gone".to_string()));
    assert_eq!(out, Outcome::Value(Object::Error("Failed to read file a.txt: gone".to_string())));
    let (out, _) = run_hosted("read_file(1)", &|_| HostReply::Done);
    assert_eq!(out, Outcome::Value(Object::Error("Argument to read_file must be a string".to_string())));
}

#[test]
fn write_file_uses_the_reply() {
    let (out, requests) = run_hosted("write_file(\"o.txt\", \"hi\")", &|_| HostReply::Done);
    assert_eq!(out, Outcome::Value(Object::Boolean(true)));
    assert_eq!(requests, vec![HostRequest::WriteFile("o.txt".to_string(), "hi".to_string())]);
    let (out, _) = run_hosted("write_file(\"o.txt\")", &|_| HostReply::Done);
    assert_eq!(out, Outcome::Value(Object::Error("Wrong number of arguments for write_file. Got 1, expected 2".to_string())));
}

#[test]
fn time_and_random_use_the_clock_reply() {
    let (out, requests) = run_hosted("time()", &|_| HostReply::Number(1700000000));
    assert_eq!(out, Outcome::Value(Object::Integer(1700000000)));
    assert_eq!(requests, vec![HostRequest::Time]);
    // (n ^ (n << 13) ^ (n >> 7)) % 1000000, made non-negative
    let n: i64 = 123456789;
    let expected = ((n ^ (n << 13) ^ (n >> 7)) % 1000000).abs();
    let (out, requests) = run_hosted("random()", &|_| HostReply::Number(123456789));
    assert_eq!(out, Outcome::Value(Object::Integer(expected)));
    assert_eq!(requests, vec![HostRequest::Random]);
    let (out, _) = run_hosted("random()", &|_| HostReply::Failure("clock".to_string()));
    assert_eq!(out, Outcome::Value(Object::Integer(42)));
}

#[test]
fn import_binds_a_module() {
    let (out, requests) = run_hosted("let m = import \"m.kc\" m.twice(m.answer)", &|_| {
        HostReply::Module(parse_input("let answer = 42 let twice = fn(x): return x * 2 done"))
    });
    assert_eq!(out, Outcome::Value(Object::Integer(84)));
    assert_eq!(requests, vec![HostRequest::Import("m.kc".to_string())]);
}

#[test]
fn import_failures_are_errors() {
    let (out, _) = run_hosted("import \"x.kc\"", &|_| HostReply::Failure("No such file".to_string()));
    assert_eq!(out, Outcome::Value(Object::Error("Failed to read imported file 'x.kc': No such file".to_string())));
    let (out, _) = run_hosted("import 5", &|_| HostReply::Done);
    assert_eq!(out, Outcome::Value(Object::Error("Import path must be a string, got Integer(5)".to_string())));
}

#[test]
fn longer_log_gives_the_same_run() {
    let program = parse_input("let t = time() t + 1");
    let run = |replies: &Vec<HostReply>| {
        let mut m = Machine::new();
        let env = m.heap.add(Environment::new());
        inject_builtins(&mut m.heap, env);
        let out = eval_program(&program, env, &mut m, replies);
        (out, m.used)
    };
    // with no reply the run asks for the clock, having used the whole (empty) log
    assert_eq!(run(&vec![]), (Outcome::Request(HostRequest::Time), 0));
    // with the reply it ends; a longer log changes nothing
    assert_eq!(run(&vec![HostReply::Number(5)]), (Outcome::Value(Object::Integer(6)), 1));
    assert_eq!(
        run(&vec![HostReply::Number(5), HostReply::Number(99)]),
        (Outcome::Value(Object::Integer(6)), 1)
    );
}

#[test]
fn errors_in_arguments_stop_the_call() {
    assert_eq!(test_eval("let f = fn(x): return x done f(1 + true)"), Object::Error("Type mismatch: Integer(1) and Boolean(true)".to_string()));
    assert_eq!(test_eval("[1, foo, 3]"), Object::Error("Identifier not found: foo".to_string()));
}

#[test]
fn while_stops_on_return_and_errors() {
    assert_eq!(test_eval("let f = fn(): while true: return 7 done done f()"), Object::Integer(7));
    assert_eq!(test_eval("while 1 + true: 1 done"), Object::Error("Type mismatch: Integer(1) and Boolean(true)".to_string()));
    assert_eq!(test_eval("while false: 1 done"), Object::Null);
}

#[test]
fn import_parse_errors_are_reported() {
    let (out, _) = run_hosted("import \"bad.kc\"", &|_| HostReply::ModuleErrors(vec!["e1".to_string(), "e2".to_string()]));
    assert_eq!(
        out,
        Outcome::Value(Object::Error("Failed to parse imported file 'bad.kc': [\"e1\", \"e2\"]".to_string()))
    );
}

#[test]
fn functions_see_the_callers_scope() {
    // names in a function body are looked up where the function is called
    let input = "let x = 1 let f = fn(): return x done let g = fn(x): return f() done g(5)";
    assert_eq!(test_eval(input), Object::Integer(5));
    assert_eq!(test_eval("let x = 1 let f = fn(): return x done f()"), Object::Integer(1));
    // a parameter named twice takes the later argument
    assert_eq!(test_eval("let f = fn(a, a): return a done f(1, 2)"), Object::Integer(2));
    // missing arguments leave the parameter unbound
    assert_eq!(test_eval("let f = fn(a, b): return b done f(1)"), Object::Error("Identifier not found: b".to_string()));
}

#[test]
fn statement_block_and_expression_entry_points() {
    let mut m = Machine::new();
    let env = m.heap.add(Environment::new());
    let replies: Vec<HostReply> = Vec::new();
    let bind = Statement::Let { name: Expression::Identifier("a".to_string()), value: Expression::Integer(3) };
    assert_eq!(eval_statement(&bind, env, &mut m, &replies), Outcome::Value(Object::Null));
    assert_eq!(
        eval_expression(&Expression::Identifier("a".to_string()), env, &mut m, &replies),
        Outcome::Value(Object::Integer(3))
    );
    // a block hands a `return` on still wrapped
    let block = vec![
        Statement::Expression(Expression::Integer(1)),
        Statement::Return(Expression::Integer(2)),
        Statement::Expression(Expression::Integer(3)),
    ];
    assert_eq!(
        eval_block_statement(&block, env, &mut m, &replies),
        Outcome::Value(Object::ReturnValue(Box::new(Object::Integer(2))))
    );
    // a program unwraps it
    let program = Program { statements: block };
    assert_eq!(eval_program(&program, env, &mut m, &replies), Outcome::Value(Object::Integer(2)));
}

#[test]
fn bounded_evaluation_runs_out_of_fuel() {
    let mut m = Machine::new();
    let env = m.heap.add(Environment::new());
    let replies: Vec<HostReply> = Vec::new();
    let e = Expression::Integer(1);
    assert_eq!(eval_expression_bounded(0, &e, env, &mut m, &replies), Outcome::OutOfFuel);
    assert_eq!(eval_expression_bounded(1, &e, env, &mut m, &replies), Outcome::Value(Object::Integer(1)));
    let program = parse_input("while true: 1 done");
    let mut statements = program.statements;
    let s = statements.remove(0);
    assert_eq!(
        eval_statement_bounded(1000, &s, env, &mut m, &replies),
        Outcome::OutOfFuel
    );
}

#[test]
fn an_error_in_a_subterm_is_the_value() {
    let missing = Object::Error("Identifier not found: nope".to_string());
    for input in ["nope + undefined_too", "-nope", "nope[1]", "nope(1, undefined_too)", "[nope, undefined_too]", "when nope: 1 done", "nope.x"] {
        assert_eq!(test_eval(input), missing, "Failed on input: {}", input);
    }
}

#[test]
fn block_directly_and_as_statement_agree() {
    let block = vec![
        Statement::Let { name: Expression::Identifier("a".to_string()), value: Expression::Integer(4) },
        Statement::Expression(Expression::Identifier("a".to_string())),
    ];
    let replies: Vec<HostReply> = Vec::new();
    let mut m1 = Machine::new();
    let e1 = m1.heap.add(Environment::new());
    let direct = eval_block_statement(&block, e1, &mut m1, &replies);
    let mut m2 = Machine::new();
    let e2 = m2.heap.add(Environment::new());
    let as_statement = eval_statement(&Statement::Block(block), e2, &mut m2, &replies);
    assert_eq!(direct, Outcome::Value(Object::Integer(4)));
    assert_eq!(direct, as_statement);
}

#[test]
fn error_messages_write_hashes_as_maps() {
    assert_eq!(
        test_eval("{1: 2} + 1"),
        Object::Error("Type mismatch: Hash({Integer(1): Integer(2)}) and Integer(1)".to_string())
    );
    assert_eq!(
        test_eval("{\"a\": [true]}[{}]"),
        Object::Error("Unusable as hash key: Hash({})".to_string())
    );
}

#[test]
fn error_messages_write_scopes_by_their_contents() {
    assert_eq!(
        test_eval("class A: let x = 1 done A + 1"),
        Object::Error(
            "Type mismatch: Class { name: \"A\", environment: RefCell { value: Environment { store: {\"x\": Integer(1)}, outer: None } } } and Integer(1)".to_string()
        )
    );
    assert_eq!(
        test_eval("class A: let x = 1 done let a = new A() let b = -a"),
        Object::Error(
            "Unknown operator: -Instance { class_name: \"A\", class_env: RefCell { value: Environment { store: {\"x\": Integer(1)}, outer: None } }, instance_env: RefCell { value: Environment { store: {}, outer: None } } }".to_string()
        )
    );
}
