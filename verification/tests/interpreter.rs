use minibasic::ast::{Expr, Op, Stmt};
use minibasic::exec::ExecError;
use minibasic::parse_line;
use minibasic::store::{Builtin, CommandTable, InternalCommand, LineStore, VarStore};

fn state() -> (VarStore, LineStore, CommandTable) {
    (VarStore::new(), LineStore::new(), CommandTable::with_builtins())
}

fn run(line: &str, vars: &mut VarStore, lines: &mut LineStore, cmds: &CommandTable) -> Result<Vec<String>, ExecError> {
    let stmt = parse_line::input(line).expect("line should parse");
    stmt.exec(vars, lines, cmds)
}

#[test]
fn store_line_parses_verbatim() {
    let stmt = parse_line::input("5x=1\n").unwrap();
    assert_eq!(
        stmt,
        Stmt::Line {
            index: 5,
            line: "x=1".to_string()
        }
    );
}

#[test]
fn store_line_keeps_whitespace() {
    let stmt = parse_line::input("10  print x \n").unwrap();
    assert_eq!(
        stmt,
        Stmt::Line {
            index: 10,
            line: "  print x ".to_string()
        }
    );
}

#[test]
fn store_line_max_index() {
    let stmt = parse_line::input("9223372036854775807rem\n").unwrap();
    assert_eq!(
        stmt,
        Stmt::Line {
            index: i64::MAX,
            line: "rem".to_string()
        }
    );
}

#[test]
fn overflowing_index_is_syntax_error() {
    assert!(parse_line::input("9223372036854775808\n").is_err());
}

#[test]
fn empty_line_is_syntax_error() {
    assert!(parse_line::input("\n").is_err());
    assert!(parse_line::input("   \n").is_err());
}

#[test]
fn line_without_newline_is_syntax_error() {
    assert!(parse_line::input("x=1").is_err());
}

#[test]
fn syntax_error_carries_input() {
    let err = parse_line::input("?nope\n").unwrap_err();
    assert_eq!(err.input, "?nope\n");
    assert_eq!(err.at, 0);
}

#[test]
fn list_is_descending_round_trip() {
    let (mut vars, mut lines, cmds) = state();
    run("5x=1\n", &mut vars, &mut lines, &cmds).unwrap();
    run("3y=2\n", &mut vars, &mut lines, &cmds).unwrap();
    let out = run("list\n", &mut vars, &mut lines, &cmds).unwrap();
    assert_eq!(out, vec!["5x=1".to_string(), "3y=2".to_string()]);
}

#[test]
fn list_overwrites_equal_index() {
    let (mut vars, mut lines, cmds) = state();
    run("5old\n", &mut vars, &mut lines, &cmds).unwrap();
    run("5new\n", &mut vars, &mut lines, &cmds).unwrap();
    let out = run("list\n", &mut vars, &mut lines, &cmds).unwrap();
    assert_eq!(out, vec!["5new".to_string()]);
}

#[test]
fn variable_lookup_empty_env_fails() {
    let vars = VarStore::new();
    let expr = Expr::Var("z".to_string());
    assert_eq!(expr.eval(&vars), None);
}

#[test]
fn assign_then_lookup_succeeds() {
    let (mut vars, mut lines, cmds) = state();
    let stmt = Stmt::Assign {
        name: "z".to_string(),
        value: Expr::Num(7),
    };
    stmt.exec(&mut vars, &mut lines, &cmds).unwrap();
    assert_eq!(Expr::Var("z".to_string()).eval(&vars), Some(7));
}

#[test]
fn comparison_binds_tighter_than_addition() {
    let stmt = parse_line::input("a=1<2+3\n").unwrap();
    assert_eq!(
        stmt,
        Stmt::Assign {
            name: "a".to_string(),
            value: Expr::BinOp {
                op: Op::Add,
                left: Box::new(Expr::BinOp {
                    op: Op::LT,
                    left: Box::new(Expr::Num(1)),
                    right: Box::new(Expr::Num(2)),
                }),
                right: Box::new(Expr::Num(3)),
            },
        }
    );
    let (mut vars, mut lines, cmds) = state();
    stmt.exec(&mut vars, &mut lines, &cmds).unwrap();
    assert_eq!(Expr::Var("a".to_string()).eval(&vars), Some(4));
}

#[test]
fn parentheses_override_precedence() {
    let (mut vars, mut lines, cmds) = state();
    run("x=(1+2)*3\n", &mut vars, &mut lines, &cmds).unwrap();
    assert_eq!(Expr::Var("x".to_string()).eval(&vars), Some(9));
}

#[test]
fn conditional_false_skips_then_true_runs() {
    let (mut vars, mut lines, cmds) = state();
    run("a=0\n", &mut vars, &mut lines, &cmds).unwrap();
    let stmt = Stmt::If {
        cond: Expr::Var("a".to_string()),
        iftrue: Box::new(Stmt::Assign {
            name: "b".to_string(),
            value: Expr::Num(9),
        }),
    };
    stmt.exec(&mut vars, &mut lines, &cmds).unwrap();
    assert_eq!(vars.get(&"b".to_string()), None);
    run("a=5\n", &mut vars, &mut lines, &cmds).unwrap();
    stmt.exec(&mut vars, &mut lines, &cmds).unwrap();
    assert_eq!(vars.get(&"b".to_string()), Some(9));
}

#[test]
fn negative_condition_counts_as_true() {
    let (mut vars, mut lines, cmds) = state();
    run("a=0-1\n", &mut vars, &mut lines, &cmds).unwrap();
    run("if a then b=1\n", &mut vars, &mut lines, &cmds).unwrap();
    assert_eq!(vars.get(&"b".to_string()), Some(1));
}

#[test]
fn conditional_undefined_variable_reports() {
    let (mut vars, mut lines, cmds) = state();
    let r = run("if q then b=1\n", &mut vars, &mut lines, &cmds);
    assert_eq!(r, Err(ExecError::UndefinedVariable));
    assert_eq!(vars.get(&"b".to_string()), None);
}

#[test]
fn undefined_command_leaves_stores_unchanged() {
    let (mut vars, mut lines, cmds) = state();
    run("x=1\n", &mut vars, &mut lines, &cmds).unwrap();
    run("7line\n", &mut vars, &mut lines, &cmds).unwrap();
    let r = run("nosuch 1 2\n", &mut vars, &mut lines, &cmds);
    assert_eq!(r, Err(ExecError::UndefinedCommand));
    assert_eq!(vars.get(&"x".to_string()), Some(1));
    let out = run("list\n", &mut vars, &mut lines, &cmds).unwrap();
    assert_eq!(out, vec!["7line".to_string()]);
}

#[test]
fn print_no_arguments_emits_empty_line() {
    let (mut vars, mut lines, cmds) = state();
    let out = run("print\n", &mut vars, &mut lines, &cmds).unwrap();
    assert_eq!(out, vec![String::new()]);
}

#[test]
fn print_joins_with_spaces() {
    let (mut vars, mut lines, cmds) = state();
    run("x=4\n", &mut vars, &mut lines, &cmds).unwrap();
    let out = run("print 1 x 2*3\n", &mut vars, &mut lines, &cmds).unwrap();
    assert_eq!(out, vec!["1 4 6".to_string()]);
}

#[test]
fn print_is_all_or_nothing() {
    let (mut vars, mut lines, cmds) = state();
    let r = run("print 1 q\n", &mut vars, &mut lines, &cmds);
    assert_eq!(r, Err(ExecError::EvaluationError));
}

#[test]
fn print_negative_value() {
    let (mut vars, mut lines, cmds) = state();
    let out = run("print 0-5\n", &mut vars, &mut lines, &cmds).unwrap();
    assert_eq!(out, vec!["-5".to_string()]);
}

#[test]
fn argument_count_is_enforced() {
    let (mut vars, mut lines, mut cmds) = state();
    cmds.register(
        "pair".to_string(),
        InternalCommand {
            func: Builtin::Print,
            argl: 2,
        },
    );
    let one = run("pair 1\n", &mut vars, &mut lines, &cmds);
    assert_eq!(one, Err(ExecError::ArgumentCountMismatch));
    let three = run("pair 1 2 3\n", &mut vars, &mut lines, &cmds);
    assert_eq!(three, Err(ExecError::ArgumentCountMismatch));
    let two = run("pair 1 2\n", &mut vars, &mut lines, &cmds).unwrap();
    assert_eq!(two, vec!["1 2".to_string()]);
}

#[test]
fn list_rejects_arguments() {
    let (mut vars, mut lines, cmds) = state();
    let r = run("list 1\n", &mut vars, &mut lines, &cmds);
    assert_eq!(r, Err(ExecError::ArgumentCountMismatch));
}

#[test]
fn division_truncates_toward_zero() {
    let (mut vars, mut lines, cmds) = state();
    run("x=0-7\n", &mut vars, &mut lines, &cmds).unwrap();
    run("y=x/2\n", &mut vars, &mut lines, &cmds).unwrap();
    assert_eq!(vars.get(&"y".to_string()), Some(-3));
    run("z=7/2\n", &mut vars, &mut lines, &cmds).unwrap();
    assert_eq!(vars.get(&"z".to_string()), Some(3));
}

#[test]
fn division_by_zero_is_evaluation_failure() {
    let (mut vars, mut lines, cmds) = state();
    let r = run("x=1/0\n", &mut vars, &mut lines, &cmds);
    assert_eq!(r, Err(ExecError::UndefinedVariable));
    assert_eq!(vars.get(&"x".to_string()), None);
}

#[test]
fn addition_wraps() {
    let (mut vars, mut lines, cmds) = state();
    run("x=9223372036854775807+1\n", &mut vars, &mut lines, &cmds).unwrap();
    assert_eq!(vars.get(&"x".to_string()), Some(i64::MIN));
}

#[test]
fn assign_failure_leaves_env_unchanged() {
    let (mut vars, mut lines, cmds) = state();
    run("x=1\n", &mut vars, &mut lines, &cmds).unwrap();
    let r = run("x=q+1\n", &mut vars, &mut lines, &cmds);
    assert_eq!(r, Err(ExecError::UndefinedVariable));
    assert_eq!(vars.get(&"x".to_string()), Some(1));
}

#[test]
fn nested_conditionals_parse_and_run() {
    let (mut vars, mut lines, cmds) = state();
    run("if 1 then if 2 then x=3\n", &mut vars, &mut lines, &cmds).unwrap();
    assert_eq!(vars.get(&"x".to_string()), Some(3));
}

#[test]
fn tab_does_not_separate_arguments() {
    assert!(parse_line::input("print 1\t2\n").is_err());
}

#[test]
fn keyword_prefix_names_fall_back_to_assignment() {
    let stmt = parse_line::input("iff=1\n").unwrap();
    assert_eq!(
        stmt,
        Stmt::Assign {
            name: "iff".to_string(),
            value: Expr::Num(1),
        }
    );
}

#[test]
fn comparisons_yield_exactly_zero_or_one() {
    let vars = VarStore::new();
    let gt = Expr::BinOp {
        op: Op::GT,
        left: Box::new(Expr::Num(5)),
        right: Box::new(Expr::Num(2)),
    };
    assert_eq!(gt.eval(&vars), Some(1));
    let lt = Expr::BinOp {
        op: Op::LT,
        left: Box::new(Expr::Num(5)),
        right: Box::new(Expr::Num(2)),
    };
    assert_eq!(lt.eval(&vars), Some(0));
}

#[test]
fn negative_index_lists_with_sign() {
    let (mut vars, mut lines, cmds) = state();
    let stmt = Stmt::Line {
        index: -2,
        line: "t".to_string(),
    };
    stmt.exec(&mut vars, &mut lines, &cmds).unwrap();
    let out = run("list\n", &mut vars, &mut lines, &cmds).unwrap();
    assert_eq!(out, vec!["-2t".to_string()]);
}

#[test]
fn registry_lookup_follows_registration() {
    let mut cmds = CommandTable::new();
    assert_eq!(cmds.get(&"print".to_string()), None);
    cmds.register(
        "print".to_string(),
        InternalCommand {
            func: Builtin::Print,
            argl: -1,
        },
    );
    assert_eq!(
        cmds.get(&"print".to_string()),
        Some(InternalCommand {
            func: Builtin::Print,
            argl: -1,
        })
    );
}

#[test]
fn nested_statement_may_be_a_stored_line() {
    let (mut vars, mut lines, cmds) = state();
    run("if 1 then 5foo\n", &mut vars, &mut lines, &cmds).unwrap();
    let out = run("list\n", &mut vars, &mut lines, &cmds).unwrap();
    assert_eq!(out, vec!["5foo".to_string()]);
}

#[test]
fn zero_index_stores_empty_text() {
    let stmt = parse_line::input("0\n").unwrap();
    assert_eq!(
        stmt,
        Stmt::Line {
            index: 0,
            line: String::new()
        }
    );
}

#[test]
fn surrounding_whitespace_is_skipped() {
    let stmt = parse_line::input("  x = 1  \n").unwrap();
    assert_eq!(
        stmt,
        Stmt::Assign {
            name: "x".to_string(),
            value: Expr::Num(1),
        }
    );
}

#[test]
fn print_large_values_format_exactly() {
    let (mut vars, mut lines, cmds) = state();
    let out = run("print 9223372036854775807 0-9223372036854775807-1\n", &mut vars, &mut lines, &cmds)
        .unwrap();
    assert_eq!(
        out,
        vec!["9223372036854775807 -9223372036854775808".to_string()]
    );
}
