//! The execution engine: performs one statement's effect on the variable
//! environment and the line registry, dispatching invocations through the
//! command table.
//!
//! Execution computes the lines that belong on the output channel and
//! returns them; it never prints. A failure is returned as an [`ExecError`]
//! for the caller's diagnostic channel, and every failure leaves the
//! variable environment and the stored lines unchanged.

use vstd::prelude::*;
use crate::ast::{expr_model, expr_models, Expr, ExprModel, Stmt, StmtModel};
use crate::decimal::dec_string;
use crate::eval::spec_eval;
use crate::store::{line_insert, Builtin, CommandTable, InternalCommand, LineStore, VarStore};

verus! {

/// The failures execution can report, one per diagnostic kind.
#[derive(Debug, Clone, Copy, PartialEq, Eq)]
pub enum ExecError {
    /// An expression referenced a name with no binding, or a division had
    /// no defined result.
    UndefinedVariable,
    /// An invocation named a command that is not registered.
    UndefinedCommand,
    /// A non-variadic command was invoked with the wrong argument count.
    ArgumentCountMismatch,
    /// At least one argument of `print` failed to evaluate.
    EvaluationError,
}

/// The character sequences that a vector of output strings stands for.
pub open spec fn strings_view(xs: Seq<String>) -> Seq<Seq<char>> {
    xs.map_values(|x: String| x@)
}

/// The values of a sequence of expressions, or `None` if any fails;
/// operands are tried in order.
pub open spec fn spec_eval_all(items: Seq<ExprModel>, env: Map<Seq<char>, i64>) -> Option<Seq<i64>>
    decreases items.len(),
{
    if items.len() == 0 {
        Some(Seq::<i64>::empty())
    } else {
        match spec_eval(items[0], env) {
            Some(v) => match spec_eval_all(items.drop_first(), env) {
                Some(rest) => Some(seq![v] + rest),
                None => None,
            },
            None => None,
        }
    }
}

/// The decimal forms of `vals`, joined by single spaces, in order.
pub open spec fn joined_dec(vals: Seq<i64>) -> Seq<char>
    decreases vals.len(),
{
    if vals.len() == 0 {
        Seq::<char>::empty()
    } else if vals.len() == 1 {
        dec_string(vals[0] as int)
    } else {
        joined_dec(vals.drop_last()) + seq![' '] + dec_string(vals.last() as int)
    }
}

/// The listing of stored lines: each rendered as its decimal index
/// immediately followed by the text captured at store time.
pub open spec fn listing_of(lines: Seq<(i64, Seq<char>)>) -> Seq<Seq<char>> {
    lines.map_values(|p: (i64, Seq<char>)| dec_string(p.0 as int) + p.1)
}

/// One step of the interpreter: the environment, the stored lines and the
/// output (or diagnostic) that executing a statement produces.
pub open spec fn spec_exec(
    s: StmtModel,
    env: Map<Seq<char>, i64>,
    lines: Seq<(i64, Seq<char>)>,
    cmds: Map<Seq<char>, InternalCommand>,
) -> (Map<Seq<char>, i64>, Seq<(i64, Seq<char>)>, Result<Seq<Seq<char>>, ExecError>)
    decreases s,
{
    match s {
        StmtModel::Line { index, line } => (
            env,
            line_insert(lines, index, line),
            Ok(Seq::<Seq<char>>::empty()),
        ),
        StmtModel::Assign { name, value } => match spec_eval(value, env) {
            Some(v) => (env.insert(name, v), lines, Ok(Seq::<Seq<char>>::empty())),
            None => (env, lines, Err(ExecError::UndefinedVariable)),
        },
        StmtModel::If { cond, iftrue } => match spec_eval(cond, env) {
            Some(v) => if v != 0 {
                spec_exec(*iftrue, env, lines, cmds)
            } else {
                (env, lines, Ok(Seq::<Seq<char>>::empty()))
            },
            None => (env, lines, Err(ExecError::UndefinedVariable)),
        },
        StmtModel::Command { command_name, items } => if cmds.contains_key(command_name) {
            let c = cmds[command_name];
            if c.argl != -1 && c.argl as int != items.len() as int {
                (env, lines, Err(ExecError::ArgumentCountMismatch))
            } else {
                match c.func {
                    Builtin::Print => match spec_eval_all(items, env) {
                        Some(vals) => (env, lines, Ok(seq![joined_dec(vals)])),
                        None => (env, lines, Err(ExecError::EvaluationError)),
                    },
                    Builtin::List => (env, lines, Ok(listing_of(lines))),
                }
            }
        } else {
            (env, lines, Err(ExecError::UndefinedCommand))
        },
    }
}

/// Splitting a sequence of arguments splits its evaluation: the whole
/// succeeds exactly when both halves do, and the values concatenate.
pub proof fn lemma_eval_all_append(a: Seq<ExprModel>, b: Seq<ExprModel>, env: Map<Seq<char>, i64>)
    ensures
        spec_eval_all(a + b, env) == match spec_eval_all(a, env) {
            Some(va) => match spec_eval_all(b, env) {
                Some(vb) => Some(va + vb),
                None => None::<Seq<i64>>,
            },
            None => None::<Seq<i64>>,
        },
    decreases a.len(),
{
    if a.len() == 0 {
        assert(a + b =~= b);
        if spec_eval_all(b, env) is Some {
            assert(Seq::<i64>::empty() + spec_eval_all(b, env)->0 =~= spec_eval_all(b, env)->0);
        }
    } else {
        lemma_eval_all_append(a.drop_first(), b, env);
        let s = a + b;
        assert(s.len() > 0);
        assert(s[0] == a[0]);
        assert(s.drop_first() =~= a.drop_first() + b);
        if spec_eval(a[0], env) is Some && spec_eval_all(a.drop_first(), env) is Some
            && spec_eval_all(b, env) is Some {
            let v = spec_eval(a[0], env)->0;
            let va = spec_eval_all(a.drop_first(), env)->0;
            let vb = spec_eval_all(b, env)->0;
            assert(seq![v] + (va + vb) =~= (seq![v] + va) + vb);
        }
    }
}

/// The computing half of the `print` built-in: evaluates every argument
/// and, if all succeed, renders the results space-joined in order.
pub fn command_print(variable: &VarStore, args: &Vec<Expr>) -> (r: Result<String, ExecError>)
    ensures
        ({
            let models = expr_models(args@);
            match spec_eval_all(models, variable@) {
                Some(vals) => r matches Ok(out) && out@ == joined_dec(vals),
                None => r == Err::<String, ExecError>(ExecError::EvaluationError),
            }
        }),
{
    let ghost models = expr_models(args@);
    let mut vals: Vec<i64> = Vec::new();
    let mut i: usize = 0;
    while i < args.len()
        invariant
            i <= args.len(),
            models == expr_models(args@),
            spec_eval_all(models.take(i as int), variable@) == Some(vals@),
        decreases args.len() - i,
    {
        match args[i].eval(variable) {
            Some(v) => {
                let ghost prev = vals@;
                vals.push(v);
                proof {
                    let m = models[i as int];
                    assert(m == expr_model(args@[i as int]));
                    let t = models.take(i as int + 1);
                    assert(t =~= models.take(i as int) + seq![m]);
                    lemma_eval_all_append(models.take(i as int), seq![m], variable@);
                    assert(seq![m][0] == m);
                    assert(spec_eval(m, variable@) == Some(v));
                    assert(seq![m].drop_first() =~= Seq::<ExprModel>::empty());
                    assert(spec_eval_all(Seq::<ExprModel>::empty(), variable@) == Some(
                        Seq::<i64>::empty(),
                    ));
                    assert(seq![v] + Seq::<i64>::empty() =~= seq![v]);
                    assert(spec_eval_all(seq![m], variable@) == Some(seq![v]));
                    assert(vals@ =~= prev + seq![v]);
                }
            },
            None => {
                proof {
                    assert(models[i as int] == expr_model(args@[i as int]));
                    assert(models =~= models.take(i as int) + models.skip(i as int));
                    lemma_eval_all_append(models.take(i as int), models.skip(i as int), variable@);
                    assert(models.skip(i as int)[0] == models[i as int]);
                    assert(spec_eval_all(models.skip(i as int), variable@) is None);
                }
                return Err(ExecError::EvaluationError);
            },
        }
        i = i + 1;
    }
    proof {
        assert(models.take(args@.len() as int) =~= models);
    }
    Ok(render_joined(&vals))
}

/// Renders evaluated values space-joined in their decimal form.
fn render_joined(vals: &Vec<i64>) -> (out: String)
    ensures
        out@ == joined_dec(vals@),
{
    let mut out = String::new();
    let mut j: usize = 0;
    while j < vals.len()
        invariant
            j <= vals.len(),
            out@ == joined_dec(vals@.take(j as int)),
        decreases vals.len() - j,
    {
        if j > 0 {
            proof {
                reveal_strlit(" ");
            }
            out.append(" ");
            proof {
                assert(" "@ =~= seq![' ']);
            }
        }
        let d = crate::decimal::i64_dec_string(vals[j]);
        out.append(d.as_str());
        proof {
            let t = vals@.take(j + 1 as int);
            assert(t.drop_last() =~= vals@.take(j as int));
            assert(t.last() == vals@[j as int]);
            if j == 0 {
                assert(out@ =~= dec_string(vals@[0] as int));
            }
        }
        j = j + 1;
    }
    proof {
        assert(vals@.take(vals@.len() as int) =~= vals@);
    }
    out
}

/// The computing half of the `list` built-in: every stored line, rendered
/// in descending index order.
pub fn command_list(lines: &LineStore) -> (r: Vec<String>)
    ensures
        strings_view(r@) == listing_of(lines.lines_seq()),
{
    let r = lines.listing();
    proof {
        assert(strings_view(r@) =~= listing_of(lines.lines_seq()));
    }
    r
}

impl Stmt {
    /// Performs the statement's effect on the interpreter state and returns
    /// the lines it emits, or the failure to report; exactly as the ghost
    /// interpreter [`spec_exec`] prescribes.
    pub fn exec(&self, variable: &mut VarStore, lines: &mut LineStore, command: &CommandTable) -> (r:
        Result<Vec<String>, ExecError>)
        requires
            old(lines).wf(),
        ensures
            final(lines).wf(),
            ({
                let (env2, lines2, res) = spec_exec(
                    self@,
                    old(variable)@,
                    old(lines).lines_seq(),
                    command@,
                );
                &&& final(variable)@ == env2
                &&& final(lines).lines_seq() == lines2
                &&& match r {
                    Ok(out) => res matches Ok(sout) && strings_view(out@) == sout,
                    Err(e) => res == Err::<Seq<Seq<char>>, ExecError>(e),
                }
            }),
        decreases *self,
    {
        match self {
            Stmt::Line { index, line } => {
                lines.insert(*index, line.clone());
                let out: Vec<String> = Vec::new();
                proof {
                    assert(strings_view(out@) =~= Seq::<Seq<char>>::empty());
                }
                Ok(out)
            },
            Stmt::Assign { name, value } => match value.eval(variable) {
                Some(v) => {
                    variable.insert(name.clone(), v);
                    let out: Vec<String> = Vec::new();
                    proof {
                        assert(strings_view(out@) =~= Seq::<Seq<char>>::empty());
                    }
                    Ok(out)
                },
                None => Err(ExecError::UndefinedVariable),
            },
            Stmt::If { cond, iftrue } => match cond.eval(variable) {
                Some(v) => if v != 0 {
                    iftrue.exec(variable, lines, command)
                } else {
                    let out: Vec<String> = Vec::new();
                    proof {
                        assert(strings_view(out@) =~= Seq::<Seq<char>>::empty());
                    }
                    Ok(out)
                },
                None => Err(ExecError::UndefinedVariable),
            },
            Stmt::Command { command_name, items } => match command.get(command_name) {
                None => Err(ExecError::UndefinedCommand),
                Some(cmd) => {
                    let count_ok = cmd.argl == -1 || (cmd.argl >= 0 && cmd.argl as u64
                        == items.len() as u64);
                    if !count_ok {
                        Err(ExecError::ArgumentCountMismatch)
                    } else {
                        match cmd.func {
                            Builtin::Print => match command_print(variable, items) {
                                Ok(s) => {
                                    let mut out: Vec<String> = Vec::new();
                                    let ghost sv = s@;
                                    out.push(s);
                                    proof {
                                        assert(strings_view(out@) =~= seq![sv]);
                                    }
                                    Ok(out)
                                },
                                Err(e) => Err(e),
                            },
                            Builtin::List => Ok(command_list(lines)),
                        }
                    }
                },
            },
        }
    }
}

/// Law: a variable reference fails against the empty environment; and
/// right after an assignment of a number literal, that variable evaluates
/// to exactly the assigned value, the stored lines untouched and nothing
/// emitted.
pub proof fn lemma_assign_then_lookup(
    name: Seq<char>,
    v: i64,
    env: Map<Seq<char>, i64>,
    lines: Seq<(i64, Seq<char>)>,
    cmds: Map<Seq<char>, InternalCommand>,
)
    ensures
        spec_eval(ExprModel::Var(name), Map::<Seq<char>, i64>::empty()) is None,
        ({
            let (env2, lines2, res) = spec_exec(
                StmtModel::Assign { name, value: ExprModel::Num(v) },
                env,
                lines,
                cmds,
            );
            &&& spec_eval(ExprModel::Var(name), env2) == Some(v)
            &&& lines2 == lines
            &&& res == Ok::<Seq<Seq<char>>, ExecError>(Seq::<Seq<char>>::empty())
        }),
{
}

/// Law: invoking a command name that is not registered reports
/// `UndefinedCommand`, emits nothing, and leaves the variable environment
/// and the stored lines unchanged.
pub proof fn lemma_undefined_command_no_effect(
    name: Seq<char>,
    items: Seq<ExprModel>,
    env: Map<Seq<char>, i64>,
    lines: Seq<(i64, Seq<char>)>,
    cmds: Map<Seq<char>, InternalCommand>,
)
    requires
        !cmds.contains_key(name),
    ensures
        spec_exec(StmtModel::Command { command_name: name, items }, env, lines, cmds) == (
            env,
            lines,
            Err::<Seq<Seq<char>>, ExecError>(ExecError::UndefinedCommand),
        ),
{
}

/// Law: a command registered with a nonnegative expected argument count,
/// invoked with a different number of arguments, reports
/// `ArgumentCountMismatch`, does not run the command, and leaves the
/// variable environment and the stored lines unchanged.
pub proof fn lemma_argument_count_enforced(
    name: Seq<char>,
    items: Seq<ExprModel>,
    env: Map<Seq<char>, i64>,
    lines: Seq<(i64, Seq<char>)>,
    cmds: Map<Seq<char>, InternalCommand>,
)
    requires
        cmds.contains_key(name),
        cmds[name].argl != -1,
        cmds[name].argl as int != items.len() as int,
    ensures
        spec_exec(StmtModel::Command { command_name: name, items }, env, lines, cmds) == (
            env,
            lines,
            Err::<Seq<Seq<char>>, ExecError>(ExecError::ArgumentCountMismatch),
        ),
{
}

} // verus!
