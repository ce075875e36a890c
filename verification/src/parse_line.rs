//! The grammar-driven parser: one line of text in, one statement out.
//!
//! The grammar is a parsing-expression grammar: alternatives are ordered
//! and the first that matches wins. A statement is one of, tried in this
//! order: a stored line (`<digits><rest>`), a conditional
//! (`if <expr> then <stmt>`), an assignment (`<name> = <expr>`), or a
//! command invocation (`<name> <expr> <expr> ...`). Expressions use three
//! precedence tiers, loosest to tightest: `+`/`-`, then `*`/`/`, then
//! `<`/`>` — comparisons bind tighter than arithmetic here, which is part
//! of the language and must not be "corrected". Atoms are numbers, names
//! and parenthesized expressions. Only spaces and tabs separate tokens,
//! and a line must end in exactly one `'\n'`.
//!
//! The ghost functions (`spec_input` and the rules under it) are the
//! grammar's meaning; the executable functions are proved to return
//! exactly what the ghost rules denote.

use vstd::prelude::*;
use vstd::string::*;
use crate::ast::{Expr, ExprModel, Op, Stmt, StmtModel};
use crate::decimal::{dec_digits, digit_val, digits_value, is_digit_char};

verus! {

/// Skippable whitespace: plain space and tab only.
pub open spec fn is_space(c: char) -> bool {
    c == ' ' || c == '\t'
}

/// An identifier character: one lowercase ASCII letter.
pub open spec fn is_lower(c: char) -> bool {
    'a' <= c && c <= 'z'
}

/// The first position at or after `pos` that does not hold whitespace.
pub open spec fn skip_ws(s: Seq<char>, pos: int) -> int
    decreases s.len() - pos,
{
    if pos < s.len() && is_space(s[pos]) {
        skip_ws(s, pos + 1)
    } else {
        pos
    }
}

/// The end of the digit run starting at `pos`.
pub open spec fn digits_end(s: Seq<char>, pos: int) -> int
    decreases s.len() - pos,
{
    if pos < s.len() && is_digit_char(s[pos]) {
        digits_end(s, pos + 1)
    } else {
        pos
    }
}

/// The end of the lowercase-letter run starting at `pos`.
pub open spec fn lower_end(s: Seq<char>, pos: int) -> int
    decreases s.len() - pos,
{
    if pos < s.len() && is_lower(s[pos]) {
        lower_end(s, pos + 1)
    } else {
        pos
    }
}

/// The position of the first `'\n'` at or after `pos`, or the end.
pub open spec fn text_end(s: Seq<char>, pos: int) -> int
    decreases s.len() - pos,
{
    if pos < s.len() && s[pos] != '\n' {
        text_end(s, pos + 1)
    } else {
        pos
    }
}

/// The number rule: one or more digits whose value fits in an `i64`;
/// a run whose value overflows fails the rule.
pub open spec fn spec_number(s: Seq<char>, pos: int) -> Option<(i64, int)> {
    let end = digits_end(s, pos);
    if end == pos {
        None
    } else {
        let v = digits_value(s.subrange(pos, end));
        if v <= i64::MAX as int {
            Some((v as i64, end))
        } else {
            None
        }
    }
}

/// The name rule: one or more lowercase ASCII letters.
pub open spec fn spec_name(s: Seq<char>, pos: int) -> Option<(Seq<char>, int)> {
    let end = lower_end(s, pos);
    if end == pos {
        None
    } else {
        Some((s.subrange(pos, end), end))
    }
}

/// Exec mirror of [`skip_ws`].
fn ws_end(s: &str, pos: usize) -> (r: usize)
    requires
        pos <= s@.len(),
    ensures
        r as int == skip_ws(s@, pos as int),
        pos <= r <= s@.len(),
{
    let len = s.unicode_len();
    let mut i = pos;
    loop
        invariant
            pos <= i <= len,
            len == s@.len(),
            skip_ws(s@, pos as int) == skip_ws(s@, i as int),
        ensures
            pos <= i <= len,
            skip_ws(s@, pos as int) == i as int,
        decreases len - i,
    {
        if i >= len {
            break;
        }
        let c = s.get_char(i);
        if !(c == ' ' || c == '\t') {
            break;
        }
        i = i + 1;
    }
    i
}

/// Exec mirror of [`digits_end`].
fn scan_digits(s: &str, pos: usize) -> (r: usize)
    requires
        pos <= s@.len(),
    ensures
        r as int == digits_end(s@, pos as int),
        pos <= r <= s@.len(),
        forall|j: int| pos <= j < r ==> is_digit_char(#[trigger] s@[j]),
{
    let len = s.unicode_len();
    let mut i = pos;
    loop
        invariant
            pos <= i <= len,
            len == s@.len(),
            digits_end(s@, pos as int) == digits_end(s@, i as int),
            forall|j: int| pos <= j < i ==> is_digit_char(#[trigger] s@[j]),
        ensures
            pos <= i <= len,
            digits_end(s@, pos as int) == i as int,
            forall|j: int| pos <= j < i ==> is_digit_char(#[trigger] s@[j]),
        decreases len - i,
    {
        if i >= len {
            break;
        }
        let u = s.get_char(i) as u32;
        if !(48 <= u && u <= 57) {
            proof {
                assert(!is_digit_char(s@[i as int]));
            }
            break;
        }
        proof {
            assert(is_digit_char(s@[i as int]));
        }
        i = i + 1;
    }
    i
}

/// Exec mirror of [`lower_end`].
fn scan_lower(s: &str, pos: usize) -> (r: usize)
    requires
        pos <= s@.len(),
    ensures
        r as int == lower_end(s@, pos as int),
        pos <= r <= s@.len(),
{
    let len = s.unicode_len();
    let mut i = pos;
    loop
        invariant
            pos <= i <= len,
            len == s@.len(),
            lower_end(s@, pos as int) == lower_end(s@, i as int),
        ensures
            pos <= i <= len,
            lower_end(s@, pos as int) == i as int,
        decreases len - i,
    {
        if i >= len {
            break;
        }
        let u = s.get_char(i) as u32;
        if !(97 <= u && u <= 122) {
            proof {
                assert(!is_lower(s@[i as int]));
            }
            break;
        }
        proof {
            assert(is_lower(s@[i as int]));
        }
        i = i + 1;
    }
    i
}

/// Exec mirror of [`text_end`].
fn scan_text(s: &str, pos: usize) -> (r: usize)
    requires
        pos <= s@.len(),
    ensures
        r as int == text_end(s@, pos as int),
        pos <= r <= s@.len(),
{
    let len = s.unicode_len();
    let mut i = pos;
    loop
        invariant
            pos <= i <= len,
            len == s@.len(),
            text_end(s@, pos as int) == text_end(s@, i as int),
        ensures
            pos <= i <= len,
            text_end(s@, pos as int) == i as int,
        decreases len - i,
    {
        if i >= len {
            break;
        }
        if s.get_char(i) == '\n' {
            break;
        }
        i = i + 1;
    }
    i
}

/// Parses the number rule; on success the value and the end position.
fn parse_number(s: &str, pos: usize) -> (r: Option<(i64, usize)>)
    requires
        pos <= s@.len(),
    ensures
        match r {
            Some((n, p)) => spec_number(s@, pos as int) == Some((n, p as int)) && pos < p
                <= s@.len(),
            None => spec_number(s@, pos as int) is None,
        },
{
    let end = scan_digits(s, pos);
    if end == pos {
        return None;
    }
    let ghost digits = s@.subrange(pos as int, end as int);
    proof {
        assert forall|k: int| 0 <= k < digits.len() implies is_digit_char(
            #[trigger] digits[k],
        ) by {
            assert(digits[k] == s@[pos + k]);
        }
        crate::decimal::lemma_digits_value_nonneg(digits);
    }
    let mut acc: u64 = 0;
    let mut i = pos;
    while i < end
        invariant
            pos <= i <= end <= s@.len(),
            end as int == digits_end(s@, pos as int),
            pos < end,
            digits == s@.subrange(pos as int, end as int),
            forall|j: int| pos <= j < end ==> is_digit_char(#[trigger] s@[j]),
            acc as int == digits_value(s@.subrange(pos as int, i as int)),
            acc <= i64::MAX as u64,
        decreases end - i,
    {
        let c = s.get_char(i);
        proof {
            assert(is_digit_char(s@[i as int]));
        }
        let d: u64 = (c as u32 - 48) as u64;
        proof {
            assert(d as int == digit_val(c));
        }
        let limit: u64 = (9223372036854775807u64 - d) / 10;
        proof {
            vstd::arithmetic::div_mod::lemma_fundamental_div_mod(
                (9223372036854775807u64 - d) as int,
                10,
            );
        }
        if acc > limit {
            proof {
                let prefix = s@.subrange(pos as int, i as int + 1);
                assert(prefix.drop_last() =~= s@.subrange(pos as int, i as int));
                assert(prefix.last() == s@[i as int]);
                assert(digits_value(prefix) == acc as int * 10 + digit_val(c));
                assert(acc as int * 10 + digit_val(c) > i64::MAX as int) by (nonlinear_arith)
                    requires
                        acc as int > ((9223372036854775807 - digit_val(c)) / 10) as int,
                        0 <= digit_val(c) <= 9,
                        9223372036854775807 - digit_val(c) == 10 * (((9223372036854775807
                            - digit_val(c)) as int) / 10) + (((9223372036854775807 - digit_val(
                            c,
                        )) as int) % 10),
                        0 <= ((9223372036854775807 - digit_val(c)) as int) % 10 < 10,
                ;
                assert(digits =~= digits.take(digits.len() as int));
                assert(prefix =~= digits.take(i - pos + 1));
                crate::decimal::lemma_digits_value_prefix_le(
                    digits,
                    i - pos + 1,
                    digits.len() as int,
                );
                assert(digits_value(digits.take(i - pos + 1)) > i64::MAX as int);
                assert(digits_value(digits) > i64::MAX as int);
                assert(spec_number(s@, pos as int) is None);
            }
            return None;
        }
        proof {
            assert(acc * 10 + d <= 9223372036854775807) by (nonlinear_arith)
                requires
                    acc as int <= ((9223372036854775807 - d as int) / 10) as int,
                    0 <= d as int <= 9,
                    9223372036854775807 - d as int == 10 * ((9223372036854775807 - d as int) / 10)
                        + ((9223372036854775807 - d as int) % 10),
                    0 <= (9223372036854775807 - d as int) % 10 < 10,
            ;
        }
        acc = acc * 10 + d;
        proof {
            let prefix = s@.subrange(pos as int, i as int + 1);
            assert(prefix.drop_last() =~= s@.subrange(pos as int, i as int));
            assert(prefix.last() == s@[i as int]);
        }
        i = i + 1;
    }
    proof {
        assert(s@.subrange(pos as int, end as int) == digits);
    }
    Some((acc as i64, end))
}

/// Parses the name rule; on success the identifier and the end position.
fn parse_name(s: &str, pos: usize) -> (r: Option<(String, usize)>)
    requires
        pos <= s@.len(),
    ensures
        match r {
            Some((nm, p)) => spec_name(s@, pos as int) == Some((nm@, p as int)) && pos < p
                <= s@.len(),
            None => spec_name(s@, pos as int) is None,
        },
{
    let end = scan_lower(s, pos);
    if end == pos {
        return None;
    }
    let sub = s.substring_char(pos, end);
    Some((String::from_str(sub), end))
}


/// An atom: a number, a name, or a parenthesized expression, tried in
/// that order.
pub open spec fn spec_atom(s: Seq<char>, pos: int) -> Option<(ExprModel, int)>
    decreases s.len() - pos, 1int,
{
    if pos < s.len() && is_digit_char(s[pos]) {
        match spec_number(s, pos) {
            Some((n, p)) => Some((ExprModel::Num(n), p)),
            None => None,
        }
    } else if pos < s.len() && is_lower(s[pos]) {
        match spec_name(s, pos) {
            Some((nm, p)) => Some((ExprModel::Var(nm), p)),
            None => None,
        }
    } else if pos < s.len() && s[pos] == '(' {
        let p1 = skip_ws(s, pos + 1);
        if pos + 1 <= p1 && p1 <= s.len() {
            match spec_expr(s, p1) {
                Some((e, p2)) => {
                    let p3 = skip_ws(s, p2);
                    if p3 < s.len() && s[p3] == ')' {
                        Some((e, p3 + 1))
                    } else {
                        None
                    }
                },
                None => None,
            }
        } else {
            None
        }
    } else {
        None
    }
}

/// The comparison tier, continued: as many `<`/`>` steps as match,
/// left-associatively, folding onto `l`.
pub open spec fn spec_cmp_more(s: Seq<char>, l: ExprModel, pos: int) -> (ExprModel, int)
    decreases s.len() - pos, 0int,
{
    let pw = skip_ws(s, pos);
    if pos <= pw && pw < s.len() && (s[pw] == '<' || s[pw] == '>') {
        let op = if s[pw] == '<' {
            Op::LT
        } else {
            Op::GT
        };
        let pw2 = skip_ws(s, pw + 1);
        if pw + 1 <= pw2 && pw2 <= s.len() {
            match spec_atom(s, pw2) {
                Some((rr, p2)) => if pos < p2 && p2 <= s.len() {
                    spec_cmp_more(
                        s,
                        ExprModel::BinOp { op, left: Box::new(l), right: Box::new(rr) },
                        p2,
                    )
                } else {
                    (l, pos)
                },
                None => (l, pos),
            }
        } else {
            (l, pos)
        }
    } else {
        (l, pos)
    }
}

/// The comparison tier: an atom followed by `<`/`>` steps. This tier binds
/// tightest of the three operator tiers.
pub open spec fn spec_cmp(s: Seq<char>, pos: int) -> Option<(ExprModel, int)>
    decreases s.len() - pos, 2int,
{
    match spec_atom(s, pos) {
        Some((l, p)) => if pos < p && p <= s.len() {
            Some(spec_cmp_more(s, l, p))
        } else {
            None
        },
        None => None,
    }
}

/// The multiplicative tier, continued.
pub open spec fn spec_muldiv_more(s: Seq<char>, l: ExprModel, pos: int) -> (ExprModel, int)
    decreases s.len() - pos, 0int,
{
    let pw = skip_ws(s, pos);
    if pos <= pw && pw < s.len() && (s[pw] == '*' || s[pw] == '/') {
        let op = if s[pw] == '*' {
            Op::Mul
        } else {
            Op::Div
        };
        let pw2 = skip_ws(s, pw + 1);
        if pw + 1 <= pw2 && pw2 <= s.len() {
            match spec_cmp(s, pw2) {
                Some((rr, p2)) => if pos < p2 && p2 <= s.len() {
                    spec_muldiv_more(
                        s,
                        ExprModel::BinOp { op, left: Box::new(l), right: Box::new(rr) },
                        p2,
                    )
                } else {
                    (l, pos)
                },
                None => (l, pos),
            }
        } else {
            (l, pos)
        }
    } else {
        (l, pos)
    }
}

/// The multiplicative tier: comparisons joined by `*`/`/`.
pub open spec fn spec_muldiv(s: Seq<char>, pos: int) -> Option<(ExprModel, int)>
    decreases s.len() - pos, 3int,
{
    match spec_cmp(s, pos) {
        Some((l, p)) => if pos < p && p <= s.len() {
            Some(spec_muldiv_more(s, l, p))
        } else {
            None
        },
        None => None,
    }
}

/// The additive tier, continued.
pub open spec fn spec_addsub_more(s: Seq<char>, l: ExprModel, pos: int) -> (ExprModel, int)
    decreases s.len() - pos, 0int,
{
    let pw = skip_ws(s, pos);
    if pos <= pw && pw < s.len() && (s[pw] == '+' || s[pw] == '-') {
        let op = if s[pw] == '+' {
            Op::Add
        } else {
            Op::Sub
        };
        let pw2 = skip_ws(s, pw + 1);
        if pw + 1 <= pw2 && pw2 <= s.len() {
            match spec_muldiv(s, pw2) {
                Some((rr, p2)) => if pos < p2 && p2 <= s.len() {
                    spec_addsub_more(
                        s,
                        ExprModel::BinOp { op, left: Box::new(l), right: Box::new(rr) },
                        p2,
                    )
                } else {
                    (l, pos)
                },
                None => (l, pos),
            }
        } else {
            (l, pos)
        }
    } else {
        (l, pos)
    }
}

/// An expression: the additive tier, which binds loosest.
pub open spec fn spec_expr(s: Seq<char>, pos: int) -> Option<(ExprModel, int)>
    decreases s.len() - pos, 4int,
{
    match spec_muldiv(s, pos) {
        Some((l, p)) => if pos < p && p <= s.len() {
            Some(spec_addsub_more(s, l, p))
        } else {
            None
        },
        None => None,
    }
}

/// The stored-line rule: a line index, then the rest of the line captured
/// verbatim up to the newline.
pub open spec fn spec_line_stmt(s: Seq<char>, pos: int) -> Option<(StmtModel, int)> {
    match spec_number(s, pos) {
        Some((n, p)) => {
            let end = text_end(s, p);
            Some((StmtModel::Line { index: n, line: s.subrange(p, end) }, end))
        },
        None => None,
    }
}

/// The conditional rule: `if`, an expression, `then`, a nested statement.
pub open spec fn spec_if(s: Seq<char>, pos: int) -> Option<(StmtModel, int)>
    decreases s.len() - pos, 1int,
{
    if pos + 2 <= s.len() && s[pos] == 'i' && s[pos + 1] == 'f' {
        let p1 = skip_ws(s, pos + 2);
        if pos + 2 <= p1 && p1 <= s.len() {
            match spec_expr(s, p1) {
                Some((cond, p2)) => {
                    let p3 = skip_ws(s, p2);
                    if p2 <= p3 && p3 + 4 <= s.len() && s[p3] == 't' && s[p3 + 1] == 'h' && s[p3
                        + 2] == 'e' && s[p3 + 3] == 'n' {
                        let p4 = skip_ws(s, p3 + 4);
                        if pos < p4 && p4 <= s.len() {
                            match spec_stmt(s, p4) {
                                Some((body, p5)) => Some(
                                    (StmtModel::If { cond, iftrue: Box::new(body) }, p5),
                                ),
                                None => None,
                            }
                        } else {
                            None
                        }
                    } else {
                        None
                    }
                },
                None => None,
            }
        } else {
            None
        }
    } else {
        None
    }
}

/// The assignment rule: a name, `=`, an expression.
pub open spec fn spec_assign(s: Seq<char>, pos: int) -> Option<(StmtModel, int)>
    decreases s.len() - pos, 1int,
{
    match spec_name(s, pos) {
        Some((nm, p)) => {
            let pw = skip_ws(s, p);
            if pw < s.len() && s[pw] == '=' {
                let pw2 = skip_ws(s, pw + 1);
                if pos < pw2 && pw2 <= s.len() {
                    match spec_expr(s, pw2) {
                        Some((v, p2)) => Some((StmtModel::Assign { name: nm, value: v }, p2)),
                        None => None,
                    }
                } else {
                    None
                }
            } else {
                None
            }
        },
        None => None,
    }
}

/// The argument list of a command, continued: each further argument is
/// introduced by one literal space and optional further whitespace.
pub open spec fn spec_args_more(s: Seq<char>, items: Seq<ExprModel>, pos: int) -> (
    Seq<ExprModel>,
    int,
)
    decreases s.len() - pos, 0int,
{
    if pos < s.len() && s[pos] == ' ' {
        let pw = skip_ws(s, pos + 1);
        if pos + 1 <= pw && pw <= s.len() {
            match spec_expr(s, pw) {
                Some((e, p2)) => if pos < p2 && p2 <= s.len() {
                    spec_args_more(s, items.push(e), p2)
                } else {
                    (items, pos)
                },
                None => (items, pos),
            }
        } else {
            (items, pos)
        }
    } else {
        (items, pos)
    }
}

/// The command rule: a name, then zero or more space-separated arguments.
pub open spec fn spec_command(s: Seq<char>, pos: int) -> Option<(StmtModel, int)>
    decreases s.len() - pos, 1int,
{
    match spec_name(s, pos) {
        Some((nm, p)) => {
            let pw = skip_ws(s, p);
            if pos < pw && pw <= s.len() {
                match spec_expr(s, pw) {
                    Some((e1, p2)) => if pos < p2 && p2 <= s.len() {
                        let (items, pend) = spec_args_more(s, seq![e1], p2);
                        Some((StmtModel::Command { command_name: nm, items }, pend))
                    } else {
                        None
                    },
                    None => Some(
                        (
                            StmtModel::Command {
                                command_name: nm,
                                items: Seq::<ExprModel>::empty(),
                            },
                            pw,
                        ),
                    ),
                }
            } else {
                None
            }
        },
        None => None,
    }
}

/// The statement rule: ordered choice among the four alternatives.
pub open spec fn spec_stmt(s: Seq<char>, pos: int) -> Option<(StmtModel, int)>
    decreases s.len() - pos, 2int,
{
    match spec_line_stmt(s, pos) {
        Some(r) => Some(r),
        None => match spec_if(s, pos) {
            Some(r) => Some(r),
            None => match spec_assign(s, pos) {
                Some(r) => Some(r),
                None => spec_command(s, pos),
            },
        },
    }
}

/// The whole line: optional leading whitespace, one statement, optional
/// trailing whitespace, then a final `'\n'` that ends the input exactly.
pub open spec fn spec_input(s: Seq<char>) -> Option<StmtModel> {
    let p0 = skip_ws(s, 0);
    match spec_stmt(s, p0) {
        Some((st, p)) => {
            let pw = skip_ws(s, p);
            if pw < s.len() && s[pw] == '\n' && pw + 1 == s.len() {
                Some(st)
            } else {
                None
            }
        },
        None => None,
    }
}

/// Where a rejected line stopped matching: the position of the first
/// character that no rule could consume.
pub open spec fn spec_error_pos(s: Seq<char>) -> int {
    let p0 = skip_ws(s, 0);
    match spec_stmt(s, p0) {
        Some((st, p)) => skip_ws(s, p),
        None => p0,
    }
}


/// Parses an atom.
fn parse_atom(s: &str, pos: usize) -> (r: Option<(Expr, usize)>)
    requires
        pos <= s@.len(),
    ensures
        match r {
            Some((e, p)) => spec_atom(s@, pos as int) == Some((e@, p as int)) && pos < p
                <= s@.len(),
            None => spec_atom(s@, pos as int) is None,
        },
    decreases s@.len() - pos, 1int,
{
    let len = s.unicode_len();
    if pos >= len {
        return None;
    }
    let c = s.get_char(pos);
    let u = c as u32;
    if 48 <= u && u <= 57 {
        proof {
            assert(is_digit_char(s@[pos as int]));
        }
        match parse_number(s, pos) {
            Some((n, p)) => Some((Expr::Num(n), p)),
            None => None,
        }
    } else if 97 <= u && u <= 122 {
        proof {
            assert(!is_digit_char(s@[pos as int]));
            assert(is_lower(s@[pos as int]));
        }
        match parse_name(s, pos) {
            Some((nm, p)) => Some((Expr::Var(nm), p)),
            None => None,
        }
    } else if c == '(' {
        proof {
            assert(!is_digit_char(s@[pos as int]));
            assert(!is_lower(s@[pos as int]));
        }
        let p1 = ws_end(s, pos + 1);
        match parse_expr(s, p1) {
            Some((e, p2)) => {
                let p3 = ws_end(s, p2);
                if p3 < len && s.get_char(p3) == ')' {
                    Some((e, p3 + 1))
                } else {
                    None
                }
            },
            None => None,
        }
    } else {
        proof {
            assert(!is_digit_char(s@[pos as int]));
            assert(!is_lower(s@[pos as int]));
            assert(s@[pos as int] != '(');
        }
        None
    }
}

/// Folds further comparison steps onto `l`.
fn parse_cmp_more(s: &str, l: Expr, pos: usize) -> (r: (Expr, usize))
    requires
        pos <= s@.len(),
    ensures
        (r.0@, r.1 as int) == spec_cmp_more(s@, l@, pos as int),
        pos <= r.1 <= s@.len(),
    decreases s@.len() - pos, 0int,
{
    let len = s.unicode_len();
    let pw = ws_end(s, pos);
    if pw < len {
        let c = s.get_char(pw);
        if c == '<' || c == '>' {
            let op = if c == '<' {
                Op::LT
            } else {
                Op::GT
            };
            let pw2 = ws_end(s, pw + 1);
            match parse_atom(s, pw2) {
                Some((rr, p2)) => {
                    return parse_cmp_more(
                        s,
                        Expr::BinOp { op, left: Box::new(l), right: Box::new(rr) },
                        p2,
                    );
                },
                None => {
                    return (l, pos);
                },
            }
        }
    }
    (l, pos)
}

/// Parses the comparison tier.
fn parse_cmp(s: &str, pos: usize) -> (r: Option<(Expr, usize)>)
    requires
        pos <= s@.len(),
    ensures
        match r {
            Some((e, p)) => spec_cmp(s@, pos as int) == Some((e@, p as int)) && pos < p <= s@.len(),
            None => spec_cmp(s@, pos as int) is None,
        },
    decreases s@.len() - pos, 2int,
{
    match parse_atom(s, pos) {
        Some((l, p)) => Some(parse_cmp_more(s, l, p)),
        None => None,
    }
}

/// Folds further multiplicative steps onto `l`.
fn parse_muldiv_more(s: &str, l: Expr, pos: usize) -> (r: (Expr, usize))
    requires
        pos <= s@.len(),
    ensures
        (r.0@, r.1 as int) == spec_muldiv_more(s@, l@, pos as int),
        pos <= r.1 <= s@.len(),
    decreases s@.len() - pos, 0int,
{
    let len = s.unicode_len();
    let pw = ws_end(s, pos);
    if pw < len {
        let c = s.get_char(pw);
        if c == '*' || c == '/' {
            let op = if c == '*' {
                Op::Mul
            } else {
                Op::Div
            };
            let pw2 = ws_end(s, pw + 1);
            match parse_cmp(s, pw2) {
                Some((rr, p2)) => {
                    return parse_muldiv_more(
                        s,
                        Expr::BinOp { op, left: Box::new(l), right: Box::new(rr) },
                        p2,
                    );
                },
                None => {
                    return (l, pos);
                },
            }
        }
    }
    (l, pos)
}

/// Parses the multiplicative tier.
fn parse_muldiv(s: &str, pos: usize) -> (r: Option<(Expr, usize)>)
    requires
        pos <= s@.len(),
    ensures
        match r {
            Some((e, p)) => spec_muldiv(s@, pos as int) == Some((e@, p as int)) && pos < p
                <= s@.len(),
            None => spec_muldiv(s@, pos as int) is None,
        },
    decreases s@.len() - pos, 3int,
{
    match parse_cmp(s, pos) {
        Some((l, p)) => Some(parse_muldiv_more(s, l, p)),
        None => None,
    }
}

/// Folds further additive steps onto `l`.
fn parse_addsub_more(s: &str, l: Expr, pos: usize) -> (r: (Expr, usize))
    requires
        pos <= s@.len(),
    ensures
        (r.0@, r.1 as int) == spec_addsub_more(s@, l@, pos as int),
        pos <= r.1 <= s@.len(),
    decreases s@.len() - pos, 0int,
{
    let len = s.unicode_len();
    let pw = ws_end(s, pos);
    if pw < len {
        let c = s.get_char(pw);
        if c == '+' || c == '-' {
            let op = if c == '+' {
                Op::Add
            } else {
                Op::Sub
            };
            let pw2 = ws_end(s, pw + 1);
            match parse_muldiv(s, pw2) {
                Some((rr, p2)) => {
                    return parse_addsub_more(
                        s,
                        Expr::BinOp { op, left: Box::new(l), right: Box::new(rr) },
                        p2,
                    );
                },
                None => {
                    return (l, pos);
                },
            }
        }
    }
    (l, pos)
}

/// Parses an expression.
fn parse_expr(s: &str, pos: usize) -> (r: Option<(Expr, usize)>)
    requires
        pos <= s@.len(),
    ensures
        match r {
            Some((e, p)) => spec_expr(s@, pos as int) == Some((e@, p as int)) && pos < p
                <= s@.len(),
            None => spec_expr(s@, pos as int) is None,
        },
    decreases s@.len() - pos, 4int,
{
    match parse_muldiv(s, pos) {
        Some((l, p)) => Some(parse_addsub_more(s, l, p)),
        None => None,
    }
}

/// Parses the stored-line rule.
fn parse_line_stmt(s: &str, pos: usize) -> (r: Option<(Stmt, usize)>)
    requires
        pos <= s@.len(),
    ensures
        match r {
            Some((st, p)) => spec_line_stmt(s@, pos as int) == Some((st@, p as int)) && pos < p
                <= s@.len(),
            None => spec_line_stmt(s@, pos as int) is None,
        },
{
    match parse_number(s, pos) {
        Some((n, p)) => {
            let end = scan_text(s, p);
            let text = String::from_str(s.substring_char(p, end));
            Some((Stmt::Line { index: n, line: text }, end))
        },
        None => None,
    }
}

/// Parses the conditional rule.
fn parse_if(s: &str, pos: usize) -> (r: Option<(Stmt, usize)>)
    requires
        pos <= s@.len(),
    ensures
        match r {
            Some((st, p)) => spec_if(s@, pos as int) == Some((st@, p as int)) && pos < p
                <= s@.len(),
            None => spec_if(s@, pos as int) is None,
        },
    decreases s@.len() - pos, 1int,
{
    let len = s.unicode_len();
    if !(len >= 2 && pos <= len - 2 && s.get_char(pos) == 'i' && s.get_char(pos + 1) == 'f') {
        return None;
    }
    let p1 = ws_end(s, pos + 2);
    match parse_expr(s, p1) {
        Some((cond, p2)) => {
            let p3 = ws_end(s, p2);
            if !(len >= 4 && p3 <= len - 4 && s.get_char(p3) == 't' && s.get_char(p3 + 1) == 'h'
                && s.get_char(p3 + 2) == 'e' && s.get_char(p3 + 3) == 'n') {
                return None;
            }
            let p4 = ws_end(s, p3 + 4);
            match parse_stmt(s, p4) {
                Some((body, p5)) => Some((Stmt::If { cond, iftrue: Box::new(body) }, p5)),
                None => None,
            }
        },
        None => None,
    }
}

/// Parses the assignment rule.
fn parse_assign(s: &str, pos: usize) -> (r: Option<(Stmt, usize)>)
    requires
        pos <= s@.len(),
    ensures
        match r {
            Some((st, p)) => spec_assign(s@, pos as int) == Some((st@, p as int)) && pos < p
                <= s@.len(),
            None => spec_assign(s@, pos as int) is None,
        },
    decreases s@.len() - pos, 1int,
{
    let len = s.unicode_len();
    match parse_name(s, pos) {
        Some((nm, p)) => {
            let pw = ws_end(s, p);
            if !(pw < len && s.get_char(pw) == '=') {
                return None;
            }
            let pw2 = ws_end(s, pw + 1);
            match parse_expr(s, pw2) {
                Some((v, p2)) => Some((Stmt::Assign { name: nm, value: v }, p2)),
                None => None,
            }
        },
        None => None,
    }
}

/// Parses the command rule.
fn parse_command(s: &str, pos: usize) -> (r: Option<(Stmt, usize)>)
    requires
        pos <= s@.len(),
    ensures
        match r {
            Some((st, p)) => spec_command(s@, pos as int) == Some((st@, p as int)) && pos < p
                <= s@.len(),
            None => spec_command(s@, pos as int) is None,
        },
    decreases s@.len() - pos, 1int,
{
    match parse_name(s, pos) {
        Some((nm, p)) => {
            let pw = ws_end(s, p);
            match parse_expr(s, pw) {
                Some((e1, p2)) => {
                    let mut items: Vec<Expr> = Vec::new();
                    items.push(e1);
                    proof {
                        let (ge, gp) = spec_expr(s@, pw as int)->0;
                        assert(crate::ast::expr_models(items@) =~= seq![ge]);
                    }
                    let (items2, pend) = parse_args_more(s, items, p2);
                    Some((Stmt::Command { command_name: nm, items: items2 }, pend))
                },
                None => {
                    let items: Vec<Expr> = Vec::new();
                    proof {
                        assert(crate::ast::expr_models(items@) =~= Seq::<ExprModel>::empty());
                    }
                    Some((Stmt::Command { command_name: nm, items }, pw))
                },
            }
        },
        None => None,
    }
}

/// Parses further command arguments onto `items`.
fn parse_args_more(s: &str, items: Vec<Expr>, pos: usize) -> (r: (Vec<Expr>, usize))
    requires
        pos <= s@.len(),
    ensures
        (crate::ast::expr_models(r.0@), r.1 as int) == spec_args_more(
            s@,
            crate::ast::expr_models(items@),
            pos as int,
        ),
        pos <= r.1 <= s@.len(),
    decreases s@.len() - pos, 0int,
{
    let len = s.unicode_len();
    if !(pos < len && s.get_char(pos) == ' ') {
        return (items, pos);
    }
    let pw = ws_end(s, pos + 1);
    match parse_expr(s, pw) {
        Some((e, p2)) => {
            let ghost before = crate::ast::expr_models(items@);
            let mut items2 = items;
            items2.push(e);
            proof {
                let (ge, gp) = spec_expr(s@, pw as int)->0;
                assert(crate::ast::expr_models(items2@) =~= before.push(ge));
            }
            parse_args_more(s, items2, p2)
        },
        None => (items, pos),
    }
}

/// Parses the statement rule: the first alternative that matches wins.
fn parse_stmt(s: &str, pos: usize) -> (r: Option<(Stmt, usize)>)
    requires
        pos <= s@.len(),
    ensures
        match r {
            Some((st, p)) => spec_stmt(s@, pos as int) == Some((st@, p as int)) && pos < p
                <= s@.len(),
            None => spec_stmt(s@, pos as int) is None,
        },
    decreases s@.len() - pos, 2int,
{
    match parse_line_stmt(s, pos) {
        Some(r) => Some(r),
        None => match parse_if(s, pos) {
            Some(r) => Some(r),
            None => match parse_assign(s, pos) {
                Some(r) => Some(r),
                None => parse_command(s, pos),
            },
        },
    }
}

/// A line the parser cannot recognize: the line itself and the position
/// of the first character that no rule could consume.
#[derive(Debug, PartialEq)]
pub struct SyntaxError {
    pub input: String,
    pub at: usize,
}

/// Parses one whole input line into a statement, or reports where the
/// line stopped being recognizable.
pub fn input(s: &str) -> (r: Result<Stmt, SyntaxError>)
    ensures
        match r {
            Ok(st) => spec_input(s@) == Some(st@),
            Err(e) => spec_input(s@) is None && e.input@ == s@ && e.at as int == spec_error_pos(
                s@,
            ),
        },
{
    let p0 = ws_end(s, 0);
    match parse_stmt(s, p0) {
        Some((st, p)) => {
            let pw = ws_end(s, p);
            let len = s.unicode_len();
            if pw < len && pw + 1 == len && s.get_char(pw) == '\n' {
                Ok(st)
            } else {
                Err(SyntaxError { input: String::from_str(s), at: pw })
            }
        },
        None => Err(SyntaxError { input: String::from_str(s), at: p0 }),
    }
}


/// A digit run bounded on the right ends exactly at the bound.
proof fn lemma_digits_end_exact(s: Seq<char>, i: int, k: int)
    requires
        0 <= i <= k <= s.len(),
        forall|j: int| i <= j < k ==> is_digit_char(#[trigger] s[j]),
        k < s.len() ==> !is_digit_char(s[k]),
    ensures
        digits_end(s, i) == k,
    decreases k - i,
{
    if i < k {
        assert(is_digit_char(s[i]));
        lemma_digits_end_exact(s, i + 1, k);
    }
}

/// A newline-free run bounded by a newline (or the end) ends exactly there.
proof fn lemma_text_end_exact(s: Seq<char>, i: int, k: int)
    requires
        0 <= i <= k <= s.len(),
        forall|j: int| i <= j < k ==> (#[trigger] s[j]) != '\n',
        k < s.len() ==> s[k] == '\n',
    ensures
        text_end(s, i) == k,
    decreases k - i,
{
    if i < k {
        lemma_text_end_exact(s, i + 1, k);
    }
}

/// Law: a line that begins with the decimal digits of a nonnegative `i64`
/// value `n` and continues with arbitrary trailing text `t` — any text
/// that holds no newline and does not begin with a further digit — parses
/// to exactly the stored-line statement `(n, t)`, whitespace in `t`
/// included verbatim.
pub proof fn lemma_store_line_parse(n: i64, t: Seq<char>)
    requires
        n >= 0,
        forall|i: int| 0 <= i < t.len() ==> (#[trigger] t[i]) != '\n',
        t.len() > 0 ==> !is_digit_char(t[0]),
    ensures
        spec_input(dec_digits(n as int) + t + seq!['\n']) == Some(
            StmtModel::Line { index: n, line: t },
        ),
{
    let d = dec_digits(n as int);
    let s = d + t + seq!['\n'];
    crate::decimal::lemma_dec_digits_shape(n as int);
    crate::decimal::lemma_dec_digits_value(n as int);
    assert(s.len() == d.len() + t.len() + 1);
    assert(s[0] == d[0]);
    assert(is_digit_char(s[0]));
    assert(!is_space(s[0]));
    assert(skip_ws(s, 0) == 0);
    let k = d.len() as int;
    let end = k + t.len() as int;
    assert forall|j: int| 0 <= j < k implies is_digit_char(#[trigger] s[j]) by {
        assert(s[j] == d[j]);
    }
    assert(k < s.len());
    assert(s[k] == if t.len() > 0 { t[0] } else { '\n' });
    assert(!is_digit_char(s[k]));
    lemma_digits_end_exact(s, 0, k);
    assert(s.subrange(0, k) =~= d);
    assert(digits_value(s.subrange(0, k)) == n as int);
    assert(spec_number(s, 0) == Some((n, k)));
    assert forall|j: int| k <= j < end implies (#[trigger] s[j]) != '\n' by {
        assert(s[j] == t[j - k]);
    }
    assert(s[end] == '\n');
    lemma_text_end_exact(s, k, end);
    assert(s.subrange(k, end) =~= t);
    assert(spec_line_stmt(s, 0) == Some((StmtModel::Line { index: n, line: t }, end)));
    assert(spec_stmt(s, 0) == Some((StmtModel::Line { index: n, line: t }, end)));
    assert(!is_space('\n'));
    assert(skip_ws(s, end) == end);
    assert(end + 1 == s.len());
}

} // verus!
