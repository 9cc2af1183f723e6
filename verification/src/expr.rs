//! The operand grammar of Redcode: arithmetic expressions over numbers and
//! symbols, addressing-mode prefixes and comma-separated operand lists.
//!
//! Each rule is a function of the text and a start position that either
//! fails or yields a value and the number of characters it consumed. Rules
//! try their alternatives in order and backtrack on failure; blanks (spaces
//! and tabs) are allowed around operators, parentheses and numbers.
//!
//! ```text
//! expression := term (('+' | '-') term)*
//! term       := factor (('*' | '/') factor)*
//! factor     := '-' factor | '+' factor | '(' expression ')' | digits | identifier
//! operand    := mode? expression
//! ```
use vstd::prelude::*;

use crate::instruction::{spec_mode_of, AddressingMode};
use crate::text::{
    blank_pred, copy_range, count_blanks, count_digits, count_ident_continue, digit_pred,
    eq_ignore_case, equals_ignore_case, ident_continue_pred, is_blank, is_digit, is_ident_start,
    is_ident_start_char, lemma_prefix_len_bound, prefix_len, to_upper, upper_seq,
};

verus! {

#[derive(Debug, Clone, Copy, PartialEq, Eq, Structural)]
pub enum BinaryOp {
    Add,
    Sub,
    Mul,
    Div,
}

/// A parsed operand expression.
#[derive(Debug)]
pub enum Expr {
    Number(i32),
    /// A symbol, already in upper case.
    Symbol(Vec<char>),
    UnaryMinus(Box<Expr>),
    Binary { left: Box<Expr>, op: BinaryOp, right: Box<Expr> },
}

/// The mathematical value of an [`Expr`].
pub ghost enum SpecExpr {
    Number(i32),
    Symbol(Seq<char>),
    Neg(Box<SpecExpr>),
    Bin(Box<SpecExpr>, BinaryOp, Box<SpecExpr>),
}

pub open spec fn expr_view(e: Expr) -> SpecExpr
    decreases e,
{
    match e {
        Expr::Number(v) => SpecExpr::Number(v),
        Expr::Symbol(name) => SpecExpr::Symbol(name@),
        Expr::UnaryMinus(inner) => SpecExpr::Neg(Box::new(expr_view(*inner))),
        Expr::Binary { left, op, right } => SpecExpr::Bin(
            Box::new(expr_view(*left)),
            op,
            Box::new(expr_view(*right)),
        ),
    }
}

/// An operand: an addressing mode and an expression.
#[derive(Debug)]
pub struct OperandExpr {
    pub mode: AddressingMode,
    pub expr: Expr,
}

pub ghost struct SpecOperand {
    pub mode: AddressingMode,
    pub expr: SpecExpr,
}

pub open spec fn operand_view(o: OperandExpr) -> SpecOperand {
    SpecOperand { mode: o.mode, expr: expr_view(o.expr) }
}

pub open spec fn operands_view(v: Seq<OperandExpr>) -> Seq<SpecOperand> {
    v.map_values(|o: OperandExpr| operand_view(o))
}

/// Characters left after `pos`, 0 past the end.
pub open spec fn remaining(len: nat, pos: nat) -> nat {
    if pos <= len {
        (len - pos) as nat
    } else {
        0
    }
}

/// Number of blanks at `pos`.
pub open spec fn blanks(s: Seq<char>, pos: nat) -> nat {
    if pos <= s.len() {
        prefix_len(s.skip(pos as int), blank_pred())
    } else {
        0
    }
}

/// Length of the identifier starting at `pos`, 0 when there is none.
pub open spec fn ident_len(s: Seq<char>, pos: nat) -> nat {
    if pos < s.len() && is_ident_start(s[pos as int]) {
        1 + prefix_len(s.skip(pos + 1 as int), ident_continue_pred())
    } else {
        0
    }
}

/// The value of a decimal digit string.
pub open spec fn digits_value(d: Seq<char>) -> int
    decreases d.len(),
{
    if d.len() == 0 {
        0
    } else {
        10 * digits_value(d.drop_last()) + (d.last() as int - '0' as int)
    }
}

/// `digits` surrounded by blanks, when its value fits in an `i32`.
pub open spec fn spec_number(s: Seq<char>, pos: nat) -> Option<(i32, nat)> {
    let p1 = pos + blanks(s, pos);
    let n = if p1 <= s.len() {
        prefix_len(s.skip(p1 as int), digit_pred())
    } else {
        0
    };
    if n == 0 {
        None
    } else {
        let v = digits_value(s.subrange(p1 as int, (p1 + n) as int));
        if v > i32::MAX {
            None
        } else {
            Some((v as i32, (p1 + n + blanks(s, p1 + n) - pos) as nat))
        }
    }
}

pub open spec fn spec_factor(s: Seq<char>, pos: nat) -> Option<(SpecExpr, nat)>
    decreases remaining(s.len(), pos), 2nat,
{
    let q = pos + blanks(s, pos);
    let neg = if q < s.len() && s[q as int] == '-' {
        let r = q + 1 + blanks(s, q + 1);
        match spec_factor(s, r) {
            Some((e, n)) => Some((SpecExpr::Neg(Box::new(e)), (r + n - pos) as nat)),
            None => None,
        }
    } else {
        None
    };
    let plus = if q < s.len() && s[q as int] == '+' {
        let r = q + 1 + blanks(s, q + 1);
        match spec_factor(s, r) {
            Some((e, n)) => Some((e, (r + n - pos) as nat)),
            None => None,
        }
    } else {
        None
    };
    let paren = if q < s.len() && s[q as int] == '(' {
        let r = q + 1 + blanks(s, q + 1);
        match spec_expression(s, r) {
            Some((e, n)) => {
                let c = r + n + blanks(s, r + n);
                if c < s.len() && s[c as int] == ')' {
                    Some((e, (c + 1 + blanks(s, c + 1) - pos) as nat))
                } else {
                    None
                }
            },
            None => None,
        }
    } else {
        None
    };
    if neg is Some {
        neg
    } else if plus is Some {
        plus
    } else if paren is Some {
        paren
    } else if spec_number(s, pos) is Some {
        let (v, n) = spec_number(s, pos)->0;
        Some((SpecExpr::Number(v), n))
    } else if ident_len(s, pos) > 0 {
        let k = ident_len(s, pos);
        Some((SpecExpr::Symbol(upper_seq(s.subrange(pos as int, (pos + k) as int))), k))
    } else {
        None
    }
}

/// The `*` and `/` continuation of a term whose value so far is `acc`.
pub open spec fn spec_term_tail(s: Seq<char>, pos: nat, acc: SpecExpr) -> (SpecExpr, nat)
    decreases remaining(s.len(), pos), 2nat,
{
    let q = pos + blanks(s, pos);
    if q < s.len() && (s[q as int] == '*' || s[q as int] == '/') {
        let op = if s[q as int] == '*' {
            BinaryOp::Mul
        } else {
            BinaryOp::Div
        };
        let t = q + 1 + blanks(s, q + 1);
        match spec_factor(s, t) {
            Some((e, n)) => {
                let (r, m) = spec_term_tail(s, t + n, SpecExpr::Bin(Box::new(acc), op, Box::new(e)));
                (r, (t + n + m - pos) as nat)
            },
            None => (acc, 0),
        }
    } else {
        (acc, 0)
    }
}

pub open spec fn spec_term(s: Seq<char>, pos: nat) -> Option<(SpecExpr, nat)>
    decreases remaining(s.len(), pos), 3nat,
{
    match spec_factor(s, pos) {
        Some((e, n)) => {
            let (r, m) = spec_term_tail(s, pos + n, e);
            Some((r, n + m))
        },
        None => None,
    }
}

/// The `+` and `-` continuation of an expression whose value so far is `acc`.
pub open spec fn spec_expression_tail(s: Seq<char>, pos: nat, acc: SpecExpr) -> (SpecExpr, nat)
    decreases remaining(s.len(), pos), 3nat,
{
    let q = pos + blanks(s, pos);
    if q < s.len() && (s[q as int] == '+' || s[q as int] == '-') {
        let op = if s[q as int] == '+' {
            BinaryOp::Add
        } else {
            BinaryOp::Sub
        };
        let t = q + 1 + blanks(s, q + 1);
        match spec_term(s, t) {
            Some((e, n)) => {
                let (r, m) = spec_expression_tail(
                    s,
                    t + n,
                    SpecExpr::Bin(Box::new(acc), op, Box::new(e)),
                );
                (r, (t + n + m - pos) as nat)
            },
            None => (acc, 0),
        }
    } else {
        (acc, 0)
    }
}

pub open spec fn spec_expression(s: Seq<char>, pos: nat) -> Option<(SpecExpr, nat)>
    decreases remaining(s.len(), pos), 4nat,
{
    match spec_term(s, pos) {
        Some((e, n)) => {
            let (r, m) = spec_expression_tail(s, pos + n, e);
            Some((r, n + m))
        },
        None => None,
    }
}

/// An operand: blanks, an optional mode prefix, an expression, blanks.
pub open spec fn spec_operand(s: Seq<char>, pos: nat) -> Option<(SpecOperand, nat)> {
    let p0 = pos + blanks(s, pos);
    let has_mode = p0 < s.len() && spec_mode_of(s[p0 as int]) is Some;
    let mode = if has_mode {
        spec_mode_of(s[p0 as int])->0
    } else {
        AddressingMode::Direct
    };
    let p1 = if has_mode {
        p0 + 1
    } else {
        p0
    };
    match spec_expression(s, p1) {
        Some((e, n)) => {
            let end = p1 + n;
            Some((SpecOperand { mode, expr: e }, (end + blanks(s, end) - pos) as nat))
        },
        None => None,
    }
}

/// Further `,`-separated operands after those in `acc`.
pub open spec fn spec_operand_tail(s: Seq<char>, pos: nat, acc: Seq<SpecOperand>) -> (
    Seq<SpecOperand>,
    nat,
)
    decreases remaining(s.len(), pos),
{
    let q = pos + blanks(s, pos);
    if q < s.len() && s[q as int] == ',' {
        let t = q + 1 + blanks(s, q + 1);
        match spec_operand(s, t) {
            Some((o, n)) => {
                let (r, m) = spec_operand_tail(s, t + n, acc.push(o));
                (r, (t + n + m - pos) as nat)
            },
            None => (acc, 0),
        }
    } else {
        (acc, 0)
    }
}

/// The pieces of an instruction statement: opcode name, modifier name and
/// operands, when the whole text matches
/// `identifier ('.' identifier)? (blanks operand (',' operand)*)? blanks`.
pub open spec fn spec_instruction_text(s: Seq<char>) -> Option<
    (Seq<char>, Option<Seq<char>>, Seq<SpecOperand>),
> {
    let k = ident_len(s, 0);
    if k == 0 {
        None
    } else {
        let name = s.take(k as int);
        let has_mod = k < s.len() && s[k as int] == '.' && ident_len(s, k + 1) > 0;
        let modifier = if has_mod {
            Some(s.subrange(k + 1 as int, (k + 1 + ident_len(s, k + 1)) as int))
        } else {
            None::<Seq<char>>
        };
        let pos = if has_mod {
            k + 1 + ident_len(s, k + 1)
        } else {
            k
        };
        let b = blanks(s, pos);
        let first = if b > 0 {
            spec_operand(s, pos + b)
        } else {
            None
        };
        let (operands, after) = match first {
            Some((o, n)) => {
                let (ops, m) = spec_operand_tail(s, pos + b + n, seq![o]);
                (ops, pos + b + n + m)
            },
            None => (Seq::<SpecOperand>::empty(), pos),
        };
        if after + blanks(s, after) == s.len() {
            Some((name, modifier, operands))
        } else {
            None
        }
    }
}

/// `keyword` (any ASCII case), blanks, an expression, blanks, and nothing else.
pub open spec fn spec_directive_expr(s: Seq<char>, keyword: Seq<char>) -> Option<SpecExpr> {
    let k = keyword.len();
    if s.len() >= k && eq_ignore_case(s.take(k as int), keyword) && blanks(s, k) > 0 {
        let p = k + blanks(s, k);
        match spec_expression(s, p) {
            Some((e, n)) => if p + n + blanks(s, p + n) == s.len() {
                Some(e)
            } else {
                None
            },
            None => None,
        }
    } else {
        None
    }
}

/// `END`, optionally followed by blanks and an expression; `Err` when the
/// text is not of that form.
pub open spec fn spec_end_directive(s: Seq<char>) -> Result<Option<SpecExpr>, ()> {
    if s.len() >= 3 && eq_ignore_case(s.take(3), seq!['E', 'N', 'D']) {
        let b = blanks(s, 3);
        let with_expr = if b > 0 {
            match spec_expression(s, 3 + b) {
                Some((e, n)) => Some((e, 3 + b + n + blanks(s, 3 + b + n))),
                None => None,
            }
        } else {
            None
        };
        match with_expr {
            Some((e, end)) => if end == s.len() {
                Ok(Some(e))
            } else {
                Err(())
            },
            None => if s.len() == 3 {
                Ok(None)
            } else {
                Err(())
            },
        }
    } else {
        Err(())
    }
}

// ---------------------------------------------------------------------------
// Executable rules
// ---------------------------------------------------------------------------

fn blanks_at(s: &[char], pos: usize) -> (n: usize)
    requires
        pos <= s.len(),
    ensures
        n == blanks(s@, pos as nat),
        pos + n <= s@.len(),
{
    count_blanks(s, pos)
}

proof fn lemma_digits_value_step(d: Seq<char>, c: char)
    ensures
        digits_value(d.push(c)) == 10 * digits_value(d) + (c as int - '0' as int),
{
    assert(d.push(c).drop_last() =~= d);
}

proof fn lemma_digits_value_nonneg(d: Seq<char>)
    requires
        forall|i: int| 0 <= i < d.len() ==> is_digit(#[trigger] d[i]),
    ensures
        digits_value(d) >= 0,
    decreases d.len(),
{
    if d.len() > 0 {
        assert forall|i: int| 0 <= i < d.drop_last().len() implies is_digit(
            #[trigger] d.drop_last()[i],
        ) by {
            assert(d.drop_last()[i] == d[i]);
        }
        lemma_digits_value_nonneg(d.drop_last());
        assert(is_digit(d[d.len() - 1]));
    }
}

/// Parses a number at `pos`.
fn parse_number(s: &[char], pos: usize) -> (r: Option<(i32, usize)>)
    requires
        pos <= s.len(),
    ensures
        match r {
            Some((v, n)) => spec_number(s@, pos as nat) == Some((v, n as nat)) && pos + n
                <= s@.len(),
            None => spec_number(s@, pos as nat) is None,
        },
{
    let p1 = pos + blanks_at(s, pos);
    let n = count_digits(s, p1);
    if n == 0 {
        return None;
    }
    proof {
        lemma_prefix_len_bound(s@.skip(p1 as int), digit_pred());
    }
    let ghost d = s@.subrange(p1 as int, (p1 + n) as int);
    let mut value: i64 = 0;
    let mut too_big = false;
    let mut i: usize = p1;
    let end = p1 + n;
    while i < end
        invariant
            end == p1 + n,
            p1 <= i <= p1 + n <= s@.len(),
            d == s@.subrange(p1 as int, (p1 + n) as int),
            forall|k: int| 0 <= k < n ==> is_digit(#[trigger] s@.skip(p1 as int)[k]),
            too_big ==> digits_value(s@.subrange(p1 as int, i as int)) > i32::MAX,
            !too_big ==> value == digits_value(s@.subrange(p1 as int, i as int)) && 0 <= value
                <= i32::MAX,
        decreases end - i,
    {
        let c = s[i];
        assert(is_digit(s@.skip(p1 as int)[i - p1]));
        assert(s@.skip(p1 as int)[i - p1] == c);
        let ghost prev = s@.subrange(p1 as int, i as int);
        assert(s@.subrange(p1 as int, (i + 1) as int) =~= prev.push(c));
        proof {
            lemma_digits_value_step(prev, c);
        }
        let digit: i64 = (c as u32 - '0' as u32) as i64;
        if !too_big {
            value = value * 10 + digit;
            if value > 2147483647 {
                too_big = true;
            }
        } else {
            proof {
                assert forall|k: int| 0 <= k < prev.len() implies is_digit(#[trigger] prev[k]) by {
                    assert(prev[k] == s@.skip(p1 as int)[k]);
                }
                lemma_digits_value_nonneg(prev);
                assert(10 * digits_value(prev) >= digits_value(prev));
            }
        }
        i = i + 1;
    }
    if too_big {
        None
    } else {
        let b = blanks_at(s, p1 + n);
        Some((value as i32, p1 + n + b - pos))
    }
}

/// Parses an identifier at `pos`; returns its length, 0 when there is none.
fn ident_at(s: &[char], pos: usize) -> (k: usize)
    requires
        pos <= s.len(),
    ensures
        k == ident_len(s@, pos as nat),
        pos + k <= s@.len(),
{
    if pos < s.len() && is_ident_start_char(s[pos]) {
        let rest = count_ident_continue(s, pos + 1);
        1 + rest
    } else {
        0
    }
}

pub fn parse_factor(s: &[char], pos: usize) -> (r: Option<(Expr, usize)>)
    requires
        pos <= s.len(),
    ensures
        match r {
            Some((e, n)) => spec_factor(s@, pos as nat) == Some((expr_view(e), n as nat)) && pos
                + n <= s@.len(),
            None => spec_factor(s@, pos as nat) is None,
        },
    decreases remaining(s@.len(), pos as nat), 2nat,
{
    let q = pos + blanks_at(s, pos);
    if q < s.len() && s[q] == '-' {
        let r = q + 1 + blanks_at(s, q + 1);
        match parse_factor(s, r) {
            Some((e, n)) => {
                return Some((Expr::UnaryMinus(Box::new(e)), r + n - pos));
            },
            None => {},
        }
    }
    if q < s.len() && s[q] == '+' {
        let r = q + 1 + blanks_at(s, q + 1);
        match parse_factor(s, r) {
            Some((e, n)) => {
                return Some((e, r + n - pos));
            },
            None => {},
        }
    }
    if q < s.len() && s[q] == '(' {
        let r = q + 1 + blanks_at(s, q + 1);
        match parse_expression(s, r) {
            Some((e, n)) => {
                let c = r + n + blanks_at(s, r + n);
                if c < s.len() && s[c] == ')' {
                    let b = blanks_at(s, c + 1);
                    return Some((e, c + 1 + b - pos));
                }
            },
            None => {},
        }
    }
    match parse_number(s, pos) {
        Some((v, n)) => {
            return Some((Expr::Number(v), n));
        },
        None => {},
    }
    let k = ident_at(s, pos);
    if k > 0 {
        let name = copy_range(s, pos, pos + k);
        let upper_name = to_upper(name.as_slice());
        Some((Expr::Symbol(upper_name), k))
    } else {
        None
    }
}

fn parse_term_tail(s: &[char], pos: usize, acc: Expr) -> (r: (Expr, usize))
    requires
        pos <= s.len(),
    ensures
        spec_term_tail(s@, pos as nat, expr_view(acc)) == (expr_view(r.0), r.1 as nat),
        pos + r.1 <= s@.len(),
    decreases remaining(s@.len(), pos as nat), 2nat,
{
    let q = pos + blanks_at(s, pos);
    if q < s.len() && (s[q] == '*' || s[q] == '/') {
        let op = if s[q] == '*' {
            BinaryOp::Mul
        } else {
            BinaryOp::Div
        };
        let t = q + 1 + blanks_at(s, q + 1);
        match parse_factor(s, t) {
            Some((e, n)) => {
                let combined = Expr::Binary { left: Box::new(acc), op, right: Box::new(e) };
                let (r, m) = parse_term_tail(s, t + n, combined);
                (r, t + n + m - pos)
            },
            None => (acc, 0),
        }
    } else {
        (acc, 0)
    }
}

pub fn parse_term(s: &[char], pos: usize) -> (r: Option<(Expr, usize)>)
    requires
        pos <= s.len(),
    ensures
        match r {
            Some((e, n)) => spec_term(s@, pos as nat) == Some((expr_view(e), n as nat)) && pos + n
                <= s@.len(),
            None => spec_term(s@, pos as nat) is None,
        },
    decreases remaining(s@.len(), pos as nat), 3nat,
{
    match parse_factor(s, pos) {
        Some((e, n)) => {
            let (r, m) = parse_term_tail(s, pos + n, e);
            Some((r, n + m))
        },
        None => None,
    }
}

fn parse_expression_tail(s: &[char], pos: usize, acc: Expr) -> (r: (Expr, usize))
    requires
        pos <= s.len(),
    ensures
        spec_expression_tail(s@, pos as nat, expr_view(acc)) == (expr_view(r.0), r.1 as nat),
        pos + r.1 <= s@.len(),
    decreases remaining(s@.len(), pos as nat), 3nat,
{
    let q = pos + blanks_at(s, pos);
    if q < s.len() && (s[q] == '+' || s[q] == '-') {
        let op = if s[q] == '+' {
            BinaryOp::Add
        } else {
            BinaryOp::Sub
        };
        let t = q + 1 + blanks_at(s, q + 1);
        match parse_term(s, t) {
            Some((e, n)) => {
                let combined = Expr::Binary { left: Box::new(acc), op, right: Box::new(e) };
                let (r, m) = parse_expression_tail(s, t + n, combined);
                (r, t + n + m - pos)
            },
            None => (acc, 0),
        }
    } else {
        (acc, 0)
    }
}

/// Parses an expression at `pos`.
pub fn parse_expression(s: &[char], pos: usize) -> (r: Option<(Expr, usize)>)
    requires
        pos <= s.len(),
    ensures
        match r {
            Some((e, n)) => spec_expression(s@, pos as nat) == Some((expr_view(e), n as nat))
                && pos + n <= s@.len(),
            None => spec_expression(s@, pos as nat) is None,
        },
    decreases remaining(s@.len(), pos as nat), 4nat,
{
    match parse_term(s, pos) {
        Some((e, n)) => {
            let (r, m) = parse_expression_tail(s, pos + n, e);
            Some((r, n + m))
        },
        None => None,
    }
}

/// Parses an operand at `pos`.
pub fn parse_operand(s: &[char], pos: usize) -> (r: Option<(OperandExpr, usize)>)
    requires
        pos <= s.len(),
    ensures
        match r {
            Some((o, n)) => spec_operand(s@, pos as nat) == Some((operand_view(o), n as nat))
                && pos + n <= s@.len(),
            None => spec_operand(s@, pos as nat) is None,
        },
{
    let p0 = pos + blanks_at(s, pos);
    let mut mode = AddressingMode::Direct;
    let mut p1 = p0;
    if p0 < s.len() {
        match AddressingMode::from_prefix(s[p0]) {
            Some(m) => {
                mode = m;
                p1 = p0 + 1;
            },
            None => {},
        }
    }
    match parse_expression(s, p1) {
        Some((e, n)) => {
            let end = p1 + n;
            let b = blanks_at(s, end);
            Some((OperandExpr { mode, expr: e }, end + b - pos))
        },
        None => None,
    }
}

fn parse_operand_tail(s: &[char], pos: usize, acc: Vec<OperandExpr>) -> (r: (
    Vec<OperandExpr>,
    usize,
))
    requires
        pos <= s.len(),
    ensures
        spec_operand_tail(s@, pos as nat, operands_view(acc@)) == (operands_view(r.0@), r.1 as nat),
        pos + r.1 <= s@.len(),
    decreases remaining(s@.len(), pos as nat),
{
    let q = pos + blanks_at(s, pos);
    if q < s.len() && s[q] == ',' {
        let t = q + 1 + blanks_at(s, q + 1);
        match parse_operand(s, t) {
            Some((o, n)) => {
                let mut acc = acc;
                let ghost before = acc@;
                acc.push(o);
                assert(operands_view(acc@) =~= operands_view(before).push(operand_view(o)));
                let (r, m) = parse_operand_tail(s, t + n, acc);
                (r, t + n + m - pos)
            },
            None => (acc, 0),
        }
    } else {
        (acc, 0)
    }
}

/// The pieces of an instruction statement (see [`spec_instruction_text`]).
pub fn parse_instruction_text(s: &[char]) -> (r: Option<(Vec<char>, Option<Vec<char>>, Vec<OperandExpr>)>)
    ensures
        match r {
            Some((name, modifier, ops)) => spec_instruction_text(s@) == Some(
                (
                    name@,
                    match modifier {
                        Some(m) => Some(m@),
                        None => None,
                    },
                    operands_view(ops@),
                ),
            ),
            None => spec_instruction_text(s@) is None,
        },
{
    let k = ident_at(s, 0);
    if k == 0 {
        return None;
    }
    let name = copy_range(s, 0, k);
    let mut pos = k;
    let mut modifier: Option<Vec<char>> = None;
    if k < s.len() && s[k] == '.' {
        let k2 = ident_at(s, k + 1);
        if k2 > 0 {
            modifier = Some(copy_range(s, k + 1, k + 1 + k2));
            pos = k + 1 + k2;
        }
    }
    let b = blanks_at(s, pos);
    let mut operands: Vec<OperandExpr> = Vec::new();
    let mut after = pos;
    if b > 0 {
        match parse_operand(s, pos + b) {
            Some((o, n)) => {
                let mut first: Vec<OperandExpr> = Vec::new();
                first.push(o);
                assert(operands_view(first@) =~= seq![operand_view(o)]);
                let (ops, m) = parse_operand_tail(s, pos + b + n, first);
                operands = ops;
                after = pos + b + n + m;
            },
            None => {},
        }
    }
    assert(operands_view(Seq::<OperandExpr>::empty()) =~= Seq::<SpecOperand>::empty());
    let trailing = blanks_at(s, after);
    if after + trailing == s.len() {
        assert(name@ == s@.take(k as int));
        Some((name, modifier, operands))
    } else {
        None
    }
}

/// `keyword` (any ASCII case), blanks, an expression, blanks, and nothing else.
pub fn parse_directive_expr(s: &[char], keyword: &[char]) -> (r: Option<Expr>)
    ensures
        match r {
            Some(e) => spec_directive_expr(s@, keyword@) == Some(expr_view(e)),
            None => spec_directive_expr(s@, keyword@) is None,
        },
{
    let k = keyword.len();
    if s.len() < k {
        return None;
    }
    let head = copy_range(s, 0, k);
    assert(head@ == s@.take(k as int));
    if !equals_ignore_case(head.as_slice(), keyword) {
        return None;
    }
    let b = blanks_at(s, k);
    if b == 0 {
        return None;
    }
    let p = k + b;
    match parse_expression(s, p) {
        Some((e, n)) => {
            let t = blanks_at(s, p + n);
            if p + n + t == s.len() {
                Some(e)
            } else {
                None
            }
        },
        None => None,
    }
}

/// `END`, optionally followed by an expression (see [`spec_end_directive`]).
pub fn parse_end_directive(s: &[char]) -> (r: Result<Option<Expr>, ()>)
    ensures
        match r {
            Ok(Some(e)) => spec_end_directive(s@) == Ok::<Option<SpecExpr>, ()>(
                Some(expr_view(e)),
            ),
            Ok(None) => spec_end_directive(s@) == Ok::<Option<SpecExpr>, ()>(None),
            Err(()) => spec_end_directive(s@) is Err,
        },
{
    if s.len() < 3 {
        return Err(());
    }
    let head = copy_range(s, 0, 3);
    assert(head@ == s@.take(3));
    let kw: [char; 3] = ['E', 'N', 'D'];
    assert(kw@ =~= seq!['E', 'N', 'D']);
    if !equals_ignore_case(head.as_slice(), kw.as_slice()) {
        return Err(());
    }
    let b = blanks_at(s, 3);
    if b > 0 {
        match parse_expression(s, 3 + b) {
            Some((e, n)) => {
                let t = blanks_at(s, 3 + b + n);
                if 3 + b + n + t == s.len() {
                    return Ok(Some(e));
                } else {
                    return Err(());
                }
            },
            None => {},
        }
    }
    if s.len() == 3 {
        Ok(None)
    } else {
        Err(())
    }
}

} // verus!
