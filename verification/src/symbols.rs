//! Symbol tables of the assembler (EQU constants and labels) and the
//! evaluation of operand expressions against them.
//!
//! EQU symbols are expanded recursively; a symbol met again while it is
//! being expanded is a circular definition. Labels evaluate to their
//! instruction index, relative to the current instruction inside operands
//! and absolute in `ORG`/`END`. Arithmetic wraps around in 32 bits.
use vstd::prelude::*;

use crate::expr::{expr_view, BinaryOp, Expr, SpecExpr};
use crate::parse_error::{error_view, ParseError, SpecParseError};
use crate::text::{chars_equal, copy_range, string_of};

verus! {

/// The views of a vector of character vectors.
pub open spec fn names_view(v: Seq<Vec<char>>) -> Seq<Seq<char>> {
    v.map_values(|x: Vec<char>| x@)
}

/// The index of the first entry of `names` equal to `name`.
pub open spec fn find_name(names: Seq<Seq<char>>, name: Seq<char>) -> Option<nat>
    decreases names.len(),
{
    if names.len() == 0 {
        None
    } else {
        match find_name(names.drop_last(), name) {
            Some(i) => Some(i),
            None => if names.last() == name {
                Some((names.len() - 1) as nat)
            } else {
                None
            },
        }
    }
}

/// `find_name` yields the first matching index, or `None` when nothing matches.
pub proof fn lemma_find_name(names: Seq<Seq<char>>, name: Seq<char>)
    ensures
        match find_name(names, name) {
            Some(i) => i < names.len() && names[i as int] == name && forall|j: int|
                0 <= j < i ==> names[j] != name,
            None => forall|j: int| 0 <= j < names.len() ==> names[j] != name,
        },
    decreases names.len(),
{
    if names.len() > 0 {
        let rest = names.drop_last();
        lemma_find_name(rest, name);
        assert(forall|j: int| 0 <= j < rest.len() ==> rest[j] == names[j]);
    }
}

/// The number of entries of `names` that `stack` does not hold.
pub open spec fn unvisited(names: Seq<Seq<char>>, stack: Seq<Seq<char>>) -> nat
    decreases names.len(),
{
    if names.len() == 0 {
        0
    } else {
        unvisited(names.drop_last(), stack) + if stack.contains(names.last()) {
            0nat
        } else {
            1nat
        }
    }
}

/// Pushing a name onto the stack never adds unvisited entries, and removes one
/// when the name is among `names` and was not on the stack.
pub proof fn lemma_unvisited_push(names: Seq<Seq<char>>, stack: Seq<Seq<char>>, n: Seq<char>)
    ensures
        unvisited(names, stack.push(n)) <= unvisited(names, stack),
        names.contains(n) && !stack.contains(n) ==> unvisited(names, stack.push(n)) < unvisited(
            names,
            stack,
        ),
    decreases names.len(),
{
    if names.len() > 0 {
        let rest = names.drop_last();
        lemma_unvisited_push(rest, stack, n);
        assert(forall|x: Seq<char>| stack.push(n).contains(x) <==> (stack.contains(x) || x == n))
            by {
            assert forall|x: Seq<char>| stack.push(n).contains(x) implies (stack.contains(x) || x
                == n) by {
                let k = choose|k: int| 0 <= k < stack.push(n).len() && stack.push(n)[k] == x;
                if k < stack.len() {
                    assert(stack[k] == x);
                }
            }
            assert forall|x: Seq<char>| stack.contains(x) || x == n implies stack.push(
                n,
            ).contains(x) by {
                if x == n {
                    assert(stack.push(n)[stack.len() as int] == n);
                } else {
                    let k = choose|k: int| 0 <= k < stack.len() && stack[k] == x;
                    assert(stack.push(n)[k] == x);
                }
            }
        }
        if names.contains(n) && !stack.contains(n) && names.last() != n {
            let k = choose|k: int| 0 <= k < names.len() && names[k] == n;
            assert(rest[k] == n);
        }
    }
}

/// How a label evaluates: relative to the instruction being assembled, or
/// as an absolute index.
#[derive(Debug, Clone, Copy, PartialEq, Eq, Structural)]
pub enum LabelMode {
    Relative { current: usize },
    Absolute,
}

/// The EQU symbols, as parallel sequences.
pub ghost struct SpecSymbols {
    pub names: Seq<Seq<char>>,
    pub lines: Seq<nat>,
    pub exprs: Seq<SpecExpr>,
}

/// The labels and the instruction index each stands for.
pub ghost struct SpecLabels {
    pub names: Seq<Seq<char>>,
    pub targets: Seq<nat>,
}

pub open spec fn label_value(target: nat, mode: LabelMode) -> i32 {
    match mode {
        LabelMode::Relative { current } => (target - current) as i32,
        LabelMode::Absolute => target as i32,
    }
}

/// Division that rounds toward zero; the one quotient that does not fit
/// (`i32::MIN / -1`) wraps around to `i32::MIN`.
pub open spec fn trunc_div(x: i32, d: i32) -> i32 {
    let q: int = if x == 0 {
        0
    } else if x > 0 && d > 0 {
        x / d
    } else if x < 0 && d < 0 {
        (-x) / (-d)
    } else if x < 0 {
        -((-x) / (d as int))
    } else {
        -((x as int) / (-d))
    };
    if q > i32::MAX {
        i32::MIN
    } else {
        q as i32
    }
}

pub open spec fn apply_op(op: BinaryOp, l: i32, r: i32) -> i32 {
    match op {
        BinaryOp::Add => vstd::wrapping::i32_specs::wrapping_add(l, r),
        BinaryOp::Sub => vstd::wrapping::i32_specs::wrapping_sub(l, r),
        BinaryOp::Mul => vstd::wrapping::i32_specs::wrapping_mul(l, r),
        BinaryOp::Div => trunc_div(l, r),
    }
}

/// The value of `e`: symbols are looked up among the EQU symbols first and
/// then among the labels; `stack` holds the EQU symbols being expanded.
pub open spec fn spec_eval(
    e: SpecExpr,
    syms: SpecSymbols,
    labels: SpecLabels,
    mode: LabelMode,
    line: nat,
    stack: Seq<Seq<char>>,
) -> Result<i32, SpecParseError>
    decreases unvisited(syms.names, stack), e,
{
    match e {
        SpecExpr::Number(v) => Ok(v),
        SpecExpr::Symbol(name) => match find_name(syms.names, name) {
            Some(i) => {
                let at = if syms.lines[i as int] >= line {
                    syms.lines[i as int]
                } else {
                    line
                };
                match syms.exprs[i as int] {
                    SpecExpr::Number(v) => Ok(v),
                    _ => if stack.contains(name) {
                        Err(SpecParseError::CircularEqu { name, line: at })
                    } else {
                        proof {
                            lemma_find_name(syms.names, name);
                            assert(syms.names[i as int] == name);
                            lemma_unvisited_push(syms.names, stack, name);
                        }
                        spec_eval(syms.exprs[i as int], syms, labels, mode, at, stack.push(name))
                    },
                }
            },
            None => match find_name(labels.names, name) {
                Some(i) => Ok(label_value(labels.targets[i as int], mode)),
                None => Err(SpecParseError::UndefinedLabel { label: name, line }),
            },
        },
        SpecExpr::Neg(inner) => match spec_eval(*inner, syms, labels, mode, line, stack) {
            Ok(v) => Ok(vstd::wrapping::i32_specs::wrapping_sub(0, v)),
            Err(err) => Err(err),
        },
        SpecExpr::Bin(left, op, right) => match spec_eval(*left, syms, labels, mode, line, stack) {
            Err(err) => Err(err),
            Ok(l) => match spec_eval(*right, syms, labels, mode, line, stack) {
                Err(err) => Err(err),
                Ok(r) => if op == BinaryOp::Div && r == 0 {
                    Err(SpecParseError::DivisionByZero { line })
                } else {
                    Ok(apply_op(op, l, r))
                },
            },
        },
    }
}

pub open spec fn result_view<T>(r: Result<T, ParseError>) -> Result<T, SpecParseError> {
    match r {
        Ok(v) => Ok(v),
        Err(e) => Err(error_view(e)),
    }
}

// ---------------------------------------------------------------------------
// Executable tables
// ---------------------------------------------------------------------------

/// EQU symbols, kept as parallel vectors.
pub struct Symbols {
    pub names: Vec<Vec<char>>,
    pub lines: Vec<usize>,
    pub exprs: Vec<Expr>,
}

impl Symbols {
    pub open spec fn view(&self) -> SpecSymbols {
        SpecSymbols {
            names: names_view(self.names@),
            lines: self.lines@.map_values(|l: usize| l as nat),
            exprs: self.exprs@.map_values(|e: Expr| expr_view(e)),
        }
    }

    pub open spec fn wf(&self) -> bool {
        &&& self.lines@.len() == self.names@.len()
        &&& self.exprs@.len() == self.names@.len()
    }
}

/// Labels, kept as parallel vectors.
pub struct Labels {
    pub names: Vec<Vec<char>>,
    pub targets: Vec<usize>,
}

impl Labels {
    pub open spec fn view(&self) -> SpecLabels {
        SpecLabels {
            names: names_view(self.names@),
            targets: self.targets@.map_values(|t: usize| t as nat),
        }
    }

    pub open spec fn wf(&self) -> bool {
        self.targets@.len() == self.names@.len()
    }

    /// Every label points at most one past the largest warrior.
    pub open spec fn bounded(&self) -> bool {
        forall|k: int| 0 <= k < self.targets@.len() ==> self.targets@[k] <= 100
    }
}

pub open spec fn mode_bounded(mode: LabelMode) -> bool {
    match mode {
        LabelMode::Relative { current } => current <= 100,
        LabelMode::Absolute => true,
    }
}

/// The index of the first entry of `names` equal to `name`.
pub fn find_name_exec(names: &Vec<Vec<char>>, name: &[char]) -> (r: Option<usize>)
    ensures
        match r {
            Some(i) => find_name(names_view(names@), name@) == Some(i as nat),
            None => find_name(names_view(names@), name@) is None,
        },
{
    let ghost all = names_view(names@);
    let mut i: usize = 0;
    while i < names.len()
        invariant
            i <= names@.len(),
            all == names_view(names@),
            forall|j: int| 0 <= j < i ==> all[j] != name@,
        decreases names@.len() - i,
    {
        if chars_equal(names[i].as_slice(), name) {
            assert(all[i as int] == name@);
            assert(find_name(all, name@) == Some(i as nat)) by {
                lemma_find_name(all, name@);
                match find_name(all, name@) {
                    Some(k) => {
                        if k < i {
                            assert(all[k as int] != name@);
                        }
                    },
                    None => {},
                }
            }
            return Some(i);
        }
        i = i + 1;
    }
    proof {
        lemma_find_name(all, name@);
    }
    None
}

fn label_value_exec(target: usize, mode: LabelMode) -> (v: i32)
    requires
        target <= 100,
        mode_bounded(mode),
    ensures
        v == label_value(target as nat, mode),
{
    match mode {
        LabelMode::Relative { current } => target as i32 - current as i32,
        LabelMode::Absolute => target as i32,
    }
}

fn apply_op_exec(op: BinaryOp, l: i32, r: i32) -> (v: i32)
    requires
        op == BinaryOp::Div ==> r != 0,
    ensures
        v == apply_op(op, l, r),
{
    match op {
        BinaryOp::Add => l.wrapping_add(r),
        BinaryOp::Sub => l.wrapping_sub(r),
        BinaryOp::Mul => l.wrapping_mul(r),
        BinaryOp::Div => match l.checked_div(r) {
            Some(q) => q,
            None => i32::MIN,
        },
    }
}

/// Evaluates `e` (see [`spec_eval`]); `stack` is left as it was.
pub fn eval(
    e: &Expr,
    syms: &Symbols,
    labels: &Labels,
    mode: LabelMode,
    line: usize,
    stack: &mut Vec<Vec<char>>,
) -> (r: Result<i32, ParseError>)
    requires
        syms.wf(),
        labels.wf(),
        labels.bounded(),
        mode_bounded(mode),
    ensures
        final(stack)@ == old(stack)@,
        result_view(r) == spec_eval(
            expr_view(*e),
            syms.view(),
            labels.view(),
            mode,
            line as nat,
            names_view(old(stack)@),
        ),
    decreases unvisited(syms.view().names, names_view(old(stack)@)), e,
{
    let ghost st = names_view(stack@);
    match e {
        Expr::Number(v) => Ok(*v),
        Expr::Symbol(name) => {
            match find_name_exec(&syms.names, name.as_slice()) {
                Some(i) => {
                    proof {
                        lemma_find_name(syms.view().names, name@);
                    }
                    let sym_line = syms.lines[i];
                    let at = if sym_line >= line {
                        sym_line
                    } else {
                        line
                    };
                    let sym_expr = &syms.exprs[i];
                    assert(expr_view(*sym_expr) == syms.view().exprs[i as int]);
                    match sym_expr {
                        Expr::Number(v) => Ok(*v),
                        _ => {
                            proof {
                                lemma_find_name(st, name@);
                            }
                            if find_name_exec(stack, name.as_slice()).is_some() {
                                assert(st.contains(name@)) by {
                                    let k = find_name(st, name@)->0;
                                    assert(st[k as int] == name@);
                                }
                                return Err(
                                    ParseError::CircularEqu {
                                        name: string_of(name.as_slice()),
                                        line: at,
                                    },
                                );
                            }
                            assert(!st.contains(name@)) by {
                                if st.contains(name@) {
                                    let k = choose|k: int| 0 <= k < st.len() && st[k] == name@;
                                    assert(st[k] == name@);
                                }
                            }
                            let ghost before = stack@;
                            let entry = copy_range(name.as_slice(), 0, name.len());
                            assert(entry@ =~= name@);
                            stack.push(entry);
                            assert(names_view(stack@) =~= st.push(name@));
                            proof {
                                assert(syms.view().names[i as int] == name@);
                                lemma_unvisited_push(syms.view().names, st, name@);
                            }
                            let r = eval(sym_expr, syms, labels, mode, at, stack);
                            stack.pop();
                            assert(stack@ =~= before);
                            r
                        },
                    }
                },
                None => {
                    match find_name_exec(&labels.names, name.as_slice()) {
                        Some(i) => {
                            proof {
                                lemma_find_name(labels.view().names, name@);
                            }
                            Ok(label_value_exec(labels.targets[i], mode))
                        },
                        None => Err(
                            ParseError::UndefinedLabel { label: string_of(name.as_slice()), line },
                        ),
                    }
                },
            }
        },
        Expr::UnaryMinus(inner) => {
            match eval(inner, syms, labels, mode, line, stack) {
                Ok(v) => Ok(0i32.wrapping_sub(v)),
                Err(err) => Err(err),
            }
        },
        Expr::Binary { left, op, right } => {
            let l = match eval(left, syms, labels, mode, line, stack) {
                Ok(v) => v,
                Err(err) => {
                    return Err(err);
                },
            };
            let r = match eval(right, syms, labels, mode, line, stack) {
                Ok(v) => v,
                Err(err) => {
                    return Err(err);
                },
            };
            if matches!(op, BinaryOp::Div) && r == 0 {
                return Err(ParseError::DivisionByZero { line });
            }
            Ok(apply_op_exec(*op, l, r))
        },
    }
}

} // verus!
