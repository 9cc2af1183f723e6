//! The Redcode assembler: turns source text into a [`Warrior`].
//!
//! The source is lexed into metadata and statement lines; statements define
//! EQU symbols and labels, set the start (`ORG`, `END`) and queue
//! instructions. Once every line is read, each queued instruction is
//! assembled: missing operands are filled in, the modifier is inferred when
//! none is named, and operand expressions are evaluated.
use vstd::prelude::*;

use crate::constants::{CORESIZE, MAXCYCLES, MAXLENGTH, MAXPROCESSES, MAXWARRIORS, MINDISTANCE};
use crate::expr::{
    expr_view, operands_view, parse_directive_expr, parse_end_directive, parse_instruction_text,
    spec_directive_expr, spec_end_directive, spec_instruction_text, Expr, OperandExpr, SpecExpr,
    SpecOperand,
};
use crate::instruction::{
    infer_modifier, spec_infer_modifier, spec_instruction, spec_modifier_named, spec_opcode_named,
    AddressingMode, Instruction, Modifier, Opcode,
};
use crate::lexer::{
    kw_end, kw_equ, kw_org, lex, lexed_seq_view, statement_view, syntax_error, LexedLine,
    MetadataKind, SpecLexed, SpecStatement, StatementKind, StatementLine,
};
use crate::parse_error::{error_view, ParseError, SpecParseError};
use crate::symbols::{
    eval, find_name, find_name_exec, lemma_find_name, names_view, result_view, spec_eval,
    LabelMode, Labels, SpecLabels, SpecSymbols, Symbols,
};
use crate::text::{chars_of, copy_range, string_of};
use crate::warrior::{warrior_view, SpecWarrior, Warrior};

verus! {

// ---------------------------------------------------------------------------
// The assembler's state
// ---------------------------------------------------------------------------

/// An instruction statement, parsed but not yet assembled.
pub ghost struct SpecPending {
    pub line: nat,
    pub opcode: Opcode,
    pub modifier: Option<Modifier>,
    pub operands: Seq<SpecOperand>,
}

/// What the assembler knows after some lines.
pub ghost struct AsmState {
    pub name: Seq<char>,
    pub author: Seq<char>,
    pub strategy: Option<Seq<char>>,
    pub pending: Seq<SpecPending>,
    pub labels: SpecLabels,
    pub syms: SpecSymbols,
    pub org: Option<(nat, SpecExpr)>,
    pub end: Option<(nat, SpecExpr)>,
}

/// The symbols every warrior may use.
pub open spec fn predefined_symbols() -> SpecSymbols {
    SpecSymbols {
        names: seq![
            "CORESIZE"@,
            "MAXPROCESSES"@,
            "MAXCYCLES"@,
            "MAXLENGTH"@,
            "MINDISTANCE"@,
            "WARRIORS"@,
        ],
        lines: seq![0nat, 0nat, 0nat, 0nat, 0nat, 0nat],
        exprs: seq![
            SpecExpr::Number(CORESIZE as i32),
            SpecExpr::Number(MAXPROCESSES as i32),
            SpecExpr::Number(MAXCYCLES as i32),
            SpecExpr::Number(MAXLENGTH as i32),
            SpecExpr::Number(MINDISTANCE as i32),
            SpecExpr::Number(MAXWARRIORS as i32),
        ],
    }
}

pub open spec fn initial_state() -> AsmState {
    AsmState {
        name: "unnamed"@,
        author: Seq::empty(),
        strategy: None,
        pending: Seq::empty(),
        labels: SpecLabels { names: Seq::empty(), targets: Seq::empty() },
        syms: predefined_symbols(),
        org: None,
        end: None,
    }
}

/// A `;strategy` line: non-empty text is appended as a new line, empty text
/// starts an empty strategy when there is none yet.
pub open spec fn merge_strategy(current: Option<Seq<char>>, value: Seq<char>) -> Option<
    Seq<char>,
> {
    match current {
        Some(s) => if value.len() == 0 {
            Some(s)
        } else if s.len() == 0 {
            Some(value)
        } else {
            Some(s.push('\n') + value)
        },
        None => Some(value),
    }
}

/// A name is taken when it is a label or a symbol.
pub open spec fn is_defined(st: AsmState, name: Seq<char>) -> bool {
    find_name(st.labels.names, name) is Some || find_name(st.syms.names, name) is Some
}

/// The instruction an instruction statement holds.
pub open spec fn spec_pending(text: Seq<char>, line: nat) -> Result<SpecPending, SpecParseError> {
    match spec_instruction_text(text) {
        None => Err(
            syntax_error(line, "could not parse instruction '"@ + text + "'"@),
        ),
        Some((opname, modname, operands)) => match spec_opcode_named(opname) {
            None => Err(SpecParseError::InvalidOpcode { opcode: opname, line }),
            Some(opcode) => match modname {
                None => Ok(SpecPending { line, opcode, modifier: None, operands }),
                Some(m) => match spec_modifier_named(m) {
                    None => Err(SpecParseError::InvalidModifier { modifier: m, line }),
                    Some(modifier) => Ok(
                        SpecPending { line, opcode, modifier: Some(modifier), operands },
                    ),
                },
            },
        },
    }
}

/// A statement other than `EQU`, after its label has been recorded.
pub open spec fn spec_directive_or_instruction(st: AsmState, stmt: SpecStatement) -> Result<
    AsmState,
    SpecParseError,
> {
    let line = stmt.line;
    match stmt.kind {
        StatementKind::Org => match spec_directive_expr(stmt.statement, kw_org()) {
            None => Err(SpecParseError::InvalidDirective { directive: stmt.statement, line }),
            Some(e) => Ok(AsmState { org: Some((line, e)), ..st }),
        },
        StatementKind::End => match spec_end_directive(stmt.statement) {
            Err(_) => Err(SpecParseError::InvalidDirective { directive: stmt.statement, line }),
            Ok(None) => Ok(AsmState { end: None, ..st }),
            Ok(Some(e)) => Ok(AsmState { end: Some((line, e)), ..st }),
        },
        _ => match spec_pending(stmt.statement, line) {
            Err(e) => Err(e),
            Ok(p) => Ok(AsmState { pending: st.pending.push(p), ..st }),
        },
    }
}

/// The effect of one statement.
#[verifier::opaque]
pub open spec fn spec_statement_step(st: AsmState, stmt: SpecStatement) -> Result<
    AsmState,
    SpecParseError,
> {
    let line = stmt.line;
    if stmt.kind == StatementKind::Equ {
        match stmt.label {
            None => Err(syntax_error(line, "EQU requires a symbol name"@)),
            Some(name) => if is_defined(st, name) {
                Err(SpecParseError::DuplicateLabel { label: name, line })
            } else {
                match spec_directive_expr(stmt.statement, kw_equ()) {
                    None => Err(
                        SpecParseError::InvalidDirective { directive: stmt.statement, line },
                    ),
                    Some(e) => Ok(
                        AsmState {
                            syms: SpecSymbols {
                                names: st.syms.names.push(name),
                                lines: st.syms.lines.push(line),
                                exprs: st.syms.exprs.push(e),
                            },
                            ..st
                        },
                    ),
                }
            },
        }
    } else {
        match stmt.label {
            None => spec_directive_or_instruction(st, stmt),
            Some(name) => if is_defined(st, name) {
                Err(SpecParseError::DuplicateLabel { label: name, line })
            } else {
                spec_directive_or_instruction(
                    AsmState {
                        labels: SpecLabels {
                            names: st.labels.names.push(name),
                            targets: st.labels.targets.push(st.pending.len()),
                        },
                        ..st
                    },
                    stmt,
                )
            },
        }
    }
}

/// The effect of one lexed line.
pub open spec fn spec_line_step(st: AsmState, l: SpecLexed) -> Result<AsmState, SpecParseError> {
    match l {
        SpecLexed::Metadata { line, kind, value } => Ok(
            match kind {
                MetadataKind::Name => AsmState { name: value, ..st },
                MetadataKind::Author => AsmState { author: value, ..st },
                MetadataKind::Strategy => AsmState {
                    strategy: merge_strategy(st.strategy, value),
                    ..st
                },
            },
        ),
        SpecLexed::Statement(s) => spec_statement_step(st, s),
    }
}

/// Reads `lines[i..]` from state `st`; the first failing line decides.
pub open spec fn spec_process(st: AsmState, lines: Seq<SpecLexed>, i: nat) -> Result<
    AsmState,
    SpecParseError,
>
    decreases lines.len() - i,
{
    if i >= lines.len() {
        Ok(st)
    } else {
        match spec_line_step(st, lines[i as int]) {
            Err(e) => Err(e),
            Ok(next) => spec_process(next, lines, i + 1),
        }
    }
}

// ---------------------------------------------------------------------------
// Assembly
// ---------------------------------------------------------------------------

pub open spec fn zero_operand(mode: AddressingMode) -> SpecOperand {
    SpecOperand { mode, expr: SpecExpr::Number(0) }
}

/// The A and B operands of an instruction with at most two operands: none
/// gives `$0, $0`; a lone operand is the B operand of `DAT` (after `#0`) and
/// the A operand (before `$0`) of anything else.
pub open spec fn operand_pair(opcode: Opcode, ops: Seq<SpecOperand>) -> (SpecOperand, SpecOperand) {
    if ops.len() == 0 {
        (zero_operand(AddressingMode::Direct), zero_operand(AddressingMode::Direct))
    } else if ops.len() == 1 {
        if opcode == Opcode::DAT {
            (zero_operand(AddressingMode::Immediate), ops[0])
        } else {
            (ops[0], zero_operand(AddressingMode::Direct))
        }
    } else {
        (ops[0], ops[1])
    }
}

/// Assembles the instruction at `index`.
#[verifier::opaque]
pub open spec fn spec_assemble_one(
    p: SpecPending,
    index: nat,
    syms: SpecSymbols,
    labels: SpecLabels,
) -> Result<Instruction, SpecParseError> {
    if p.operands.len() > 2 {
        Err(syntax_error(p.line, "too many operands"@))
    } else {
        let (a, b) = operand_pair(p.opcode, p.operands);
        let modifier = match p.modifier {
            Some(m) => m,
            None => spec_infer_modifier(p.opcode, a.mode, b.mode),
        };
        let mode = LabelMode::Relative { current: index as usize };
        match spec_eval(a.expr, syms, labels, mode, p.line, Seq::empty()) {
            Err(e) => Err(e),
            Ok(av) => match spec_eval(b.expr, syms, labels, mode, p.line, Seq::empty()) {
                Err(e) => Err(e),
                Ok(bv) => Ok(spec_instruction(p.opcode, modifier, a.mode, av, b.mode, bv)),
            },
        }
    }
}

/// A lone operand: for `DAT` it is the B field and A is `#0`; for any
/// other opcode it is the A field and B is `$0`. Either way the assembled
/// field takes the operand's mode and the operand's value, and assembly
/// succeeds exactly when that value can be found.
pub proof fn lemma_lone_operand(p: SpecPending, index: nat, syms: SpecSymbols, labels: SpecLabels)
    requires
        p.operands.len() == 1,
    ensures
        ({
            let value = spec_eval(
                p.operands[0].expr,
                syms,
                labels,
                LabelMode::Relative { current: index as usize },
                p.line,
                Seq::empty(),
            );
            &&& (spec_assemble_one(p, index, syms, labels) is Ok <==> value is Ok)
            &&& spec_assemble_one(p, index, syms, labels) matches Ok(ins) ==> {
                &&& ins.opcode == p.opcode
                &&& if p.opcode == Opcode::DAT {
                    &&& ins.a_mode == AddressingMode::Immediate
                    &&& ins.a_value == 0
                    &&& ins.b_mode == p.operands[0].mode
                    &&& value == Ok::<i32, SpecParseError>(ins.b_value)
                } else {
                    &&& ins.a_mode == p.operands[0].mode
                    &&& value == Ok::<i32, SpecParseError>(ins.a_value)
                    &&& ins.b_mode == AddressingMode::Direct
                    &&& ins.b_value == 0
                }
            }
        }),
{
    reveal(spec_assemble_one);
}

/// No operand assembles `$0, $0`; two operands fill A and B in order.
pub proof fn lemma_operand_fields(p: SpecPending, index: nat, syms: SpecSymbols, labels: SpecLabels)
    requires
        p.operands.len() == 0 || p.operands.len() == 2,
    ensures
        spec_assemble_one(p, index, syms, labels) matches Ok(ins) ==> {
            &&& ins.opcode == p.opcode
            &&& if p.operands.len() == 0 {
                &&& ins.a_mode == AddressingMode::Direct
                &&& ins.a_value == 0
                &&& ins.b_mode == AddressingMode::Direct
                &&& ins.b_value == 0
            } else {
                let mode = LabelMode::Relative { current: index as usize };
                &&& ins.a_mode == p.operands[0].mode
                &&& ins.b_mode == p.operands[1].mode
                &&& spec_eval(p.operands[0].expr, syms, labels, mode, p.line, Seq::empty())
                    == Ok::<i32, SpecParseError>(ins.a_value)
                &&& spec_eval(p.operands[1].expr, syms, labels, mode, p.line, Seq::empty())
                    == Ok::<i32, SpecParseError>(ins.b_value)
            }
        },
{
    reveal(spec_assemble_one);
}

/// Assembles `pending[i..]` after `acc`; the first failing instruction decides.
pub open spec fn spec_assemble(
    pending: Seq<SpecPending>,
    i: nat,
    syms: SpecSymbols,
    labels: SpecLabels,
    acc: Seq<Instruction>,
) -> Result<Seq<Instruction>, SpecParseError>
    decreases pending.len() - i,
{
    if i >= pending.len() {
        Ok(acc)
    } else {
        match spec_assemble_one(pending[i as int], i, syms, labels) {
            Err(e) => Err(e),
            Ok(ins) => spec_assemble(pending, i + 1, syms, labels, acc.push(ins)),
        }
    }
}

/// Checks a start offset against the number of instructions.
pub open spec fn normalize_start(value: i32, count: nat, line: nat) -> Result<nat, SpecParseError> {
    if count == 0 {
        Ok(0)
    } else if value < 0 {
        Err(syntax_error(line, "start offset must be non-negative"@))
    } else if value >= count {
        Err(syntax_error(line, "start offset must point inside the assembled warrior"@))
    } else {
        Ok(value as nat)
    }
}

/// The start offset: `END`'s expression if it has one, else `ORG`'s, else 0.
pub open spec fn spec_start(st: AsmState, count: nat) -> Result<nat, SpecParseError> {
    let located = if st.end is Some {
        st.end
    } else {
        st.org
    };
    match located {
        None => Ok(0),
        Some((line, e)) => match spec_eval(
            e,
            st.syms,
            st.labels,
            LabelMode::Absolute,
            line,
            Seq::empty(),
        ) {
            Err(err) => Err(err),
            Ok(v) => normalize_start(v, count, line),
        },
    }
}

/// The warrior a Redcode source assembles to, or the first error.
pub open spec fn spec_parse_warrior(source: Seq<char>) -> Result<SpecWarrior, SpecParseError> {
    match crate::lexer::spec_lex(source) {
        Err(e) => Err(e),
        Ok(lines) => match spec_process(initial_state(), lines, 0) {
            Err(e) => Err(e),
            Ok(st) => if st.pending.len() > MAXLENGTH {
                Err(SpecParseError::TooLong { max_length: MAXLENGTH as nat })
            } else {
                match spec_assemble(st.pending, 0, st.syms, st.labels, Seq::empty()) {
                    Err(e) => Err(e),
                    Ok(instructions) => match spec_start(st, instructions.len()) {
                        Err(e) => Err(e),
                        Ok(start) => Ok(
                            SpecWarrior {
                                name: st.name,
                                author: st.author,
                                strategy: st.strategy,
                                instructions,
                                start_offset: start,
                            },
                        ),
                    },
                }
            },
        },
    }
}

// ---------------------------------------------------------------------------
// Executable assembler
// ---------------------------------------------------------------------------

/// An instruction statement, parsed but not yet assembled.
pub struct PendingInstruction {
    pub line: usize,
    pub opcode: Opcode,
    pub modifier: Option<Modifier>,
    pub operands: Vec<OperandExpr>,
}

pub open spec fn pending_view(p: PendingInstruction) -> SpecPending {
    SpecPending {
        line: p.line as nat,
        opcode: p.opcode,
        modifier: p.modifier,
        operands: operands_view(p.operands@),
    }
}

pub open spec fn located_view(o: Option<(usize, Expr)>) -> Option<(nat, SpecExpr)> {
    match o {
        Some((line, e)) => Some((line as nat, expr_view(e))),
        None => None,
    }
}

struct Assembly {
    name: Vec<char>,
    author: Vec<char>,
    strategy: Option<Vec<char>>,
    pending: Vec<PendingInstruction>,
    labels: Labels,
    syms: Symbols,
    org: Option<(usize, Expr)>,
    end: Option<(usize, Expr)>,
}

impl Assembly {
    spec fn view(&self) -> AsmState {
        AsmState {
            name: self.name@,
            author: self.author@,
            strategy: match self.strategy {
                Some(s) => Some(s@),
                None => None,
            },
            pending: self.pending@.map_values(|p: PendingInstruction| pending_view(p)),
            labels: self.labels.view(),
            syms: self.syms.view(),
            org: located_view(self.org),
            end: located_view(self.end),
        }
    }

    /// The tables are well formed and every label points at most one past
    /// the last queued instruction.
    spec fn wf(&self) -> bool {
        &&& self.syms.wf()
        &&& self.labels.wf()
        &&& forall|k: int|
            0 <= k < self.labels.targets@.len() ==> self.labels.targets@[k] <= self.pending@.len()
    }
}

fn predefined() -> (s: Symbols)
    ensures
        s.wf(),
        s.view() == predefined_symbols(),
{
    let mut names: Vec<Vec<char>> = Vec::new();
    names.push(chars_of("CORESIZE"));
    names.push(chars_of("MAXPROCESSES"));
    names.push(chars_of("MAXCYCLES"));
    names.push(chars_of("MAXLENGTH"));
    names.push(chars_of("MINDISTANCE"));
    names.push(chars_of("WARRIORS"));
    let mut lines: Vec<usize> = Vec::new();
    lines.push(0);
    lines.push(0);
    lines.push(0);
    lines.push(0);
    lines.push(0);
    lines.push(0);
    let mut exprs: Vec<Expr> = Vec::new();
    exprs.push(Expr::Number(CORESIZE as i32));
    exprs.push(Expr::Number(MAXPROCESSES as i32));
    exprs.push(Expr::Number(MAXCYCLES as i32));
    exprs.push(Expr::Number(MAXLENGTH as i32));
    exprs.push(Expr::Number(MINDISTANCE as i32));
    exprs.push(Expr::Number(MAXWARRIORS as i32));
    let s = Symbols { names, lines, exprs };
    assert(s.view().names =~= predefined_symbols().names);
    assert(s.view().lines =~= predefined_symbols().lines);
    assert(s.view().exprs =~= predefined_symbols().exprs);
    s
}

/// Parses an instruction statement (see [`spec_pending`]).
fn pending_instruction(text: &[char], line: usize) -> (r: Result<PendingInstruction, ParseError>)
    ensures
        match r {
            Ok(p) => spec_pending(text@, line as nat) == Ok::<SpecPending, SpecParseError>(
                pending_view(p),
            ),
            Err(e) => spec_pending(text@, line as nat) == Err::<SpecPending, SpecParseError>(
                error_view(e),
            ),
        },
{
    match parse_instruction_text(text) {
        None => {
            let mut msg = chars_of("could not parse instruction '");
            let mut body = copy_range(text, 0, text.len());
            assert(body@ =~= text@);
            let mut quote = chars_of("'");
            msg.append(&mut body);
            msg.append(&mut quote);
            Err(ParseError::Syntax { line, message: string_of(msg.as_slice()) })
        },
        Some((opname, modname, operands)) => {
            match Opcode::from_name(opname.as_slice()) {
                None => Err(
                    ParseError::InvalidOpcode { opcode: string_of(opname.as_slice()), line },
                ),
                Some(opcode) => match modname {
                    None => Ok(PendingInstruction { line, opcode, modifier: None, operands }),
                    Some(m) => match Modifier::from_name(m.as_slice()) {
                        None => Err(
                            ParseError::InvalidModifier { modifier: string_of(m.as_slice()), line },
                        ),
                        Some(modifier) => Ok(
                            PendingInstruction { line, opcode, modifier: Some(modifier), operands },
                        ),
                    },
                },
            }
        },
    }
}

#[verifier::rlimit(40)]
fn directive_or_instruction(st: &mut Assembly, stmt: &StatementLine) -> (r: Result<(), ParseError>)
    requires
        old(st).wf(),
    ensures
        match r {
            Ok(()) => final(st).wf() && spec_directive_or_instruction(
                old(st).view(),
                statement_view(*stmt),
            ) == Ok::<AsmState, SpecParseError>(final(st).view()),
            Err(e) => spec_directive_or_instruction(old(st).view(), statement_view(*stmt)) == Err::<
                AsmState,
                SpecParseError,
            >(error_view(e)),
        },
{
    let line = stmt.line;
    match stmt.kind {
        StatementKind::Org => {
            let kw: [char; 3] = ['O', 'R', 'G'];
            assert(kw@ =~= kw_org());
            match parse_directive_expr(stmt.statement.as_slice(), kw.as_slice()) {
                None => Err(
                    ParseError::InvalidDirective {
                        directive: string_of(stmt.statement.as_slice()),
                        line,
                    },
                ),
                Some(e) => {
                    st.org = Some((line, e));
                    Ok(())
                },
            }
        },
        StatementKind::End => {
            match parse_end_directive(stmt.statement.as_slice()) {
                Err(()) => Err(
                    ParseError::InvalidDirective {
                        directive: string_of(stmt.statement.as_slice()),
                        line,
                    },
                ),
                Ok(None) => {
                    st.end = None;
                    Ok(())
                },
                Ok(Some(e)) => {
                    st.end = Some((line, e));
                    Ok(())
                },
            }
        },
        _ => {
            match pending_instruction(stmt.statement.as_slice(), line) {
                Err(e) => Err(e),
                Ok(p) => {
                    st.pending.push(p);
                    assert(st.view().pending =~= old(st).view().pending.push(pending_view(p)));
                    Ok(())
                },
            }
        },
    }
}

#[verifier::rlimit(40)]
fn apply_statement(st: &mut Assembly, stmt: &StatementLine) -> (r: Result<(), ParseError>)
    requires
        old(st).wf(),
    ensures
        match r {
            Ok(()) => final(st).wf() && spec_statement_step(old(st).view(), statement_view(*stmt))
                == Ok::<AsmState, SpecParseError>(final(st).view()),
            Err(e) => spec_statement_step(old(st).view(), statement_view(*stmt)) == Err::<
                AsmState,
                SpecParseError,
            >(error_view(e)),
        },
{
    reveal(spec_statement_step);
    let line = stmt.line;
    match &stmt.label {
        None => {
            if matches!(stmt.kind, StatementKind::Equ) {
                Err(ParseError::Syntax { line, message: "EQU requires a symbol name".to_owned() })
            } else {
                directive_or_instruction(st, stmt)
            }
        },
        Some(name) => {
            if find_name_exec(&st.labels.names, name.as_slice()).is_some() || find_name_exec(
                &st.syms.names,
                name.as_slice(),
            ).is_some() {
                return Err(ParseError::DuplicateLabel { label: string_of(name.as_slice()), line });
            }
            let entry = copy_range(name.as_slice(), 0, name.len());
            assert(entry@ =~= name@);
            if matches!(stmt.kind, StatementKind::Equ) {
                let kw: [char; 3] = ['E', 'Q', 'U'];
                assert(kw@ =~= kw_equ());
                match parse_directive_expr(stmt.statement.as_slice(), kw.as_slice()) {
                    None => Err(
                        ParseError::InvalidDirective {
                            directive: string_of(stmt.statement.as_slice()),
                            line,
                        },
                    ),
                    Some(e) => {
                        st.syms.names.push(entry);
                        st.syms.lines.push(line);
                        st.syms.exprs.push(e);
                        assert(st.view().syms.names =~= old(st).view().syms.names.push(name@));
                        assert(st.view().syms.lines =~= old(st).view().syms.lines.push(
                            line as nat,
                        ));
                        assert(st.view().syms.exprs =~= old(st).view().syms.exprs.push(
                            expr_view(e),
                        ));
                        Ok(())
                    },
                }
            } else {
                let target = st.pending.len();
                st.labels.names.push(entry);
                st.labels.targets.push(target);
                assert(st.view().labels.names =~= old(st).view().labels.names.push(name@));
                assert(st.view().labels.targets =~= old(st).view().labels.targets.push(
                    target as nat,
                ));
                directive_or_instruction(st, stmt)
            }
        },
    }
}

fn apply_metadata(st: &mut Assembly, line: usize, kind: MetadataKind, value: &Vec<char>)
    requires
        old(st).wf(),
    ensures
        final(st).wf(),
        spec_line_step(
            old(st).view(),
            SpecLexed::Metadata { line: line as nat, kind, value: value@ },
        ) == Ok::<AsmState, SpecParseError>(final(st).view()),
{
    let v = copy_range(value.as_slice(), 0, value.len());
    assert(v@ =~= value@);
    match kind {
        MetadataKind::Name => {
            st.name = v;
        },
        MetadataKind::Author => {
            st.author = v;
        },
        MetadataKind::Strategy => {
            let merged = match &st.strategy {
                Some(s) => {
                    let kept = copy_range(s.as_slice(), 0, s.len());
                    assert(kept@ =~= s@);
                    if v.len() == 0 {
                        Some(kept)
                    } else if s.len() == 0 {
                        Some(v)
                    } else {
                        let mut m = kept;
                        let mut tail = v;
                        m.push('\n');
                        m.append(&mut tail);
                        Some(m)
                    }
                },
                None => Some(v),
            };
            st.strategy = merged;
        },
    }
}

fn assemble_one(p: &PendingInstruction, index: usize, syms: &Symbols, labels: &Labels) -> (r:
    Result<Instruction, ParseError>)
    requires
        syms.wf(),
        labels.wf(),
        labels.bounded(),
        index <= MAXLENGTH,
    ensures
        result_view(r) == spec_assemble_one(
            pending_view(*p),
            index as nat,
            syms.view(),
            labels.view(),
        ),
{
    reveal(spec_assemble_one);
    let n = p.operands.len();
    if n > 2 {
        return Err(ParseError::Syntax { line: p.line, message: "too many operands".to_owned() });
    }
    let zero_direct = OperandExpr { mode: AddressingMode::Direct, expr: Expr::Number(0) };
    let zero_immediate = OperandExpr { mode: AddressingMode::Immediate, expr: Expr::Number(0) };
    let ghost ops = operands_view(p.operands@);
    let (a, b): (&OperandExpr, &OperandExpr) = if n == 0 {
        (&zero_direct, &zero_direct)
    } else if n == 1 {
        if matches!(p.opcode, Opcode::DAT) {
            (&zero_immediate, &p.operands[0])
        } else {
            (&p.operands[0], &zero_direct)
        }
    } else {
        (&p.operands[0], &p.operands[1])
    };
    assert((crate::expr::operand_view(*a), crate::expr::operand_view(*b)) == operand_pair(
        p.opcode,
        ops,
    ));
    let modifier = match p.modifier {
        Some(m) => m,
        None => infer_modifier(p.opcode, a.mode, b.mode),
    };
    let mode = LabelMode::Relative { current: index };
    let mut stack: Vec<Vec<char>> = Vec::new();
    assert(names_view(stack@) =~= Seq::<Seq<char>>::empty());
    let av = match eval(&a.expr, syms, labels, mode, p.line, &mut stack) {
        Ok(v) => v,
        Err(e) => {
            return Err(e);
        },
    };
    let bv = match eval(&b.expr, syms, labels, mode, p.line, &mut stack) {
        Ok(v) => v,
        Err(e) => {
            return Err(e);
        },
    };
    Ok(Instruction::new(p.opcode, modifier, a.mode, av, b.mode, bv))
}

fn normalize_start_exec(value: i32, count: usize, line: usize) -> (r: Result<usize, ParseError>)
    ensures
        match r {
            Ok(v) => normalize_start(value, count as nat, line as nat) == Ok::<
                nat,
                SpecParseError,
            >(v as nat),
            Err(e) => normalize_start(value, count as nat, line as nat) == Err::<
                nat,
                SpecParseError,
            >(error_view(e)),
        },
{
    if count == 0 {
        return Ok(0);
    }
    if value < 0 {
        return Err(
            ParseError::Syntax { line, message: "start offset must be non-negative".to_owned() },
        );
    }
    let v = value as usize;
    if v >= count {
        Err(
            ParseError::Syntax {
                line,
                message: "start offset must point inside the assembled warrior".to_owned(),
            },
        )
    } else {
        Ok(v)
    }
}

fn start_offset(st: &Assembly, count: usize) -> (r: Result<usize, ParseError>)
    requires
        st.wf(),
        st.pending@.len() <= MAXLENGTH,
    ensures
        match r {
            Ok(v) => spec_start(st.view(), count as nat) == Ok::<nat, SpecParseError>(v as nat),
            Err(e) => spec_start(st.view(), count as nat) == Err::<nat, SpecParseError>(
                error_view(e),
            ),
        },
{
    let located: &Option<(usize, Expr)> = if st.end.is_some() {
        &st.end
    } else {
        &st.org
    };
    match located {
        None => Ok(0),
        Some((line, e)) => {
            let mut stack: Vec<Vec<char>> = Vec::new();
            assert(names_view(stack@) =~= Seq::<Seq<char>>::empty());
            match eval(e, &st.syms, &st.labels, LabelMode::Absolute, *line, &mut stack) {
                Err(err) => Err(err),
                Ok(v) => normalize_start_exec(v, count, *line),
            }
        },
    }
}

/// Parses a Redcode source into a [`Warrior`].
///
/// Supports the ICWS'94 standard with the pMARS extensions: labels and
/// `EQU` definitions, all addressing modes (`#`, `$`, `*`, `@`, `<`, `>`,
/// `{`, `}`), all modifiers, the predefined constants (`CORESIZE`,
/// `MAXPROCESSES`, ...), the `;name`, `;author` and `;strategy` metadata
/// lines, and the `ORG` and `END` directives.
pub fn parse_warrior(source: &str) -> (r: Result<Warrior, ParseError>)
    ensures
        match r {
            Ok(w) => spec_parse_warrior(source@) == Ok::<SpecWarrior, SpecParseError>(
                warrior_view(w),
            ) && w.id == 0,
            Err(e) => spec_parse_warrior(source@) == Err::<SpecWarrior, SpecParseError>(
                error_view(e),
            ),
        },
{
    let lines = match lex(source) {
        Ok(lines) => lines,
        Err(e) => {
            return Err(e);
        },
    };
    let ghost lv = lexed_seq_view(lines@);
    let mut st = Assembly {
        name: chars_of("unnamed"),
        author: Vec::new(),
        strategy: None,
        pending: Vec::new(),
        labels: Labels { names: Vec::new(), targets: Vec::new() },
        syms: predefined(),
        org: None,
        end: None,
    };
    assert(st.view().pending =~= initial_state().pending);
    assert(st.view().labels.names =~= initial_state().labels.names);
    assert(st.view().labels.targets =~= initial_state().labels.targets);
    assert(st.view() == initial_state());
    let mut i: usize = 0;
    while i < lines.len()
        invariant
            i <= lines@.len(),
            lv == lexed_seq_view(lines@),
            crate::lexer::spec_lex(source@) == Ok::<Seq<SpecLexed>, SpecParseError>(lv),
            st.wf(),
            spec_process(initial_state(), lv, 0) == spec_process(st.view(), lv, i as nat),
        decreases lines@.len() - i,
    {
        assert(lv[i as int] == crate::lexer::lexed_view(lines@[i as int]));
        match &lines[i] {
            LexedLine::Metadata(m) => {
                apply_metadata(&mut st, m.line, m.kind, &m.value);
            },
            LexedLine::Statement(s) => {
                match apply_statement(&mut st, s) {
                    Ok(()) => {},
                    Err(e) => {
                        assert(spec_process(initial_state(), lv, 0) == Err::<
                            AsmState,
                            SpecParseError,
                        >(error_view(e)));
                        return Err(e);
                    },
                }
            },
        }
        i = i + 1;
    }
    if st.pending.len() > MAXLENGTH {
        return Err(ParseError::TooLong { max_length: MAXLENGTH });
    }
    let ghost sv = st.view();
    let mut instructions: Vec<Instruction> = Vec::new();
    let mut k: usize = 0;
    while k < st.pending.len()
        invariant
            k <= st.pending@.len(),
            st.pending@.len() <= MAXLENGTH,
            st.wf(),
            sv == st.view(),
            crate::lexer::spec_lex(source@) == Ok::<Seq<SpecLexed>, SpecParseError>(lv),
            spec_process(initial_state(), lv, 0) == Ok::<AsmState, SpecParseError>(sv),
            spec_assemble(sv.pending, 0, sv.syms, sv.labels, Seq::empty()) == spec_assemble(
                sv.pending,
                k as nat,
                sv.syms,
                sv.labels,
                instructions@,
            ),
        decreases st.pending@.len() - k,
    {
        assert(sv.pending[k as int] == pending_view(st.pending@[k as int]));
        let ins = match assemble_one(&st.pending[k], k, &st.syms, &st.labels) {
            Ok(ins) => ins,
            Err(e) => {
                assert(spec_assemble(sv.pending, 0, sv.syms, sv.labels, Seq::empty()) == Err::<
                    Seq<Instruction>,
                    SpecParseError,
                >(error_view(e)));
                return Err(e);
            },
        };
        instructions.push(ins);
        k = k + 1;
    }
    let start = match start_offset(&st, instructions.len()) {
        Ok(v) => v,
        Err(e) => {
            return Err(e);
        },
    };
    let strategy = match &st.strategy {
        Some(s) => Some(string_of(s.as_slice())),
        None => None,
    };
    Ok(
        Warrior {
            name: string_of(st.name.as_slice()),
            author: string_of(st.author.as_slice()),
            strategy,
            instructions,
            start_offset: start,
            id: 0,
        },
    )
}

// ---------------------------------------------------------------------------
// Laws
// ---------------------------------------------------------------------------

proof fn lemma_assemble_len(
    pending: Seq<SpecPending>,
    i: nat,
    syms: SpecSymbols,
    labels: SpecLabels,
    acc: Seq<Instruction>,
)
    requires
        i <= pending.len(),
    ensures
        spec_assemble(pending, i, syms, labels, acc) matches Ok(r) ==> r.len() == acc.len() + (
        pending.len() - i),
    decreases pending.len() - i,
{
    if i < pending.len() {
        match spec_assemble_one(pending[i as int], i, syms, labels) {
            Ok(ins) => lemma_assemble_len(pending, i + 1, syms, labels, acc.push(ins)),
            Err(_) => {},
        }
    }
}

/// A warrior the assembler accepts has at most `MAXLENGTH` instructions,
/// and its start offset points at one of them (or is 0 when it has none).
pub proof fn lemma_parsed_warrior_bounds(source: Seq<char>)
    ensures
        spec_parse_warrior(source) matches Ok(w) ==> {
            &&& w.instructions.len() <= MAXLENGTH
            &&& w.instructions.len() == 0 ==> w.start_offset == 0
            &&& w.instructions.len() > 0 ==> w.start_offset < w.instructions.len()
        },
{
    if let Ok(lines) = crate::lexer::spec_lex(source) {
        if let Ok(st) = spec_process(initial_state(), lines, 0) {
            lemma_assemble_len(st.pending, 0, st.syms, st.labels, Seq::empty());
        }
    }
}

/// Whether a lexed line is an instruction statement (not `EQU`, `ORG` or
/// `END`).
pub open spec fn is_instruction_line(l: SpecLexed) -> bool {
    l matches SpecLexed::Statement(s) && s.kind == StatementKind::Instruction
}

/// The number of instruction statements among `lines`.
pub open spec fn instruction_lines(lines: Seq<SpecLexed>) -> nat
    decreases lines.len(),
{
    if lines.len() == 0 {
        0
    } else {
        (if is_instruction_line(lines[0]) {
            1nat
        } else {
            0nat
        }) + instruction_lines(lines.drop_first())
    }
}

/// The value of the last `;name` line among `lines`, if there is one.
pub open spec fn last_name(lines: Seq<SpecLexed>) -> Option<Seq<char>>
    decreases lines.len(),
{
    if lines.len() == 0 {
        None
    } else {
        match last_name(lines.drop_first()) {
            Some(v) => Some(v),
            None => match lines[0] {
                SpecLexed::Metadata { kind: MetadataKind::Name, value, .. } => Some(value),
                _ => None,
            },
        }
    }
}

/// One line queues an instruction exactly when it is an instruction
/// statement, and changes the name exactly when it is a `;name` line.
proof fn lemma_line_step(st: AsmState, l: SpecLexed)
    ensures
        spec_line_step(st, l) matches Ok(next) ==> {
            &&& next.pending.len() == st.pending.len() + if is_instruction_line(l) {
                1nat
            } else {
                0nat
            }
            &&& next.name == match l {
                SpecLexed::Metadata { kind: MetadataKind::Name, value, .. } => value,
                _ => st.name,
            }
        },
{
    reveal(spec_statement_step);
}

/// Reading `lines[i..]` queues one instruction per instruction statement and
/// leaves the name of the last `;name` line, if any.
proof fn lemma_process_contents(st: AsmState, lines: Seq<SpecLexed>, i: nat)
    requires
        i <= lines.len(),
    ensures
        spec_process(st, lines, i) matches Ok(done) ==> {
            &&& done.pending.len() == st.pending.len() + instruction_lines(lines.skip(i as int))
            &&& done.name == match last_name(lines.skip(i as int)) {
                Some(v) => v,
                None => st.name,
            }
        },
    decreases lines.len() - i,
{
    if i < lines.len() {
        lemma_line_step(st, lines[i as int]);
        if let Ok(next) = spec_line_step(st, lines[i as int]) {
            lemma_process_contents(next, lines, i + 1);
            assert(lines.skip(i as int).drop_first() =~= lines.skip(i + 1 as int));
            assert(lines.skip(i as int)[0] == lines[i as int]);
        }
    } else {
        assert(lines.skip(i as int) =~= Seq::<SpecLexed>::empty());
    }
}

/// A warrior the assembler accepts has one instruction per instruction
/// statement of the source, and the name of its last `;name` line
/// ("unnamed" when there is none).
pub proof fn lemma_parsed_warrior_contents(source: Seq<char>)
    ensures
        spec_parse_warrior(source) matches Ok(w) ==> {
            &&& crate::lexer::spec_lex(source) matches Ok(lines)
            &&& w.instructions.len() == instruction_lines(lines)
            &&& w.name == match last_name(lines) {
                Some(v) => v,
                None => "unnamed"@,
            }
        },
{
    if let Ok(lines) = crate::lexer::spec_lex(source) {
        lemma_process_contents(initial_state(), lines, 0);
        assert(lines.skip(0) =~= lines);
        if let Ok(st) = spec_process(initial_state(), lines, 0) {
            lemma_assemble_len(st.pending, 0, st.syms, st.labels, Seq::empty());
        }
    }
}

/// Inside an operand, a label that is not also an EQU symbol stands for
/// its distance from the instruction being assembled.
pub proof fn lemma_label_is_relative(
    name: Seq<char>,
    syms: SpecSymbols,
    labels: SpecLabels,
    index: nat,
    line: nat,
)
    requires
        find_name(syms.names, name) is None,
        find_name(labels.names, name) is Some,
        index <= MAXLENGTH,
        labels.targets[find_name(labels.names, name)->0 as int] <= MAXLENGTH,
    ensures
        spec_eval(
            SpecExpr::Symbol(name),
            syms,
            labels,
            LabelMode::Relative { current: index as usize },
            line,
            Seq::empty(),
        ) == Ok::<i32, SpecParseError>(
            (labels.targets[find_name(labels.names, name)->0 as int] - index) as i32,
        ),
{
}

/// An EQU symbol defined as a number evaluates to that number wherever it
/// is used.
pub proof fn lemma_equ_number(
    name: Seq<char>,
    syms: SpecSymbols,
    labels: SpecLabels,
    mode: LabelMode,
    line: nat,
    stack: Seq<Seq<char>>,
    v: i32,
)
    requires
        find_name(syms.names, name) is Some,
        syms.exprs[find_name(syms.names, name)->0 as int] == SpecExpr::Number(v),
    ensures
        spec_eval(SpecExpr::Symbol(name), syms, labels, mode, line, stack) == Ok::<
            i32,
            SpecParseError,
        >(v),
{
}

} // verus!
