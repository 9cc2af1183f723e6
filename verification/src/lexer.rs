//! Lexer for Redcode source files: splits the source into lines, picks out
//! metadata comments (`;name`, `;author`, `;strategy`), strips comments,
//! attaches labels to statements and classifies each statement.
use vstd::prelude::*;

use crate::instruction::{spec_opcode_named, Opcode};
use crate::parse_error::{error_view, ParseError, SpecParseError};
use crate::text::{
    copy_range, count_non_ws, eq_ignore_case, equals_ignore_case, find_char, find_first,
    is_ident_continue, is_ident_continue_char, is_ident_start, is_ident_start_char, is_whitespace,
    is_ws, lemma_prefix_len_bound, lemma_suffix_len_bound, ne_pred, not_ws_pred, prefix_len,
    suffix_len, to_upper, trim, trim_bounds, trim_start, trimmed, trimmed_start, upper_seq,
};

verus! {

#[derive(Debug, Clone, Copy, PartialEq, Eq, Structural)]
pub enum MetadataKind {
    Name,
    Author,
    Strategy,
}

#[derive(Debug)]
pub struct MetadataDirective {
    pub line: usize,
    pub kind: MetadataKind,
    pub value: Vec<char>,
}

#[derive(Debug, Clone, Copy, PartialEq, Eq, Structural)]
pub enum StatementKind {
    Instruction,
    Org,
    End,
    Equ,
}

#[derive(Debug)]
pub struct StatementLine {
    pub line: usize,
    /// The label, upper-cased and without trailing colons.
    pub label: Option<Vec<char>>,
    pub statement: Vec<char>,
    pub kind: StatementKind,
}

#[derive(Debug)]
pub enum LexedLine {
    Metadata(MetadataDirective),
    Statement(StatementLine),
}

pub ghost struct SpecStatement {
    pub line: nat,
    pub label: Option<Seq<char>>,
    pub statement: Seq<char>,
    pub kind: StatementKind,
}

pub ghost enum SpecLexed {
    Metadata { line: nat, kind: MetadataKind, value: Seq<char> },
    Statement(SpecStatement),
}

pub open spec fn opt_chars_view(o: Option<Vec<char>>) -> Option<Seq<char>> {
    match o {
        Some(v) => Some(v@),
        None => None,
    }
}

pub open spec fn statement_view(s: StatementLine) -> SpecStatement {
    SpecStatement {
        line: s.line as nat,
        label: opt_chars_view(s.label),
        statement: s.statement@,
        kind: s.kind,
    }
}

pub open spec fn lexed_view(l: LexedLine) -> SpecLexed {
    match l {
        LexedLine::Metadata(m) => SpecLexed::Metadata {
            line: m.line as nat,
            kind: m.kind,
            value: m.value@,
        },
        LexedLine::Statement(s) => SpecLexed::Statement(statement_view(s)),
    }
}

pub open spec fn lexed_seq_view(v: Seq<LexedLine>) -> Seq<SpecLexed> {
    v.map_values(|l: LexedLine| lexed_view(l))
}

pub open spec fn syntax_error(line: nat, message: Seq<char>) -> SpecParseError {
    SpecParseError::Syntax { line, message }
}

// ---------------------------------------------------------------------------
// Lines
// ---------------------------------------------------------------------------

pub open spec fn strip_cr(t: Seq<char>) -> Seq<char> {
    if t.len() > 0 && t.last() == '\r' {
        t.drop_last()
    } else {
        t
    }
}

/// The lines of `s`, as `str::lines` yields them: split at `\n`, a `\r`
/// before the `\n` removed, and no empty line after a final `\n`.
pub open spec fn split_lines(s: Seq<char>) -> Seq<Seq<char>>
    decreases s.len(),
{
    if s.len() == 0 {
        Seq::empty()
    } else {
        let i = find_char(s, '\n');
        if i >= s.len() {
            seq![s]
        } else {
            seq![strip_cr(s.take(i as int))] + split_lines(s.skip(i as int + 1))
        }
    }
}

fn strip_cr_exec(t: Vec<char>) -> (r: Vec<char>)
    ensures
        r@ == strip_cr(t@),
{
    let ghost initial = t@;
    let mut t = t;
    if t.len() > 0 && t[t.len() - 1] == '\r' {
        t.pop();
    }
    assert(t@ == strip_cr(initial)) by {
        if initial.len() > 0 && initial.last() == '\r' {
            assert(t@ =~= initial.drop_last());
        }
    };
    t
}

/// The lines of `s` (see [`split_lines`]).
pub fn lines_of(s: &[char]) -> (r: Vec<Vec<char>>)
    ensures
        r@.map_values(|v: Vec<char>| v@) == split_lines(s@),
{
    let mut r: Vec<Vec<char>> = Vec::new();
    let mut pos: usize = 0;
    assert(s@.skip(0) =~= s@);
    assert(r@.map_values(|v: Vec<char>| v@) =~= Seq::<Seq<char>>::empty());
    assert(Seq::<Seq<char>>::empty() + split_lines(s@) =~= split_lines(s@));
    while pos < s.len()
        invariant
            pos <= s@.len(),
            r@.map_values(|v: Vec<char>| v@) + split_lines(s@.skip(pos as int)) == split_lines(s@),
        decreases s@.len() - pos,
    {
        let rest = copy_range(s, pos, s.len());
        assert(rest@ =~= s@.skip(pos as int));
        let i = find_first(rest.as_slice(), '\n');
        let ghost done = r@.map_values(|v: Vec<char>| v@);
        if i >= rest.len() {
            assert(split_lines(rest@) == seq![rest@]);
            r.push(rest);
            assert(r@.map_values(|v: Vec<char>| v@) =~= done.push(s@.skip(pos as int)));
            assert(done + seq![s@.skip(pos as int)] =~= done.push(s@.skip(pos as int)));
            pos = s.len();
            assert(s@.skip(pos as int) =~= Seq::<char>::empty());
            assert(split_lines(s@.skip(pos as int)) =~= Seq::<Seq<char>>::empty());
            assert(r@.map_values(|v: Vec<char>| v@) + split_lines(s@.skip(pos as int))
                =~= r@.map_values(|v: Vec<char>| v@));
        } else {
            let line = copy_range(rest.as_slice(), 0, i);
            let line = strip_cr_exec(line);
            let ghost x = line@;
            assert(rest@.skip(i + 1) =~= s@.skip(pos + i + 1));
            assert(split_lines(rest@) == seq![x] + split_lines(rest@.skip(i + 1)));
            r.push(line);
            assert(r@.map_values(|v: Vec<char>| v@) =~= done.push(x));
            pos = pos + i + 1;
            assert(done.push(x) + split_lines(s@.skip(pos as int)) =~= done + (seq![x]
                + split_lines(s@.skip(pos as int))));
        }
    }
    assert(split_lines(s@.skip(pos as int)) =~= Seq::<Seq<char>>::empty());
    assert(r@.map_values(|v: Vec<char>| v@) + Seq::<Seq<char>>::empty() =~= r@.map_values(
        |v: Vec<char>| v@,
    ));
    r
}

// ---------------------------------------------------------------------------
// Metadata, comments, words and labels
// ---------------------------------------------------------------------------

/// `comment` starts with `keyword` (any ASCII case) followed by white space
/// or the end.
pub open spec fn starts_with_keyword(comment: Seq<char>, keyword: Seq<char>) -> bool {
    &&& comment.len() >= keyword.len()
    &&& eq_ignore_case(comment.take(keyword.len() as int), keyword)
    &&& (comment.len() == keyword.len() || is_ws(comment[keyword.len() as int]))
}

pub open spec fn kw_name() -> Seq<char> {
    seq!['N', 'A', 'M', 'E']
}

pub open spec fn kw_author() -> Seq<char> {
    seq!['A', 'U', 'T', 'H', 'O', 'R']
}

pub open spec fn kw_strategy() -> Seq<char> {
    seq!['S', 'T', 'R', 'A', 'T', 'E', 'G', 'Y']
}

pub open spec fn kw_org() -> Seq<char> {
    seq!['O', 'R', 'G']
}

pub open spec fn kw_end() -> Seq<char> {
    seq!['E', 'N', 'D']
}

pub open spec fn kw_equ() -> Seq<char> {
    seq!['E', 'Q', 'U']
}

/// A metadata comment: `;` then `name`, `author` or `strategy` as a word;
/// the value is the rest of the line, trimmed.
pub open spec fn spec_metadata(line: Seq<char>) -> Option<(MetadataKind, Seq<char>)> {
    let t = trim_start(line);
    if t.len() > 0 && t[0] == ';' {
        let comment = trim_start(t.drop_first());
        if starts_with_keyword(comment, kw_name()) {
            Some((MetadataKind::Name, trim(comment.skip(4))))
        } else if starts_with_keyword(comment, kw_author()) {
            Some((MetadataKind::Author, trim(comment.skip(6))))
        } else if starts_with_keyword(comment, kw_strategy()) {
            Some((MetadataKind::Strategy, trim(comment.skip(8))))
        } else {
            None
        }
    } else {
        None
    }
}

/// The line up to its first `;`.
pub open spec fn strip_comment(line: Seq<char>) -> Seq<char> {
    line.take(find_char(line, ';') as int)
}

/// The first word of `input` and what follows it (starting with white space).
pub open spec fn split_word(input: Seq<char>) -> (Seq<char>, Seq<char>) {
    let t = trim_start(input);
    let i = prefix_len(t, not_ws_pred());
    (t.take(i as int), t.skip(i as int))
}

pub open spec fn colon_pred() -> spec_fn(char) -> bool {
    |c: char| c == ':'
}

/// Trailing colons removed, then ASCII upper case.
pub open spec fn normalize_label(label: Seq<char>) -> Seq<char> {
    upper_seq(label.take(label.len() - suffix_len(label, colon_pred())))
}

pub open spec fn is_valid_label(label: Seq<char>) -> bool {
    &&& label.len() > 0
    &&& is_ident_start(label[0])
    &&& forall|i: int| 1 <= i < label.len() ==> is_ident_continue(#[trigger] label[i])
}

/// An opcode, possibly followed by `.` and a modifier.
pub open spec fn is_opcode_word(value: Seq<char>) -> bool {
    spec_opcode_named(value.take(find_char(value, '.') as int)) is Some
}

pub open spec fn is_directive_word(value: Seq<char>) -> bool {
    eq_ignore_case(value, kw_org()) || eq_ignore_case(value, kw_end()) || eq_ignore_case(
        value,
        kw_equ(),
    )
}

/// A line holding only a label.
pub open spec fn spec_standalone_label(code: Seq<char>) -> Option<Seq<char>> {
    let (label, rest) = split_word(code);
    if label.len() == 0 || trim(rest).len() != 0 {
        None
    } else if is_opcode_word(label) || is_directive_word(label) {
        None
    } else if is_valid_label(normalize_label(label)) {
        Some(normalize_label(label))
    } else {
        None
    }
}

/// The statement a (trimmed, comment-free, non-empty) code line holds.
pub open spec fn spec_classify(code: Seq<char>, line: nat) -> Result<SpecStatement, SpecParseError> {
    let (first, first_rest) = split_word(code);
    if first.len() == 0 {
        Err(syntax_error(line, "expected statement"@))
    } else if eq_ignore_case(first, kw_org()) {
        Ok(SpecStatement { line, label: None, statement: trim(code), kind: StatementKind::Org })
    } else if eq_ignore_case(first, kw_end()) {
        Ok(SpecStatement { line, label: None, statement: trim(code), kind: StatementKind::End })
    } else if is_opcode_word(first) {
        Ok(
            SpecStatement {
                line,
                label: None,
                statement: trim(code),
                kind: StatementKind::Instruction,
            },
        )
    } else {
        let second = split_word(first_rest).0;
        let kind = if eq_ignore_case(second, kw_equ()) {
            StatementKind::Equ
        } else if eq_ignore_case(second, kw_org()) {
            StatementKind::Org
        } else if eq_ignore_case(second, kw_end()) {
            StatementKind::End
        } else {
            StatementKind::Instruction
        };
        Ok(
            SpecStatement {
                line,
                label: Some(normalize_label(first)),
                statement: trim_start(first_rest),
                kind,
            },
        )
    }
}

/// Lexes `lines[i..]` with `pending` the label waiting for a statement and
/// `acc` the lines lexed so far.
pub open spec fn spec_lex_lines(
    lines: Seq<Seq<char>>,
    i: nat,
    pending: Option<(nat, Seq<char>)>,
    acc: Seq<SpecLexed>,
) -> Result<Seq<SpecLexed>, SpecParseError>
    decreases lines.len() - i,
{
    if i >= lines.len() {
        match pending {
            Some((line, _)) => Err(syntax_error(line, "label without statement"@)),
            None => Ok(acc),
        }
    } else {
        let line_number = i + 1;
        let raw = lines[i as int];
        let trimmed = trim(raw);
        if trimmed.len() == 0 {
            spec_lex_lines(lines, i + 1, pending, acc)
        } else if spec_metadata(trimmed) is Some {
            let (kind, value) = spec_metadata(trimmed)->0;
            spec_lex_lines(
                lines,
                i + 1,
                pending,
                acc.push(SpecLexed::Metadata { line: line_number, kind, value }),
            )
        } else {
            let code = trim(strip_comment(raw));
            if code.len() == 0 {
                spec_lex_lines(lines, i + 1, pending, acc)
            } else if spec_standalone_label(code) is Some {
                if pending is Some {
                    Err(syntax_error(line_number, "multiple standalone labels before a statement"@))
                } else {
                    spec_lex_lines(
                        lines,
                        i + 1,
                        Some((line_number, spec_standalone_label(code)->0)),
                        acc,
                    )
                }
            } else {
                match spec_classify(code, line_number) {
                    Err(e) => Err(e),
                    Ok(st) => match pending {
                        Some((_, label)) => if st.label is Some {
                            Err(syntax_error(line_number, "multiple labels before a statement"@))
                        } else {
                            spec_lex_lines(
                                lines,
                                i + 1,
                                None,
                                acc.push(
                                    SpecLexed::Statement(SpecStatement { label: Some(label), ..st }),
                                ),
                            )
                        },
                        None => spec_lex_lines(lines, i + 1, None, acc.push(SpecLexed::Statement(st))),
                    },
                }
            }
        }
    }
}

/// The lexed lines of a Redcode source.
pub open spec fn spec_lex(source: Seq<char>) -> Result<Seq<SpecLexed>, SpecParseError> {
    spec_lex_lines(split_lines(source), 0, None, Seq::empty())
}

// ---------------------------------------------------------------------------
// Executable lexer
// ---------------------------------------------------------------------------

fn keyword_at_start(comment: &[char], keyword: &[char]) -> (b: bool)
    ensures
        b == starts_with_keyword(comment@, keyword@),
{
    let k = keyword.len();
    if comment.len() < k {
        return false;
    }
    let head = copy_range(comment, 0, k);
    assert(head@ == comment@.take(k as int));
    if !equals_ignore_case(head.as_slice(), keyword) {
        return false;
    }
    comment.len() == k || is_whitespace(comment[k])
}

fn parse_metadata(line: &[char]) -> (r: Option<(MetadataKind, Vec<char>)>)
    ensures
        match r {
            Some((k, v)) => spec_metadata(line@) == Some((k, v@)),
            None => spec_metadata(line@) is None,
        },
{
    let t = trimmed_start(line);
    if t.len() == 0 || t[0] != ';' {
        return None;
    }
    let after = copy_range(t.as_slice(), 1, t.len());
    assert(after@ =~= t@.drop_first());
    let comment = trimmed_start(after.as_slice());
    let name: [char; 4] = ['N', 'A', 'M', 'E'];
    let author: [char; 6] = ['A', 'U', 'T', 'H', 'O', 'R'];
    let strategy: [char; 8] = ['S', 'T', 'R', 'A', 'T', 'E', 'G', 'Y'];
    assert(name@ =~= kw_name());
    assert(author@ =~= kw_author());
    assert(strategy@ =~= kw_strategy());
    if keyword_at_start(comment.as_slice(), name.as_slice()) {
        let rest = copy_range(comment.as_slice(), 4, comment.len());
        assert(rest@ =~= comment@.skip(4));
        Some((MetadataKind::Name, trimmed(rest.as_slice())))
    } else if keyword_at_start(comment.as_slice(), author.as_slice()) {
        let rest = copy_range(comment.as_slice(), 6, comment.len());
        assert(rest@ =~= comment@.skip(6));
        Some((MetadataKind::Author, trimmed(rest.as_slice())))
    } else if keyword_at_start(comment.as_slice(), strategy.as_slice()) {
        let rest = copy_range(comment.as_slice(), 8, comment.len());
        assert(rest@ =~= comment@.skip(8));
        Some((MetadataKind::Strategy, trimmed(rest.as_slice())))
    } else {
        None
    }
}

fn strip_comment_exec(line: &[char]) -> (r: Vec<char>)
    ensures
        r@ == strip_comment(line@),
{
    let i = find_first(line, ';');
    copy_range(line, 0, i)
}

fn split_word_exec(input: &[char]) -> (r: (Vec<char>, Vec<char>))
    ensures
        (r.0@, r.1@) == split_word(input@),
{
    let t = trimmed_start(input);
    assert(t@.skip(0) =~= t@);
    let i = count_non_ws(t.as_slice(), 0);
    let word = copy_range(t.as_slice(), 0, i);
    let rest = copy_range(t.as_slice(), i, t.len());
    assert(word@ =~= t@.take(i as int));
    assert(rest@ =~= t@.skip(i as int));
    (word, rest)
}

fn normalize_label_exec(label: &[char]) -> (r: Vec<char>)
    ensures
        r@ == normalize_label(label@),
{
    let mut j = label.len();
    assert(label@.take(j as int) =~= label@);
    while j > 0 && label[j - 1] == ':'
        invariant
            j <= label@.len(),
            suffix_len(label@, colon_pred()) == (label@.len() - j) + suffix_len(
                label@.take(j as int),
                colon_pred(),
            ),
        decreases j,
    {
        proof {
            crate::text::lemma_suffix_len_step(label@, colon_pred(), j as int);
        }
        j = j - 1;
    }
    proof {
        crate::text::lemma_suffix_len_step(label@, colon_pred(), j as int);
    }
    let kept = copy_range(label, 0, j);
    assert(kept@ =~= label@.take(label@.len() - suffix_len(label@, colon_pred())));
    to_upper(kept.as_slice())
}

fn is_valid_label_exec(label: &[char]) -> (b: bool)
    ensures
        b == is_valid_label(label@),
{
    if label.len() == 0 || !is_ident_start_char(label[0]) {
        return false;
    }
    let mut i: usize = 1;
    while i < label.len()
        invariant
            1 <= i <= label@.len(),
            forall|k: int| 1 <= k < i ==> is_ident_continue(#[trigger] label@[k]),
        decreases label@.len() - i,
    {
        if !is_ident_continue_char(label[i]) {
            return false;
        }
        i = i + 1;
    }
    true
}

fn is_opcode_exec(value: &[char]) -> (b: bool)
    ensures
        b == is_opcode_word(value@),
{
    let i = find_first(value, '.');
    let head = copy_range(value, 0, i);
    Opcode::from_name(head.as_slice()).is_some()
}

fn is_keyword(value: &[char], which: u8) -> (b: bool)
    requires
        which < 3,
    ensures
        which == 0 ==> b == eq_ignore_case(value@, kw_org()),
        which == 1 ==> b == eq_ignore_case(value@, kw_end()),
        which == 2 ==> b == eq_ignore_case(value@, kw_equ()),
{
    let org: [char; 3] = ['O', 'R', 'G'];
    let end: [char; 3] = ['E', 'N', 'D'];
    let equ: [char; 3] = ['E', 'Q', 'U'];
    assert(org@ =~= kw_org());
    assert(end@ =~= kw_end());
    assert(equ@ =~= kw_equ());
    if which == 0 {
        equals_ignore_case(value, org.as_slice())
    } else if which == 1 {
        equals_ignore_case(value, end.as_slice())
    } else {
        equals_ignore_case(value, equ.as_slice())
    }
}

fn parse_standalone_label(code: &[char]) -> (r: Option<Vec<char>>)
    ensures
        opt_chars_view(r) == spec_standalone_label(code@),
{
    let (label, rest) = split_word_exec(code);
    if label.len() == 0 {
        return None;
    }
    let rest_trimmed = trimmed(rest.as_slice());
    if rest_trimmed.len() != 0 {
        return None;
    }
    if is_opcode_exec(label.as_slice()) || is_keyword(label.as_slice(), 0) || is_keyword(
        label.as_slice(),
        1,
    ) || is_keyword(label.as_slice(), 2) {
        return None;
    }
    let normalized = normalize_label_exec(label.as_slice());
    if is_valid_label_exec(normalized.as_slice()) {
        Some(normalized)
    } else {
        None
    }
}

fn classify_statement(code: &[char], line: usize) -> (r: Result<StatementLine, ParseError>)
    ensures
        match r {
            Ok(st) => spec_classify(code@, line as nat) == Ok::<SpecStatement, SpecParseError>(
                statement_view(st),
            ),
            Err(e) => spec_classify(code@, line as nat) == Err::<SpecStatement, SpecParseError>(
                error_view(e),
            ),
        },
{
    let (first, first_rest) = split_word_exec(code);
    if first.len() == 0 {
        return Err(ParseError::Syntax { line, message: "expected statement".to_owned() });
    }
    if is_keyword(first.as_slice(), 0) {
        return Ok(
            StatementLine {
                line,
                label: None,
                statement: trimmed(code),
                kind: StatementKind::Org,
            },
        );
    }
    if is_keyword(first.as_slice(), 1) {
        return Ok(
            StatementLine {
                line,
                label: None,
                statement: trimmed(code),
                kind: StatementKind::End,
            },
        );
    }
    if is_opcode_exec(first.as_slice()) {
        return Ok(
            StatementLine {
                line,
                label: None,
                statement: trimmed(code),
                kind: StatementKind::Instruction,
            },
        );
    }
    let (second, _ignored) = split_word_exec(first_rest.as_slice());
    let kind = if is_keyword(second.as_slice(), 2) {
        StatementKind::Equ
    } else if is_keyword(second.as_slice(), 0) {
        StatementKind::Org
    } else if is_keyword(second.as_slice(), 1) {
        StatementKind::End
    } else {
        StatementKind::Instruction
    };
    Ok(
        StatementLine {
            line,
            label: Some(normalize_label_exec(first.as_slice())),
            statement: trimmed_start(first_rest.as_slice()),
            kind,
        },
    )
}

/// Lexes a Redcode source into metadata and statement lines.
pub fn lex(source: &str) -> (r: Result<Vec<LexedLine>, ParseError>)
    ensures
        match r {
            Ok(lines) => spec_lex(source@) == Ok::<Seq<SpecLexed>, SpecParseError>(
                lexed_seq_view(lines@),
            ),
            Err(e) => spec_lex(source@) == Err::<Seq<SpecLexed>, SpecParseError>(error_view(e)),
        },
{
    let chars = crate::text::chars_of(source);
    lex_chars(chars.as_slice())
}

/// Lexes a Redcode source, given as characters.
pub fn lex_chars(source: &[char]) -> (r: Result<Vec<LexedLine>, ParseError>)
    ensures
        match r {
            Ok(lines) => spec_lex(source@) == Ok::<Seq<SpecLexed>, SpecParseError>(
                lexed_seq_view(lines@),
            ),
            Err(e) => spec_lex(source@) == Err::<Seq<SpecLexed>, SpecParseError>(error_view(e)),
        },
{
    let lines = lines_of(source);
    let ghost all = split_lines(source@);
    let mut out: Vec<LexedLine> = Vec::new();
    let mut pending: Option<(usize, Vec<char>)> = None;
    let mut index: usize = 0;
    assert(lexed_seq_view(out@) =~= Seq::<SpecLexed>::empty());
    while index < lines.len()
        invariant
            index <= lines@.len(),
            all == lines@.map_values(|v: Vec<char>| v@),
            spec_lex(source@) == spec_lex_lines(
                all,
                index as nat,
                match pending {
                    Some((l, v)) => Some((l as nat, v@)),
                    None => None,
                },
                lexed_seq_view(out@),
            ),
            pending is Some ==> (pending->0).0 <= index,
        decreases lines@.len() - index,
    {
        let line_number = index + 1;
        let raw = &lines[index];
        assert(raw@ == all[index as int]);
        let t = trimmed(raw.as_slice());
        if t.len() == 0 {
            index = index + 1;
            continue;
        }
        match parse_metadata(t.as_slice()) {
            Some((kind, value)) => {
                let ghost before = out@;
                out.push(LexedLine::Metadata(MetadataDirective { line: line_number, kind, value }));
                assert(lexed_seq_view(out@) =~= lexed_seq_view(before).push(
                    SpecLexed::Metadata { line: line_number as nat, kind, value: value@ },
                ));
                index = index + 1;
                continue;
            },
            None => {},
        }
        let stripped = strip_comment_exec(raw.as_slice());
        let code = trimmed(stripped.as_slice());
        if code.len() == 0 {
            index = index + 1;
            continue;
        }
        match parse_standalone_label(code.as_slice()) {
            Some(label) => {
                if pending.is_some() {
                    return Err(
                        ParseError::Syntax {
                            line: line_number,
                            message: "multiple standalone labels before a statement".to_owned(),
                        },
                    );
                }
                pending = Some((line_number, label));
                index = index + 1;
                continue;
            },
            None => {},
        }
        let statement = match classify_statement(code.as_slice(), line_number) {
            Ok(st) => st,
            Err(e) => {
                return Err(e);
            },
        };
        let ghost before = out@;
        match pending {
            Some((_, label)) => {
                if statement.label.is_some() {
                    return Err(
                        ParseError::Syntax {
                            line: line_number,
                            message: "multiple labels before a statement".to_owned(),
                        },
                    );
                }
                let merged = StatementLine {
                    line: statement.line,
                    label: Some(label),
                    statement: statement.statement,
                    kind: statement.kind,
                };
                out.push(LexedLine::Statement(merged));
                assert(lexed_seq_view(out@) =~= lexed_seq_view(before).push(
                    SpecLexed::Statement(statement_view(merged)),
                ));
            },
            None => {
                out.push(LexedLine::Statement(statement));
                assert(lexed_seq_view(out@) =~= lexed_seq_view(before).push(
                    SpecLexed::Statement(statement_view(statement)),
                ));
            },
        }
        pending = None;
        index = index + 1;
    }
    match pending {
        Some((line, _)) => Err(
            ParseError::Syntax { line, message: "label without statement".to_owned() },
        ),
        None => Ok(out),
    }
}

} // verus!
