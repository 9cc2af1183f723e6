use corewar::lexer::{lex, LexedLine, MetadataKind, StatementKind};
use corewar::{parse_warrior, AddressingMode, Instruction, Modifier, Opcode, ParseError};

fn assert_instruction(
    instruction: &Instruction,
    opcode: Opcode,
    modifier: Modifier,
    a_mode: AddressingMode,
    a_value: i32,
    b_mode: AddressingMode,
    b_value: i32,
) {
    assert_eq!(
        *instruction,
        Instruction::new(opcode, modifier, a_mode, a_value, b_mode, b_value)
    );
}

#[test]
fn lexer_extracts_metadata_and_statements() {
    let lines = lex(";name Imp\nstart MOV 0, 1 ; comment\nstep EQU 4\nORG start\n").unwrap();

    assert!(matches!(lines[0], LexedLine::Metadata(_)));
    assert!(matches!(lines[1], LexedLine::Statement(_)));
    assert!(matches!(lines[2], LexedLine::Statement(_)));
    assert!(matches!(lines[3], LexedLine::Statement(_)));
}

#[test]
fn lexer_classifies_labels_and_directives() {
    let lines = lex(";name Imp\nstart MOV 0, 1 ; comment\nstep EQU 4\nORG start\n").unwrap();
    assert_eq!(lines.len(), 4);
    match &lines[0] {
        LexedLine::Metadata(m) => {
            assert_eq!(m.kind, MetadataKind::Name);
            assert_eq!(m.value, "Imp".chars().collect::<Vec<char>>());
            assert_eq!(m.line, 1);
        }
        _ => panic!("expected metadata"),
    }
    match &lines[1] {
        LexedLine::Statement(s) => {
            assert_eq!(s.label, Some("START".chars().collect::<Vec<char>>()));
            assert_eq!(s.statement, "MOV 0, 1".chars().collect::<Vec<char>>());
            assert_eq!(s.kind, StatementKind::Instruction);
            assert_eq!(s.line, 2);
        }
        _ => panic!("expected statement"),
    }
    match &lines[2] {
        LexedLine::Statement(s) => {
            assert_eq!(s.label, Some("STEP".chars().collect::<Vec<char>>()));
            assert_eq!(s.kind, StatementKind::Equ);
        }
        _ => panic!("expected statement"),
    }
    match &lines[3] {
        LexedLine::Statement(s) => {
            assert_eq!(s.label, None);
            assert_eq!(s.kind, StatementKind::Org);
        }
        _ => panic!("expected statement"),
    }
}

#[test]
fn lexer_rejects_dangling_label() {
    let error = lex("start:\n").unwrap_err();
    assert!(matches!(error, ParseError::Syntax { line, .. } if line == 1));
}

#[test]
fn lexer_rejects_two_standalone_labels() {
    let error = lex("first\nsecond\nMOV 0, 1\n").unwrap_err();
    assert!(matches!(error, ParseError::Syntax { line, .. } if line == 2));
}

#[test]
fn test_parse_empty() {
    let result = parse_warrior("");
    assert!(result.is_ok());
    assert!(result.unwrap().instructions.is_empty());
}

#[test]
fn parses_imp() {
    let warrior = parse_warrior("; Imp\nMOV 0, 1\n").unwrap();

    assert_eq!(warrior.instructions.len(), 1);
    assert_eq!(
        warrior.instructions[0],
        Instruction::new(
            Opcode::MOV,
            Modifier::I,
            AddressingMode::Direct,
            0,
            AddressingMode::Direct,
            1,
        )
    );
}

#[test]
fn parses_dwarf() {
    let warrior = parse_warrior("; Dwarf\nADD #4, 3\nMOV 2, @2\nJMP -2\nDAT #0, #0\n").unwrap();

    assert_eq!(
        warrior.instructions,
        vec![
            Instruction::new(
                Opcode::ADD,
                Modifier::AB,
                AddressingMode::Immediate,
                4,
                AddressingMode::Direct,
                3,
            ),
            Instruction::new(
                Opcode::MOV,
                Modifier::I,
                AddressingMode::Direct,
                2,
                AddressingMode::IndirectB,
                2,
            ),
            Instruction::new(
                Opcode::JMP,
                Modifier::B,
                AddressingMode::Direct,
                -2,
                AddressingMode::Direct,
                0,
            ),
            Instruction::new(
                Opcode::DAT,
                Modifier::F,
                AddressingMode::Immediate,
                0,
                AddressingMode::Immediate,
                0,
            ),
        ]
    );
}

#[test]
fn resolves_labels_equ_and_start_directives() {
    let warrior = parse_warrior(
        ";name Example\n;author Tester\nstep EQU 4\nstart MOV #step, target\nORG start\ntarget DAT #0, #0\nEND target\n",
    )
    .unwrap();

    assert_eq!(warrior.name, "Example");
    assert_eq!(warrior.author, "Tester");
    assert_eq!(warrior.start_offset, 1);
    assert_eq!(warrior.instructions[0].a_value, 4);
    assert_eq!(warrior.instructions[0].b_value, 1);
}

#[test]
fn parses_all_addressing_modes() {
    let warrior = parse_warrior("MOV #1, $2\nMOV @3, <4\nMOV >5, {6\nMOV }7, *8\n").unwrap();

    assert_eq!(warrior.instructions.len(), 4);
    assert_eq!(
        warrior.instructions[0],
        Instruction::new(
            Opcode::MOV,
            Modifier::AB,
            AddressingMode::Immediate,
            1,
            AddressingMode::Direct,
            2,
        )
    );
    assert_eq!(
        warrior.instructions[1],
        Instruction::new(
            Opcode::MOV,
            Modifier::I,
            AddressingMode::IndirectB,
            3,
            AddressingMode::PreDecIndirectB,
            4,
        )
    );
    assert_eq!(
        warrior.instructions[2],
        Instruction::new(
            Opcode::MOV,
            Modifier::I,
            AddressingMode::PostIncIndirectB,
            5,
            AddressingMode::PreDecIndirectA,
            6,
        )
    );
    assert_eq!(
        warrior.instructions[3],
        Instruction::new(
            Opcode::MOV,
            Modifier::I,
            AddressingMode::PostIncIndirectA,
            7,
            AddressingMode::IndirectA,
            8,
        )
    );
}

#[test]
fn defaults_to_direct_addressing_without_prefix() {
    let warrior = parse_warrior("MOV 5, 6\n").unwrap();

    assert_eq!(warrior.instructions[0].a_mode, AddressingMode::Direct);
    assert_eq!(warrior.instructions[0].a_value, 5);
    assert_eq!(warrior.instructions[0].b_mode, AddressingMode::Direct);
    assert_eq!(warrior.instructions[0].b_value, 6);
}

#[test]
fn parses_negative_operand_values() {
    let warrior = parse_warrior("ADD #-7, $-11\n").unwrap();

    assert_eq!(
        warrior.instructions[0],
        Instruction::new(
            Opcode::ADD,
            Modifier::AB,
            AddressingMode::Immediate,
            -7,
            AddressingMode::Direct,
            -11,
        )
    );
}

#[test]
fn parses_large_operand_values() {
    let warrior = parse_warrior("MOV #123456, $654321\n").unwrap();

    assert_eq!(
        warrior.instructions[0],
        Instruction::new(
            Opcode::MOV,
            Modifier::AB,
            AddressingMode::Immediate,
            123456,
            AddressingMode::Direct,
            654321,
        )
    );
}

#[test]
fn extracts_name_and_author_metadata() {
    let warrior = parse_warrior(";name Test Warrior\n;author Parser Tester\nMOV 0, 1\n").unwrap();

    assert_eq!(warrior.name, "Test Warrior");
    assert_eq!(warrior.author, "Parser Tester");
}

#[test]
fn org_sets_start_offset() {
    let warrior = parse_warrior("MOV 0, 1\nDAT #0, #0\nORG 1\n").unwrap();

    assert_eq!(warrior.start_offset, 1);
}

#[test]
fn end_with_label_sets_start_offset() {
    let warrior = parse_warrior("start MOV 0, 1\ntarget DAT #0, #0\nEND target\n").unwrap();

    assert_eq!(warrior.start_offset, 1);
}

#[test]
fn equ_expands_constants() {
    let warrior = parse_warrior("step EQU (2 + 3) * 4\nMOV #step, $step\n").unwrap();

    assert_eq!(
        warrior.instructions[0],
        Instruction::new(
            Opcode::MOV,
            Modifier::AB,
            AddressingMode::Immediate,
            20,
            AddressingMode::Direct,
            20,
        )
    );
}

#[test]
fn ignores_full_line_and_inline_comments() {
    let warrior = parse_warrior(
        "; this is a comment\nMOV 0, 1 ; copy forward\n; another comment\nDAT #0, #0 ; bomb\n",
    )
    .unwrap();

    assert_eq!(warrior.instructions.len(), 2);
    assert_eq!(
        warrior.instructions[0],
        Instruction::new(
            Opcode::MOV,
            Modifier::I,
            AddressingMode::Direct,
            0,
            AddressingMode::Direct,
            1,
        )
    );
    assert_eq!(
        warrior.instructions[1],
        Instruction::new(
            Opcode::DAT,
            Modifier::F,
            AddressingMode::Immediate,
            0,
            AddressingMode::Immediate,
            0,
        )
    );
}

#[test]
fn invalid_opcode_produces_error() {
    let error = parse_warrior("label FOO 0, 1\n").unwrap_err();

    assert!(matches!(
        error,
        ParseError::InvalidOpcode { opcode, line }
            if opcode == "FOO" && line == 1
    ));
}

#[test]
fn undefined_label_produces_error() {
    let error = parse_warrior("MOV missing, 0\n").unwrap_err();

    assert!(matches!(
        error,
        ParseError::UndefinedLabel { label, line }
            if label == "MISSING" && line == 1
    ));
}

#[test]
fn duplicate_label_produces_error() {
    let error = parse_warrior("start MOV 0, 1\nstart DAT #0, #0\n").unwrap_err();

    assert!(matches!(
        error,
        ParseError::DuplicateLabel { label, line }
            if label == "START" && line == 2
    ));
}

#[test]
fn empty_input_produces_empty_warrior() {
    let warrior = parse_warrior("").unwrap();

    assert!(warrior.instructions.is_empty());
    assert_eq!(warrior.start_offset, 0);
    assert_eq!(warrior.name, "unnamed");
    assert_eq!(warrior.author, "");
}

#[test]
fn resolves_simple_label_offsets() {
    let warrior =
        parse_warrior("start MOV bomb, target\nbomb DAT #0, #0\ntarget DAT #0, #0\n").unwrap();

    assert_eq!(
        warrior.instructions[0],
        Instruction::new(
            Opcode::MOV,
            Modifier::I,
            AddressingMode::Direct,
            1,
            AddressingMode::Direct,
            2,
        )
    );
}

#[test]
fn resolves_forward_references() {
    let warrior = parse_warrior("JMP target\nDAT #0, #0\ntarget DAT #0, #0\n").unwrap();

    assert_eq!(
        warrior.instructions[0],
        Instruction::new(
            Opcode::JMP,
            Modifier::B,
            AddressingMode::Direct,
            2,
            AddressingMode::Direct,
            0,
        )
    );
}

#[test]
fn resolves_labels_on_same_line_as_instruction() {
    let warrior = parse_warrior("loop MOV 0, 1\nJMP loop\n").unwrap();

    assert_eq!(warrior.instructions[1].a_value, -1);
}

#[test]
fn resolves_labels_on_their_own_line() {
    let warrior = parse_warrior("start:\n    MOV 0, 1\n    JMP start\n").unwrap();

    assert_eq!(warrior.instructions.len(), 2);
    assert_eq!(warrior.instructions[1].a_value, -1);
}

#[test]
fn parses_explicit_modifiers() {
    let warrior = parse_warrior(
        "MOV.A 0, 1\nMOV.B 0, 1\nADD.AB #1, 2\nMOV.BA 0, 1\nDAT.F #0, #0\nMOV.X 0, 1\nMOV.I 0, 1\n",
    )
    .unwrap();

    let modifiers: Vec<_> = warrior
        .instructions
        .iter()
        .map(|instruction| instruction.modifier)
        .collect();

    assert_eq!(
        modifiers,
        vec![
            Modifier::A,
            Modifier::B,
            Modifier::AB,
            Modifier::BA,
            Modifier::F,
            Modifier::X,
            Modifier::I,
        ]
    );
}

#[test]
fn infers_default_modifiers() {
    let warrior = parse_warrior(
        "MOV #1, 2\nMOV 1, 2\nMOV 1, #2\nADD 1, #2\nADD 1, 2\nSLT #1, 2\nSLT 1, 2\nJMP 1\nDAT #0, #0\n",
    )
    .unwrap();

    let modifiers: Vec<_> = warrior
        .instructions
        .iter()
        .map(|instruction| instruction.modifier)
        .collect();

    assert_eq!(
        modifiers,
        vec![
            Modifier::AB,
            Modifier::I,
            Modifier::B,
            Modifier::B,
            Modifier::F,
            Modifier::AB,
            Modifier::B,
            Modifier::B,
            Modifier::F,
        ]
    );

    assert_eq!(warrior.instructions[0].a_mode, AddressingMode::Immediate);
}

#[test]
fn parses_imp_source() {
    let warrior = parse_warrior("MOV 0, 1\n").unwrap();

    assert_eq!(warrior.instructions.len(), 1);
    assert_instruction(
        &warrior.instructions[0],
        Opcode::MOV,
        Modifier::I,
        AddressingMode::Direct,
        0,
        AddressingMode::Direct,
        1,
    );
}

#[test]
fn parses_mice_source() {
    let source = ";redcode\n;name Mice\n;author Chip Wendell\n\nptr     DAT #0\nstart   MOV #12, ptr\nloop    MOV @ptr, <copy\n        DJN.F loop, ptr\n        SPL @copy, 0\n        ADD #653, copy\n        JMZ.F start, ptr\ncopy    DAT #0, #833\n        END start\n";
    let warrior = parse_warrior(source).unwrap();

    assert_eq!(warrior.name, "Mice");
    assert_eq!(warrior.author, "Chip Wendell");
    assert_eq!(warrior.instructions.len(), 8);
    assert_eq!(warrior.start_offset, 1);
    assert_instruction(
        &warrior.instructions[0],
        Opcode::DAT,
        Modifier::F,
        AddressingMode::Immediate,
        0,
        AddressingMode::Immediate,
        0,
    );
    assert_instruction(
        &warrior.instructions[1],
        Opcode::MOV,
        Modifier::AB,
        AddressingMode::Immediate,
        12,
        AddressingMode::Direct,
        -1,
    );
    assert_instruction(
        &warrior.instructions[2],
        Opcode::MOV,
        Modifier::I,
        AddressingMode::IndirectB,
        -2,
        AddressingMode::PreDecIndirectB,
        5,
    );
    assert_instruction(
        &warrior.instructions[3],
        Opcode::DJN,
        Modifier::F,
        AddressingMode::Direct,
        -1,
        AddressingMode::Direct,
        -3,
    );
    assert_instruction(
        &warrior.instructions[7],
        Opcode::DAT,
        Modifier::F,
        AddressingMode::Immediate,
        0,
        AddressingMode::Immediate,
        833,
    );
}

#[test]
fn opcodes_and_modifiers_ignore_case() {
    let warrior = parse_warrior("mov.ab #1, 2\nDat #0\n").unwrap();
    assert_instruction(
        &warrior.instructions[0],
        Opcode::MOV,
        Modifier::AB,
        AddressingMode::Immediate,
        1,
        AddressingMode::Direct,
        2,
    );
    assert_instruction(
        &warrior.instructions[1],
        Opcode::DAT,
        Modifier::F,
        AddressingMode::Immediate,
        0,
        AddressingMode::Immediate,
        0,
    );
}

#[test]
fn lone_operand_of_jump_is_the_a_operand() {
    let warrior = parse_warrior("JMP 3\nNOP\n").unwrap();
    assert_instruction(
        &warrior.instructions[0],
        Opcode::JMP,
        Modifier::B,
        AddressingMode::Direct,
        3,
        AddressingMode::Direct,
        0,
    );
    assert_instruction(
        &warrior.instructions[1],
        Opcode::NOP,
        Modifier::B,
        AddressingMode::Direct,
        0,
        AddressingMode::Direct,
        0,
    );
}

#[test]
fn predefined_constants_are_available() {
    let warrior = parse_warrior("DAT #CORESIZE, #MAXLENGTH\nDAT #WARRIORS, #MAXCYCLES\n").unwrap();
    assert_eq!(warrior.instructions[0].a_value, 8000);
    assert_eq!(warrior.instructions[0].b_value, 100);
    assert_eq!(warrior.instructions[1].a_value, 2);
    assert_eq!(warrior.instructions[1].b_value, 80000);
}

#[test]
fn expressions_follow_precedence_and_truncate_division() {
    let warrior = parse_warrior("DAT #2+3*4, #-7/2\nDAT #(1-10)/3, #- -5\n").unwrap();
    assert_eq!(warrior.instructions[0].a_value, 14);
    assert_eq!(warrior.instructions[0].b_value, -3);
    assert_eq!(warrior.instructions[1].a_value, -3);
    assert_eq!(warrior.instructions[1].b_value, 5);
}

#[test]
fn nested_equ_symbols_expand() {
    let warrior = parse_warrior("a EQU b+1\nb EQU 2*c\nc EQU 5\nDAT #a, #b\n").unwrap();
    assert_eq!(warrior.instructions[0].a_value, 11);
    assert_eq!(warrior.instructions[0].b_value, 10);
}

#[test]
fn strategy_lines_are_joined() {
    let warrior =
        parse_warrior(";strategy first\n;strategy\n;strategy second\nMOV 0, 1\n").unwrap();
    assert_eq!(warrior.strategy, Some("first\nsecond".to_string()));
    let empty = parse_warrior(";strategy\nMOV 0, 1\n").unwrap();
    assert_eq!(empty.strategy, Some(String::new()));
    let none = parse_warrior("MOV 0, 1\n").unwrap();
    assert_eq!(none.strategy, None);
}

#[test]
fn circular_equ_produces_error() {
    let error = parse_warrior("a EQU b\nb EQU a\nDAT #a\n").unwrap_err();
    assert!(matches!(
        error,
        ParseError::CircularEqu { name, line } if name == "A" && line == 3
    ));
}

#[test]
fn division_by_zero_produces_error() {
    let error = parse_warrior("DAT #1/0\n").unwrap_err();
    assert!(matches!(error, ParseError::DivisionByZero { line } if line == 1));
}

#[test]
fn invalid_modifier_produces_error() {
    let error = parse_warrior("MOV.Q 0, 1\n").unwrap_err();
    assert!(matches!(
        error,
        ParseError::InvalidModifier { modifier, line } if modifier == "Q" && line == 1
    ));
}

#[test]
fn malformed_directive_produces_error() {
    let error = parse_warrior("MOV 0, 1\nORG\n").unwrap_err();
    assert!(matches!(
        error,
        ParseError::InvalidDirective { directive, line } if directive == "ORG" && line == 2
    ));
    let error = parse_warrior("step EQU\n").unwrap_err();
    assert!(matches!(error, ParseError::InvalidDirective { line, .. } if line == 1));
}

#[test]
fn malformed_instruction_produces_syntax_error() {
    let error = parse_warrior("MOV 0,, 1\n").unwrap_err();
    assert!(matches!(
        error,
        ParseError::Syntax { line, message }
            if line == 1 && message == "could not parse instruction 'MOV 0,, 1'"
    ));
}

#[test]
fn too_many_operands_produces_syntax_error() {
    let error = parse_warrior("MOV 0, 1, 2\n").unwrap_err();
    assert!(matches!(
        error,
        ParseError::Syntax { line, message } if line == 1 && message == "too many operands"
    ));
}

#[test]
fn overlong_warrior_produces_error() {
    let source = "DAT #0\n".repeat(101);
    let error = parse_warrior(&source).unwrap_err();
    assert!(matches!(error, ParseError::TooLong { max_length } if max_length == 100));
    let fits = parse_warrior(&"DAT #0\n".repeat(100)).unwrap();
    assert_eq!(fits.instructions.len(), 100);
}

#[test]
fn start_offset_must_be_inside_the_warrior() {
    let error = parse_warrior("MOV 0, 1\nORG 1\n").unwrap_err();
    assert!(matches!(
        error,
        ParseError::Syntax { line, message }
            if line == 2 && message == "start offset must point inside the assembled warrior"
    ));
    let error = parse_warrior("MOV 0, 1\nORG -1\n").unwrap_err();
    assert!(matches!(
        error,
        ParseError::Syntax { line, message }
            if line == 2 && message == "start offset must be non-negative"
    ));
    let empty = parse_warrior("ORG 5\n").unwrap();
    assert_eq!(empty.start_offset, 0);
}

#[test]
fn label_before_labelled_statement_produces_syntax_error() {
    let error = parse_warrior("x:\nEQU 4\n").unwrap_err();
    assert!(matches!(
        error,
        ParseError::Syntax { line, message }
            if line == 2 && message == "multiple labels before a statement"
    ));
}

#[test]
fn label_clashing_with_constant_is_duplicate() {
    let error = parse_warrior("CORESIZE DAT #0\n").unwrap_err();
    assert!(matches!(
        error,
        ParseError::DuplicateLabel { label, line } if label == "CORESIZE" && line == 1
    ));
}

#[test]
fn arithmetic_wraps_in_32_bits() {
    let warrior = parse_warrior("DAT #2147483647+1, #-2147483647-2\n").unwrap();
    assert_eq!(warrior.instructions[0].a_value, i32::MIN);
    assert_eq!(warrior.instructions[0].b_value, i32::MAX);
}
