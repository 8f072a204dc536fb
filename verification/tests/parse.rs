use assembler::code::{Builder, Code, Entry};
use assembler::operand::{Operand, TokenValue};
use assembler::parse::{parse_line, ParseError};
use assembler::table::{Instruction, InstructionTable};
use assembler::tokenize::tokenize;

fn cv(s: &str) -> Vec<char> {
    s.chars().collect()
}

fn sample_table() -> InstructionTable<()> {
    let mut table = InstructionTable::new();
    table.insert(Instruction::new(0, "push", 1, ()));
    table.insert(Instruction::new(1, "add", 0, ()));
    table.insert(Instruction::new(2, "sub", 0, ()));
    table
}

#[test]
fn test() {
    let table = sample_table();

    let s = "
.main:
	push 33
	push hello_world
	add
";

    let code = Code::<Operand>::parse(s, &table).unwrap();

    assert_eq!(s, code.render());
}

#[test]
fn parsed_entries_are_typed() {
    let table = sample_table();
    let s = "
.main:
	push 33
	push hello_world
	add
";
    let code = Code::<Operand>::parse(s, &table).unwrap();
    let entries = &code.entries;
    assert_eq!(entries.len(), 4);
    assert_eq!(entries[0], Entry::Label(cv("main")));
    assert_eq!(
        entries[1],
        Entry::Instr {
            mnemonic: cv("push"),
            operands: vec![Operand::Int(33)],
        }
    );
    assert_eq!(
        entries[2],
        Entry::Instr {
            mnemonic: cv("push"),
            operands: vec![Operand::Str(cv("hello_world"))],
        }
    );
    assert_eq!(
        entries[3],
        Entry::Instr {
            mnemonic: cv("add"),
            operands: vec![],
        }
    );
}

#[test]
fn blank_and_comment_lines_emit_nothing() {
    let table = sample_table();
    let s = "\n   \n# a full-line comment\n\t\n  # another\n";
    let code = Code::<Operand>::parse(s, &table).unwrap();
    assert_eq!(code.entries.len(), 0);
}

#[test]
fn comment_equivalence() {
    let table = sample_table();
    let with_comment = Code::<Operand>::parse("push 1 # trailing", &table).unwrap();
    let without = Code::<Operand>::parse("push 1", &table).unwrap();
    assert_eq!(with_comment.entries, without.entries);
}

#[test]
fn quoted_token_is_kept_whole() {
    let table = sample_table();
    let code = Code::<Operand>::parse("push \"a b\"", &table).unwrap();
    assert_eq!(code.entries.len(), 1);
    assert_eq!(
        code.entries[0],
        Entry::Instr {
            mnemonic: cv("push"),
            operands: vec![Operand::Str(cv("\"a b\""))],
        }
    );
}

#[test]
fn quoted_run_with_abutting_text() {
    let toks = tokenize(&cv("a\"b c\"d e"));
    assert_eq!(toks, vec![cv("a\"b c\"d"), cv("e")]);
}

#[test]
fn unterminated_quote_falls_back_to_whitespace() {
    let toks = tokenize(&cv("ab\"cd ef"));
    assert_eq!(toks, vec![cv("ab\"cd"), cv("ef")]);
}

#[test]
fn unknown_mnemonic_is_an_error() {
    let table = sample_table();
    let err = Code::<Operand>::parse("frobnicate 1", &table).unwrap_err();
    assert_eq!(err, ParseError::UnknownMnemonic(cv("frobnicate")));
}

#[test]
fn failing_line_leaves_accumulator_unmodified() {
    let table = sample_table();
    let mut builder: Builder<Operand> = Builder::new();
    parse_line(&cv("add"), &table, &mut builder).unwrap();
    assert_eq!(builder.entries.len(), 1);
    let err = parse_line(&cv("frobnicate 1"), &table, &mut builder).unwrap_err();
    assert_eq!(err, ParseError::UnknownMnemonic(cv("frobnicate")));
    assert_eq!(builder.entries.len(), 1);
    assert_eq!(
        builder.entries[0],
        Entry::Instr {
            mnemonic: cv("add"),
            operands: vec![],
        }
    );
}

#[test]
fn missing_operand_is_an_error() {
    let table = sample_table();
    let err = Code::<Operand>::parse("push", &table).unwrap_err();
    assert_eq!(
        err,
        ParseError::MissingOperand {
            mnemonic: cv("push"),
            expected: 1,
            found: 0,
        }
    );
}

#[test]
fn malformed_label_is_an_error() {
    let table = sample_table();
    let err = Code::<Operand>::parse(".:", &table).unwrap_err();
    assert_eq!(err, ParseError::MalformedLabel(cv(".:")));
}

#[test]
fn parse_stops_at_first_error() {
    let table = sample_table();
    let err = Code::<Operand>::parse("add\nfrobnicate\npush", &table).unwrap_err();
    assert_eq!(err, ParseError::UnknownMnemonic(cv("frobnicate")));
}

#[test]
fn operand_conversion_reads_decimal_i32() {
    assert_eq!(Operand::from_text(&cv("33")), Operand::Int(33));
    assert_eq!(Operand::from_text(&cv("+7")), Operand::Int(7));
    assert_eq!(Operand::from_text(&cv("-5")), Operand::Int(-5));
    assert_eq!(Operand::from_text(&cv("2147483647")), Operand::Int(2147483647));
    assert_eq!(Operand::from_text(&cv("-2147483648")), Operand::Int(-2147483648));
    assert_eq!(
        Operand::from_text(&cv("2147483648")),
        Operand::Str(cv("2147483648"))
    );
    assert_eq!(
        Operand::from_text(&cv("-2147483649")),
        Operand::Str(cv("-2147483649"))
    );
    assert_eq!(Operand::from_text(&cv("12a")), Operand::Str(cv("12a")));
    assert_eq!(Operand::from_text(&cv("+")), Operand::Str(cv("+")));
    assert_eq!(Operand::from_text(&cv("")), Operand::Str(cv("")));
}

#[test]
fn operand_renders_back_to_text() {
    assert_eq!(Operand::Int(-42).render(), cv("-42"));
    assert_eq!(Operand::Int(0).render(), cv("0"));
    assert_eq!(Operand::Int(2147483647).render(), cv("2147483647"));
    assert_eq!(Operand::Str(cv("hello")).render(), cv("hello"));
}

#[test]
fn label_name_extraction_order() {
    let table = sample_table();
    let code = Code::<Operand>::parse(".start: trailing words", &table).unwrap();
    assert_eq!(code.entries.len(), 1);
    assert_eq!(code.entries[0], Entry::Label(cv("start")));
}

#[test]
fn comment_is_stripped_before_tokenizing() {
    // The `#` cuts the line even inside quotes, leaving an unterminated
    // quote that falls back to plain whitespace splitting.
    let table = sample_table();
    let code = Code::<Operand>::parse("push \"a # b\"", &table).unwrap();
    assert_eq!(code.entries.len(), 1);
    assert_eq!(
        code.entries[0],
        Entry::Instr {
            mnemonic: cv("push"),
            operands: vec![Operand::Str(cv("\"a"))],
        }
    );
}

#[test]
fn multiple_labels_round_trip() {
    let table = sample_table();
    let s = "\n.a:\n\tadd\n\n.b:\n\tsub\n";
    let code = Code::<Operand>::parse(s, &table).unwrap();
    assert_eq!(s, code.render());
}
