use lmc::statement::recognise;
use lmc::{decode, Address, Error, ErrorKind, Instructions, Mnemonic, Operation, Statement, IR};

fn image(source: &str) -> [i16; 100] {
    IR::parse_lines(source).unwrap().assemble().unwrap()
}

fn failure(source: &str) -> Error {
    match IR::parse_lines(source) {
        Err(e) => e,
        Ok(ir) => ir.assemble().unwrap_err(),
    }
}

#[test]
fn every_instruction_has_its_cell() {
    let memory = image("ADD 5\nSUB 6\nSTA 7\nLDA 8\nBRA 9\nBRZ 10\nBRP 11\nINP\nOUT\nHLT\nDAT 42\nDAT");
    assert_eq!(&memory[..12], &[105, 206, 307, 508, 609, 710, 811, 901, 902, 0, 42, 0]);
}

#[test]
fn cells_after_the_program_are_zero() {
    let memory = image("LDA 1\nOUT");
    assert_eq!(memory[0], 501);
    assert_eq!(memory[1], 902);
    for cell in &memory[2..] {
        assert_eq!(*cell, 0);
    }
}

#[test]
fn empty_source_is_an_empty_program() {
    assert_eq!(image(""), [0; 100]);
}

#[test]
fn assembled_cells_decode_to_their_mnemonics() {
    let memory = image("ADD x\nSUB x\nSTA x\nLDA x\nBRA x\nBRZ x\nBRP x\nINP\nOUT\nHLT\nx DAT 1");
    let expected = [
        Operation::Add(10),
        Operation::Sub(10),
        Operation::Sta(10),
        Operation::Lda(10),
        Operation::Bra(10),
        Operation::Brz(10),
        Operation::Brp(10),
        Operation::Inp,
        Operation::Out,
        Operation::Hlt,
    ];
    for (i, operation) in expected.iter().enumerate() {
        assert_eq!(decode(memory[i]), Some(*operation));
        assert_eq!(memory[i] / 100, operation.encode() / 100);
    }
}

#[test]
fn data_may_look_like_an_instruction() {
    let memory = image("DAT 150");
    assert_eq!(decode(memory[0]), Some(Operation::Add(50)));
}

#[test]
fn forward_label_resolves() {
    let memory = image("BRA skip\nADD 1\nskip HLT");
    assert_eq!(&memory[..3], &[602, 101, 0]);
}

#[test]
fn backward_label_resolves() {
    let memory = image("top INP\nOUT\nBRA top");
    assert_eq!(&memory[..3], &[901, 902, 600]);
}

#[test]
fn label_before_an_instruction_without_operand() {
    let memory = image("LDA one\nOUT\nHLT\none DAT 1");
    assert_eq!(&memory[..4], &[503, 902, 0, 1]);
}

#[test]
fn label_before_a_bare_dat() {
    let memory = image("STA cell\nHLT\ncell DAT");
    assert_eq!(&memory[..3], &[302, 0, 0]);
}

#[test]
fn last_definition_of_a_label_wins() {
    let memory = image("x DAT 1\nx DAT 2\nLDA x");
    assert_eq!(&memory[..3], &[1, 2, 501]);
}

#[test]
fn labels_are_case_sensitive() {
    assert_eq!(failure("BRA Loop\nloop HLT"), Error::UndefinedLabel { line: 0 });
}

#[test]
fn mnemonics_are_case_insensitive() {
    let memory = image("add 1\nAdd 2\naDD 3\nhlt\ndat 9\nInP\nouT");
    assert_eq!(&memory[..7], &[101, 102, 103, 0, 9, 901, 902]);
}

#[test]
fn unresolved_label_is_a_symbol_error() {
    let ir = IR::parse_lines("BRA missing").unwrap();
    let e = ir.assemble().unwrap_err();
    assert_eq!(e, Error::UndefinedLabel { line: 0 });
    assert_eq!(e.kind(), ErrorKind::Symbol);
}

#[test]
fn unresolved_label_on_a_later_line() {
    assert_eq!(failure("INP\nOUT\nADD nowhere\nHLT"), Error::UndefinedLabel { line: 2 });
}

#[test]
fn address_150_is_a_range_error() {
    let ir = IR::parse_lines("ADD 150").unwrap();
    let e = ir.assemble().unwrap_err();
    assert_eq!(e, Error::AddressOutOfRange { line: 0, address: 150 });
    assert_eq!(e.kind(), ErrorKind::Range);
}

#[test]
fn address_100_is_out_and_99_is_in() {
    assert_eq!(failure("HLT\nSTA 100"), Error::AddressOutOfRange { line: 1, address: 100 });
    assert_eq!(image("STA 99")[0], 399);
    assert_eq!(image("STA 0")[0], 300);
}

#[test]
fn largest_literal_address_is_a_range_error() {
    assert_eq!(failure("LDA 65535"), Error::AddressOutOfRange { line: 0, address: 65535 });
}

#[test]
fn first_failing_line_is_reported() {
    assert_eq!(failure("ADD 150\nBRA missing"), Error::AddressOutOfRange { line: 0, address: 150 });
    assert_eq!(failure("BRA missing\nADD 150"), Error::UndefinedLabel { line: 0 });
}

#[test]
fn hundred_lines_fit() {
    let source = "HLT\n".repeat(99) + "here BRA here";
    let memory = image(&source);
    assert_eq!(memory[99], 699);
}

#[test]
fn hundred_and_one_lines_do_not_fit() {
    let source = "HLT\n".repeat(101);
    let e = failure(&source);
    assert_eq!(e, Error::ProgramTooLong { lines: 101 });
    assert_eq!(e.kind(), ErrorKind::Range);
}

#[test]
fn too_long_is_reported_before_a_bad_address() {
    let source = "ADD 150\n".to_string() + &"HLT\n".repeat(100);
    assert_eq!(failure(&source), Error::ProgramTooLong { lines: 101 });
}

#[test]
fn unknown_mnemonic_is_a_syntax_error() {
    let e = failure("HLT\nJMP 3");
    assert_eq!(e, Error::Syntax { line: 1 });
    assert_eq!(e.kind(), ErrorKind::Syntax);
}

#[test]
fn missing_operand_is_a_syntax_error() {
    assert_eq!(failure("ADD"), Error::Syntax { line: 0 });
    assert_eq!(failure("INP\nloop BRA"), Error::Syntax { line: 1 });
}

#[test]
fn lone_label_is_a_syntax_error() {
    assert_eq!(failure("start"), Error::Syntax { line: 0 });
}

#[test]
fn blank_line_is_a_syntax_error() {
    assert_eq!(failure("INP\n\nHLT"), Error::Syntax { line: 1 });
    assert_eq!(failure("HLT\n\n"), Error::Syntax { line: 1 });
    assert_eq!(failure("   \t "), Error::Syntax { line: 0 });
    assert_eq!(failure("\n"), Error::Syntax { line: 0 });
}

#[test]
fn three_words_need_an_instruction_in_the_middle() {
    assert_eq!(failure("a b c"), Error::Syntax { line: 0 });
    assert_eq!(failure("ADD x 5"), Error::Syntax { line: 0 });
}

#[test]
fn three_words_bind_the_first_as_label_even_if_it_is_a_mnemonic() {
    let memory = image("HLT ADD 1\nBRA HLT");
    assert_eq!(&memory[..2], &[101, 600]);
}

#[test]
fn operand_after_an_instruction_without_operand_is_ignored() {
    assert_eq!(image("HLT 7")[0], 0);
    assert_eq!(image("x OUT 7")[0], 902);
}

#[test]
fn words_after_the_second_are_ignored_on_long_lines() {
    assert_eq!(image("ADD 5 and more words")[0], 105);
    assert_eq!(image("x HLT and more")[0], 0);
    assert_eq!(failure("x ADD 5 more"), Error::Syntax { line: 0 });
}

#[test]
fn final_line_ending_is_optional() {
    assert_eq!(image("INP\nHLT\n"), image("INP\nHLT"));
}

#[test]
fn carriage_returns_and_tabs_separate_words() {
    let memory = image("loop\tLDA\t5\r\n  BRA   loop  \r\n\x0cHLT\x0c");
    assert_eq!(&memory[..3], &[505, 600, 0]);
}

#[test]
fn vertical_tab_is_part_of_a_word() {
    assert_eq!(failure("HLT\x0b"), Error::Syntax { line: 0 });
}

#[test]
fn operand_with_plus_sign_is_a_number() {
    assert_eq!(image("ADD +5")[0], 105);
}

#[test]
fn operand_too_large_for_a_number_is_a_label() {
    assert_eq!(failure("ADD 70000"), Error::UndefinedLabel { line: 0 });
    let memory = image("70000 DAT 3\nADD 70000");
    assert_eq!(&memory[..2], &[3, 100]);
}

#[test]
fn negative_operand_is_a_label() {
    assert_eq!(failure("ADD -1"), Error::UndefinedLabel { line: 0 });
}

#[test]
fn dat_takes_signed_values() {
    let memory = image("DAT -7\nDAT +8\nDAT -32768\nDAT 32767\nDAT 0");
    assert_eq!(&memory[..5], &[-7, 8, -32768, 32767, 0]);
}

#[test]
fn dat_with_a_value_that_is_no_literal_is_zero() {
    let memory = image("DAT foo\nDAT 32768\nDAT -32769\nDAT 1.5");
    assert_eq!(&memory[..4], &[0, 0, 0, 0]);
}

#[test]
fn non_ascii_labels_are_kept_whole() {
    let memory = image("BRA ende\u{301}\nHLT\nende\u{301} HLT");
    assert_eq!(memory[0], 602);
    assert_eq!(failure("BRA e\u{301}\ne HLT"), Error::UndefinedLabel { line: 0 });
}

#[test]
fn recognise_knows_the_eleven_names() {
    assert_eq!(recognise("ADD"), Some(Mnemonic::Add));
    assert_eq!(recognise("sub"), Some(Mnemonic::Sub));
    assert_eq!(recognise("Sta"), Some(Mnemonic::Sta));
    assert_eq!(recognise("lDa"), Some(Mnemonic::Lda));
    assert_eq!(recognise("BRA"), Some(Mnemonic::Bra));
    assert_eq!(recognise("brz"), Some(Mnemonic::Brz));
    assert_eq!(recognise("BRP"), Some(Mnemonic::Brp));
    assert_eq!(recognise("inp"), Some(Mnemonic::Inp));
    assert_eq!(recognise("OUT"), Some(Mnemonic::Out));
    assert_eq!(recognise("hlt"), Some(Mnemonic::Hlt));
    assert_eq!(recognise("dat"), Some(Mnemonic::Dat));
}

#[test]
fn recognise_rejects_everything_else() {
    assert_eq!(recognise(""), None);
    assert_eq!(recognise("AD"), None);
    assert_eq!(recognise("ADDD"), None);
    assert_eq!(recognise("JMP"), None);
    assert_eq!(recognise("AD\u{44}\u{301}"), None);
    assert_eq!(recognise("\u{e4}dd"), None);
    assert_eq!(recognise("A@D"), None);
    assert_eq!(recognise("`DD"), None);
    assert_eq!(recognise("{DD"), None);
}

#[test]
fn address_from_str_tells_numbers_from_labels() {
    assert!(matches!(Address::from_str("0"), Address::Exact(0)));
    assert!(matches!(Address::from_str("99"), Address::Exact(99)));
    assert!(matches!(Address::from_str("+12"), Address::Exact(12)));
    assert!(matches!(Address::from_str("65535"), Address::Exact(65535)));
    assert!(matches!(Address::from_str("65536"), Address::Label(name) if name == "65536"));
    assert!(matches!(Address::from_str("loop"), Address::Label(name) if name == "loop"));
    assert!(matches!(Address::from_str("-3"), Address::Label(name) if name == "-3"));
    assert!(matches!(Address::from_str("1x"), Address::Label(name) if name == "1x"));
    assert!(matches!(Address::from_str(""), Address::Label(name) if name.is_empty()));
}

#[test]
fn instruction_parse_follows_the_operand_rules() {
    assert!(matches!(Instructions::parse("ADD", Some("3")), Some(Instructions::Add(Address::Exact(3)))));
    assert!(matches!(Instructions::parse("brp", Some("x")), Some(Instructions::Brp(Address::Label(_)))));
    assert!(Instructions::parse("SUB", None).is_none());
    assert!(matches!(Instructions::parse("INP", None), Some(Instructions::Inp)));
    assert!(matches!(Instructions::parse("OUT", Some("9")), Some(Instructions::Out)));
    assert!(matches!(Instructions::parse("HLT", None), Some(Instructions::Hlt)));
    assert!(matches!(Instructions::parse("DAT", None), Some(Instructions::Dat(None))));
    assert!(matches!(Instructions::parse("DAT", Some("-4")), Some(Instructions::Dat(Some(-4)))));
    assert!(matches!(Instructions::parse("DAT", Some("x")), Some(Instructions::Dat(None))));
    assert!(Instructions::parse("NOP", Some("1")).is_none());
}

#[test]
fn statement_parse_finds_the_label() {
    let s = Statement::parse("loop ADD 1").unwrap();
    assert_eq!(s.label.as_deref(), Some("loop"));
    assert!(matches!(s.instruction, Instructions::Add(Address::Exact(1))));

    let s = Statement::parse("ADD 1").unwrap();
    assert_eq!(s.label, None);

    let s = Statement::parse("  end   HLT ").unwrap();
    assert_eq!(s.label.as_deref(), Some("end"));
    assert!(matches!(s.instruction, Instructions::Hlt));

    let s = Statement::parse("ADD HLT").unwrap();
    assert_eq!(s.label, None);
    assert!(matches!(s.instruction, Instructions::Add(Address::Label(name)) if name == "HLT"));

    assert!(Statement::parse("").is_none());
    assert!(Statement::parse("one two").is_none());
}
