use nand2tetris::assembler::assembler::Assembler;
use nand2tetris::assembler::command::Command;
use nand2tetris::assembler::parser::{AsmError, Parser};
use nand2tetris::assembler::symbol_table::{InstructionTable, SymbolTable};

#[test]
fn command_do_not_parse_comments() {
    let result = Command::parse_instruction("// Hello, world!");
    assert!(result.is_none());
}

#[test]
fn command_ignore_whitespaces() {
    assert!(Command::parse_instruction("    \n").is_none());
}

#[test]
fn command_parse_a_instruction() {
    let result = Command::parse_instruction("   @1234    ");
    assert!(result.is_some());
    assert_eq!(result, Some(Command::A("1234")));
}

#[test]
fn main_do_not_parse_comments() {
    let result = Command::parse_instruction("// Hello, world!");
    assert!(result.is_none());
}

#[test]
fn main_ignore_whitespaces() {
    assert!(Command::parse_instruction("    \n").is_none());
}

#[test]
fn main_parse_a_instruction() {
    let result = Command::parse_instruction("   @1234    ");
    assert!(result.is_some());
    assert_eq!(result, Some(Command::A("1234")));
}

fn assemble(source: &str) -> Result<String, AsmError> {
    Assembler::new(source)?.emit()
}

#[test]
fn parse_label() {
    assert_eq!(Command::parse_instruction(" (LOOP) "), Some(Command::L("LOOP")));
    assert_eq!(Command::parse_instruction("()"), Some(Command::L("")));
}

#[test]
fn parse_compute_instructions() {
    assert_eq!(
        Command::parse_instruction("D=M"),
        Some(Command::C { dest: Some("D"), comp: Some("M"), jump: None })
    );
    assert_eq!(
        Command::parse_instruction("0;JMP"),
        Some(Command::C { dest: None, comp: Some("0"), jump: Some("JMP") })
    );
    assert_eq!(
        Command::parse_instruction("AM=M-1;JNE"),
        Some(Command::C { dest: Some("AM"), comp: Some("M-1"), jump: Some("JNE") })
    );
}

#[test]
fn read_tells_unknown_lines() {
    assert!(Command::read("D").is_err());
    assert!(Command::read("D;JMP=M").is_err());
    assert!(!Command::is_known("hello"));
    assert!(Command::is_known("D=A"));
    assert!(Command::is_known(""));
    assert_eq!(Command::read("  // x"), Ok(None));
    assert_eq!(Command::read("@R1"), Ok(Some(Command::A("R1"))));
}

#[test]
fn a_instruction_literal() {
    assert_eq!(assemble("@42").unwrap(), "0000000000101010\n");
    assert_eq!(assemble("@0").unwrap(), "0000000000000000\n");
    assert_eq!(assemble("@32767").unwrap(), "0111111111111111\n");
}

#[test]
fn c_instruction_encoding() {
    assert_eq!(assemble("D=D+1").unwrap(), "1110011111010000\n");
    assert_eq!(assemble("0;JMP").unwrap(), "1110101010000111\n");
    assert_eq!(assemble("M=D&M").unwrap(), "1111000000001000\n");
}

#[test]
fn negated_d_has_its_own_bits() {
    assert_eq!(assemble("D=-D").unwrap(), "1110001111010000\n");
    assert_eq!(assemble("D=!D").unwrap(), "1110001101010000\n");
}

#[test]
fn null_is_a_mnemonic_of_dest_and_jump() {
    assert_eq!(assemble("null=D;null").unwrap(), "1110001100000000\n");
}

#[test]
fn symbol_assignment() {
    let out = assemble("@i\n@i\n(LOOP)\n@LOOP").unwrap();
    assert_eq!(out, "0000000000010000\n0000000000010000\n0000000000000010\n");
}

#[test]
fn variables_get_addresses_in_order() {
    let out = assemble("@a\n@b\n@a\n@c").unwrap();
    assert_eq!(
        out,
        "0000000000010000\n0000000000010001\n0000000000010000\n0000000000010010\n"
    );
}

#[test]
fn predefined_symbols() {
    let out = assemble("@SP\n@LCL\n@ARG\n@THIS\n@THAT\n@R13\n@SCREEN\n@KBD").unwrap();
    assert_eq!(
        out,
        "0000000000000000\n0000000000000001\n0000000000000010\n0000000000000011\n\
         0000000000000100\n0000000000001101\n0100000000000000\n0110000000000000\n"
    );
}

#[test]
fn label_is_bound_to_the_next_instruction() {
    let out = assemble("(START)\n@START\n// nothing\n\n(END)\n@END\n0;JMP\n@START").unwrap();
    assert_eq!(
        out,
        "0000000000000000\n0000000000000001\n1110101010000111\n0000000000000000\n"
    );
}

#[test]
fn label_after_its_use() {
    let out = assemble("@END\n0;JMP\n(END)\n@END").unwrap();
    assert_eq!(out, "0000000000000010\n1110101010000111\n0000000000000010\n");
}

#[test]
fn one_word_per_instruction() {
    let source = "// adds 2 and 3\n\n@2\nD=A\n(HERE)\n@3\nD=D+A\n@0\nM=D\n   \n(END)\n";
    let out = assemble(source).unwrap();
    let lines: Vec<&str> = out.lines().collect();
    assert_eq!(lines.len(), 6);
    for line in &lines {
        assert_eq!(line.len(), 16);
        assert!(line.chars().all(|c| c == '0' || c == '1'));
    }
    assert_eq!(
        lines,
        vec![
            "0000000000000010",
            "1110110000010000",
            "0000000000000011",
            "1110000010010000",
            "0000000000000000",
            "1110001100001000",
        ]
    );
    assert!(out.ends_with('\n'));
}

#[test]
fn program_with_symbols() {
    let source = "// Computes R2 = max(R0, R1)\n\
                  \n\
                  \x20  @R0\n\
                  \x20  D=M              \n\
                  \x20  @R1\n\
                  \x20  D=D-M\n\
                  \x20  @OUTPUT_FIRST\n\
                  \x20  D;JGT\n\
                  \x20  @R1\n\
                  \x20  D=M\n\
                  \x20  @OUTPUT_D\n\
                  \x20  0;JMP\n\
                  (OUTPUT_FIRST)\n\
                  \x20  @R0\n\
                  \x20  D=M\n\
                  (OUTPUT_D)\n\
                  \x20  @R2\n\
                  \x20  M=D\n\
                  (INFINITE_LOOP)\n\
                  \x20  @INFINITE_LOOP\n\
                  \x20  0;JMP\n";
    let expected = "0000000000000000\n\
                    1111110000010000\n\
                    0000000000000001\n\
                    1111010011010000\n\
                    0000000000001010\n\
                    1110001100000001\n\
                    0000000000000001\n\
                    1111110000010000\n\
                    0000000000001100\n\
                    1110101010000111\n\
                    0000000000000000\n\
                    1111110000010000\n\
                    0000000000000010\n\
                    1110001100001000\n\
                    0000000000001110\n\
                    1110101010000111\n";
    assert_eq!(assemble(source).unwrap(), expected);
}

#[test]
fn every_mnemonic() {
    let comps = [
        ("0", "0101010"),
        ("1", "0111111"),
        ("-1", "0111010"),
        ("D", "0001100"),
        ("A", "0110000"),
        ("M", "1110000"),
        ("!D", "0001101"),
        ("!A", "0110001"),
        ("!M", "1110001"),
        ("-D", "0001111"),
        ("-A", "0110011"),
        ("-M", "1110011"),
        ("D+1", "0011111"),
        ("A+1", "0110111"),
        ("M+1", "1110111"),
        ("D-1", "0001110"),
        ("A-1", "0110010"),
        ("M-1", "1110010"),
        ("D+A", "0000010"),
        ("D+M", "1000010"),
        ("D-A", "0010011"),
        ("D-M", "1010011"),
        ("A-D", "0000111"),
        ("M-D", "1000111"),
        ("D&A", "0000000"),
        ("D&M", "1000000"),
        ("D|A", "0010101"),
        ("D|M", "1010101"),
    ];
    let dests = [
        ("null", "000"),
        ("M", "001"),
        ("D", "010"),
        ("MD", "011"),
        ("A", "100"),
        ("AM", "101"),
        ("AD", "110"),
        ("AMD", "111"),
    ];
    let jumps = [
        ("null", "000"),
        ("JGT", "001"),
        ("JEQ", "010"),
        ("JGE", "011"),
        ("JLT", "100"),
        ("JNE", "101"),
        ("JLE", "110"),
        ("JMP", "111"),
    ];
    for (comp, c) in comps {
        for (dest, d) in dests {
            for (jump, j) in jumps {
                let line = format!("{}={};{}", dest, comp, jump);
                assert_eq!(assemble(&line).unwrap(), format!("111{}{}{}\n", c, d, j), "{}", line);
            }
        }
        assert_eq!(assemble(&format!("{};JMP", comp)).unwrap(), format!("111{}000111\n", c));
        assert_eq!(assemble(&format!("D={}", comp)).unwrap(), format!("111{}010000\n", c));
    }
}

#[test]
fn lines_may_end_with_carriage_returns() {
    assert_eq!(
        assemble("@1\r\nD=A\r\n(X)\r\n@X\r\n").unwrap(),
        "0000000000000001\n1110110000010000\n0000000000000010\n"
    );
}

#[test]
fn empty_program() {
    assert_eq!(assemble("").unwrap(), "");
    assert_eq!(assemble("\n\n// only a comment\n").unwrap(), "");
}

#[test]
fn duplicate_label_is_an_error() {
    assert_eq!(assemble("(A)\n@1\n(B)\n(A)\n"), Err(AsmError::DuplicateLabel { line: 3 }));
}

#[test]
fn label_may_take_the_name_of_a_known_symbol() {
    assert_eq!(assemble("@1\n(SP)\n@SP\n").unwrap(), "0000000000000001\n0000000000000001\n");
}

#[test]
fn unknown_command_is_an_error() {
    assert_eq!(assemble("@1\nhello\n"), Err(AsmError::UnknownCommand { line: 1 }));
    assert_eq!(assemble("D;JMP=A"), Err(AsmError::UnknownCommand { line: 0 }));
}

#[test]
fn duplicate_label_comes_before_unknown_command() {
    assert_eq!(assemble("hello\n(A)\n(A)\n"), Err(AsmError::DuplicateLabel { line: 2 }));
}

#[test]
fn bad_numbers_are_errors() {
    assert_eq!(assemble("@32768"), Err(AsmError::BadNumber { command: 0 }));
    assert_eq!(assemble("D=A\n@99999999999999999999"), Err(AsmError::BadNumber { command: 1 }));
    assert_eq!(assemble("@"), Err(AsmError::BadNumber { command: 0 }));
}

#[test]
fn unknown_mnemonics_are_errors() {
    assert_eq!(assemble("X=D"), Err(AsmError::UnknownDest { command: 0 }));
    assert_eq!(assemble("(L)\nD=D+2"), Err(AsmError::UnknownComp { command: 1 }));
    assert_eq!(assemble("D;JXX"), Err(AsmError::UnknownJump { command: 0 }));
    assert_eq!(assemble("D = M"), Err(AsmError::UnknownDest { command: 0 }));
    assert_eq!(assemble("D=M // copy"), Err(AsmError::UnknownComp { command: 0 }));
}

#[test]
fn out_of_memory_is_an_error() {
    let mut parser = Parser::new();
    parser.symbol_table.symbol_index = 32768;
    assert_eq!(parser.parse("@1\n@x\n"), Err(AsmError::OutOfMemory { line: 1 }));
}

#[test]
fn last_address_can_be_given() {
    let mut parser = Parser::new();
    parser.symbol_table.symbol_index = 32767;
    assert_eq!(parser.parse("@x\n"), Ok(()));
    assert_eq!(parser.symbol_table.table.get("x"), Some(32767));
    assert_eq!(parser.symbol_table.symbol_index, 32768);
    let assembler = Assembler { parser };
    assert_eq!(assembler.emit().unwrap(), "0111111111111111\n");
}

#[test]
fn undefined_symbol_is_an_error() {
    let mut parser = Parser::new();
    parser.commands.push(Command::A("nowhere"));
    let assembler = Assembler { parser };
    assert_eq!(assembler.emit(), Err(AsmError::UndefinedSymbol { command: 0 }));
}

#[test]
fn address_beyond_fifteen_bits_is_an_error() {
    let mut parser = Parser::new();
    parser.symbol_table.table.insert("far", 40000);
    parser.commands.push(Command::A("far"));
    let assembler = Assembler { parser };
    assert_eq!(assembler.emit(), Err(AsmError::BadNumber { command: 0 }));
}

#[test]
fn parser_keeps_commands_and_symbols() {
    let mut parser = Parser::new();
    parser.parse("@i\n(LOOP)\nD=M\n@LOOP\n").unwrap();
    assert_eq!(
        parser.commands,
        vec![
            Command::A("i"),
            Command::L("LOOP"),
            Command::C { dest: Some("D"), comp: Some("M"), jump: None },
            Command::A("LOOP"),
        ]
    );
    assert_eq!(parser.symbol_table.table.get("i"), Some(16));
    assert_eq!(parser.symbol_table.table.get("LOOP"), Some(1));
    assert_eq!(parser.symbol_table.symbol_index, 17);
}

#[test]
fn symbol_table_starts_with_the_known_symbols() {
    let table = SymbolTable::new();
    assert_eq!(table.symbol_index, 16);
    assert_eq!(table.table.get("SP"), Some(0));
    assert_eq!(table.table.get("R15"), Some(15));
    assert_eq!(table.table.get("SCREEN"), Some(16384));
    assert_eq!(table.table.get("KBD"), Some(24576));
    assert_eq!(table.table.get("x"), None);
    assert!(table.table.contains_key("THAT"));
    assert_eq!(table.table.entries.len(), 23);
}

#[test]
fn later_binding_counts() {
    let mut table = SymbolTable::new();
    table.table.insert("SP", 7);
    assert_eq!(table.table.get("SP"), Some(7));
}

#[test]
fn instruction_table_holds_the_bits() {
    let table = InstructionTable::new();
    assert_eq!(table.dest.entries.len(), 8);
    assert_eq!(table.comp.entries.len(), 28);
    assert_eq!(table.jump.entries.len(), 8);
    assert_eq!(table.dest.get("AMD"), Some(0b111_000));
    assert_eq!(table.dest.get("null"), Some(0));
    assert_eq!(table.comp.get("D|M"), Some(0b1_010101_000000));
    assert_eq!(table.comp.get("-D"), Some(0b0_001111_000000));
    assert_eq!(table.comp.get("null"), None);
    assert_eq!(table.jump.get("JLE"), Some(0b110));
}

#[test]
fn output_name_takes_the_first_dot() {
    assert_eq!(Assembler::output_name("Add.asm"), Some(String::from("Add.hack")));
    assert_eq!(Assembler::output_name("dir/Max.v2.asm"), Some(String::from("dir/Max.hack")));
    assert_eq!(Assembler::output_name("noextension"), None);
}
