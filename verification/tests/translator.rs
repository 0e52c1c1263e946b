use nand2tetris::assembler::assembler::Assembler;
use nand2tetris::hack::{write_program, Comp, Dest, Instr, Jump, Register};
use nand2tetris::translator::parser::{
    ArtithmeticOperation, Command, NotCommandError, Parser, Segment, _Command,
};
use nand2tetris::translator::translator::{TranslateError, Translator};

/// A Hack machine.
struct Machine {
    rom: Vec<u16>,
    ram: Vec<u16>,
    a: u16,
    d: u16,
    pc: usize,
}

impl Machine {
    fn new(assembly: &str) -> Machine {
        let words = Assembler::new(assembly).unwrap().emit().unwrap();
        let rom = words.lines().map(|line| u16::from_str_radix(line, 2).unwrap()).collect();
        Machine { rom, ram: vec![0; 32768], a: 0, d: 0, pc: 0 }
    }

    fn step(&mut self) {
        let word = self.rom[self.pc];
        if word & 0x8000 == 0 {
            self.a = word;
            self.pc += 1;
            return;
        }
        let y = if word & 0x1000 != 0 { self.ram[self.a as usize] } else { self.a };
        let x = self.d;
        let out = match (word >> 6) & 0x3f {
            0b101010 => 0,
            0b111111 => 1,
            0b111010 => 0xffff,
            0b001100 => x,
            0b110000 => y,
            0b001101 => !x,
            0b110001 => !y,
            0b001111 => x.wrapping_neg(),
            0b110011 => y.wrapping_neg(),
            0b011111 => x.wrapping_add(1),
            0b110111 => y.wrapping_add(1),
            0b001110 => x.wrapping_sub(1),
            0b110010 => y.wrapping_sub(1),
            0b000010 => x.wrapping_add(y),
            0b010011 => x.wrapping_sub(y),
            0b000111 => y.wrapping_sub(x),
            0b000000 => x & y,
            0b010101 => x | y,
            other => panic!("no such computation: {:b}", other),
        };
        let address = self.a as usize;
        if word & 0b001_000 != 0 {
            self.ram[address] = out;
        }
        if word & 0b010_000 != 0 {
            self.d = out;
        }
        if word & 0b100_000 != 0 {
            self.a = out;
        }
        let value = out as i16;
        let jump = (word & 0b100 != 0 && value < 0)
            || (word & 0b010 != 0 && value == 0)
            || (word & 0b001 != 0 && value > 0);
        if jump {
            self.pc = self.a as usize;
        } else {
            self.pc += 1;
        }
    }

    /// Runs until the program counter leaves the program.
    fn run(&mut self) {
        let mut steps = 0;
        while self.pc < self.rom.len() {
            self.step();
            steps += 1;
            assert!(steps < 1_000_000);
        }
    }

    /// Runs a number of steps.
    fn run_for(&mut self, steps: usize) {
        for _ in 0..steps {
            self.step();
        }
    }
}

fn command(cmd: _Command) -> Command {
    let mut command = Command::new(String::from("Unit"));
    command.cmd = cmd;
    command
}

fn assembly(cmd: _Command) -> String {
    command(cmd).to_string()
}

/// The machine after the commands of `source` ran on a stack at 256 with
/// the segments at 300, 400, 3000 and 3010.
fn after(source: &str) -> Machine {
    let mut parser = Parser::new(source, String::from("Unit"));
    let mut code = Vec::new();
    while parser.advance().unwrap() {
        parser.command.fmt(&mut code);
    }
    let mut text = String::new();
    write_program(&mut text, &code);
    let mut machine = Machine::new(&text);
    machine.ram[0] = 256;
    machine.ram[1] = 300;
    machine.ram[2] = 400;
    machine.ram[3] = 3000;
    machine.ram[4] = 3010;
    machine.run();
    machine
}

fn stack(machine: &Machine) -> Vec<i16> {
    (256..machine.ram[0] as usize).map(|i| machine.ram[i] as i16).collect()
}

#[test]
fn push_constant() {
    let m = after("push constant 7\npush constant 32767\npush constant 0");
    assert_eq!(stack(&m), vec![7, 32767, 0]);
}

#[test]
fn arithmetic() {
    assert_eq!(stack(&after("push constant 7\npush constant 8\nadd")), vec![15]);
    assert_eq!(stack(&after("push constant 7\npush constant 8\nsub")), vec![-1]);
    assert_eq!(stack(&after("push constant 12\npush constant 10\nand")), vec![8]);
    assert_eq!(stack(&after("push constant 12\npush constant 10\nor")), vec![14]);
    assert_eq!(stack(&after("push constant 1\npush constant 5\nneg")), vec![1, -5]);
    assert_eq!(stack(&after("push constant 1\npush constant 5\nnot")), vec![1, -6]);
}

#[test]
fn comparisons() {
    assert_eq!(stack(&after("push constant 3\npush constant 5\nlt")), vec![-1]);
    assert_eq!(stack(&after("push constant 5\npush constant 3\nlt")), vec![0]);
    assert_eq!(stack(&after("push constant 5\npush constant 5\nlt")), vec![0]);
    assert_eq!(stack(&after("push constant 3\npush constant 5\ngt")), vec![0]);
    assert_eq!(stack(&after("push constant 5\npush constant 3\ngt")), vec![-1]);
    assert_eq!(stack(&after("push constant 5\npush constant 5\neq")), vec![-1]);
    assert_eq!(stack(&after("push constant 5\npush constant 4\neq")), vec![0]);
    assert_eq!(
        stack(&after("push constant 9\npush constant 1\npush constant 2\nlt\npush constant 0\neq")),
        vec![9, 0]
    );
}

#[test]
fn segments() {
    let m = after(
        "push constant 10\npop local 2\npush constant 11\npop argument 3\n\
         push constant 12\npop this 4\npush constant 13\npop that 5\n\
         push constant 14\npop temp 0\npush constant 15\npop temp 7\n\
         push constant 16\npop static 8\n\
         push local 2\npush argument 3\npush this 4\npush that 5\npush temp 0\npush temp 7\n\
         push static 8",
    );
    assert_eq!(m.ram[302], 10);
    assert_eq!(m.ram[403], 11);
    assert_eq!(m.ram[3004], 12);
    assert_eq!(m.ram[3015], 13);
    assert_eq!(m.ram[5], 14);
    assert_eq!(m.ram[12], 15);
    assert_eq!(m.ram[16], 16);
    assert_eq!(stack(&m), vec![10, 11, 12, 13, 14, 15, 16]);
}

#[test]
fn pointer_is_this_and_that() {
    let m = after(
        "push constant 2000\npop pointer 0\npush constant 2100\npop pointer 1\n\
         push constant 5\npop this 1\npush constant 6\npop that 2\npush pointer 0\npush pointer 1",
    );
    assert_eq!(m.ram[3], 2000);
    assert_eq!(m.ram[4], 2100);
    assert_eq!(m.ram[2001], 5);
    assert_eq!(m.ram[2102], 6);
    assert_eq!(stack(&m), vec![2000, 2100]);
}

#[test]
fn branching() {
    let m = after(
        "push constant 0\npop temp 0\npush constant 3\npop temp 1\n\
         label LOOP\n\
         push temp 0\npush temp 1\nadd\npop temp 0\n\
         push temp 1\npush constant 1\nsub\npop temp 1\n\
         push temp 1\nif-goto LOOP\n\
         goto END\npush constant 99\nlabel END\npush temp 0",
    );
    assert_eq!(stack(&m), vec![6]);
}

#[test]
fn function_pushes_its_locals() {
    let m = after("push constant 9\nfunction f 3");
    assert_eq!(stack(&m), vec![9, 0, 0, 0]);
    let m = after("function g 0");
    assert_eq!(stack(&m), vec![]);
}

#[test]
fn call_saves_the_frame() {
    let mut call = command(_Command::Call { name: String::from("f"), args: 2 });
    call.call_label = 4;
    let text = format!("{}@30000\n0;JMP\n(f)\n", call.to_string());
    assert_eq!(call.call_label, 5);
    let mut m = Machine::new(&text);
    m.ram[0] = 258;
    m.ram[1] = 300;
    m.ram[2] = 400;
    m.ram[3] = 3000;
    m.ram[4] = 3010;
    m.ram[256] = 1;
    m.ram[257] = 2;
    m.run();
    // the function starts after the two instructions that follow the call
    assert_eq!(m.pc, m.rom.len());
    assert_eq!(m.ram[258] as usize, m.rom.len() - 2);
    assert_eq!(&m.ram[259..263], &[300, 400, 3000, 3010]);
    assert_eq!(m.ram[0], 263);
    assert_eq!(m.ram[1], 263);
    assert_eq!(m.ram[2], 256);
    assert!(text.contains("@f.ret.4\n"));
    assert!(text.contains("(f.ret.4)\n"));
}

#[test]
fn return_semantics() {
    let mut m = Machine::new(&assembly(_Command::Return));
    m.ram[0] = 308;
    m.ram[1] = 306;
    m.ram[2] = 300;
    m.ram[300] = 1;
    m.ram[301] = 20000;
    m.ram[302] = 11;
    m.ram[303] = 12;
    m.ram[304] = 13;
    m.ram[305] = 14;
    m.ram[307] = 77;
    m.run();
    assert_eq!(m.pc, 20000);
    assert_eq!(m.ram[300], 77);
    assert_eq!(m.ram[0], 301);
    assert_eq!(m.ram[1], 11);
    assert_eq!(m.ram[2], 12);
    assert_eq!(m.ram[3], 13);
    assert_eq!(m.ram[4], 14);
}

#[test]
fn return_without_arguments() {
    let mut m = Machine::new(&assembly(_Command::Return));
    m.ram[0] = 306;
    m.ram[1] = 305;
    m.ram[2] = 300;
    m.ram[300] = 20000;
    m.ram[301] = 11;
    m.ram[302] = 12;
    m.ram[303] = 13;
    m.ram[304] = 14;
    m.ram[305] = 77;
    m.run();
    assert_eq!(m.pc, 20000);
    assert_eq!(m.ram[300], 77);
    assert_eq!(m.ram[0], 301);
    assert_eq!(&m.ram[1..5], &[11, 12, 13, 14]);
}

fn translate(files: &[(&str, &str)]) -> Result<String, TranslateError> {
    let files = files.iter().map(|(name, text)| (name.to_string(), text.to_string())).collect();
    Translator::new(files).emit()
}

const PROLOGUE: &str = "@256\nD=A\n@SP\nM=D\n\
    @Sys.init.ret.0\nD=A\n@SP\nA=M\nM=D\nD=A+1\n@SP\nM=D\n\
    @LCL\nD=M\n@SP\nA=M\nM=D\nD=A+1\n@SP\nM=D\n\
    @ARG\nD=M\n@SP\nA=M\nM=D\nD=A+1\n@SP\nM=D\n\
    @THIS\nD=M\n@SP\nA=M\nM=D\nD=A+1\n@SP\nM=D\n\
    @THAT\nD=M\n@SP\nA=M\nM=D\nD=A+1\n@SP\nM=D\n\
    @5\nD=A\n@0\nD=D+A\n@SP\nD=M-D\n@ARG\nM=D\n\
    @SP\nD=M\n@LCL\nM=D\n\
    @Sys.init\n0;JMP\n(Sys.init.ret.0)\n";

#[test]
fn stack_init_prologue() {
    assert_eq!(translate(&[]).unwrap(), PROLOGUE);
    let out = translate(&[("Main", "push constant 1")]).unwrap();
    assert!(out.starts_with(PROLOGUE));
    assert_eq!(&out[PROLOGUE.len()..], "@1\nD=A\n@SP\nA=M\nM=D\nD=A+1\n@SP\nM=D\n");
}

#[test]
fn the_prologue_calls_sys_init() {
    let mut m = Machine::new(&format!("{}@30000\n0;JMP\n(Sys.init)\n", PROLOGUE));
    m.run();
    assert_eq!(m.pc, m.rom.len());
    assert_eq!(m.ram[0], 261);
    assert_eq!(m.ram[1], 261);
    assert_eq!(m.ram[2], 256);
    assert_eq!(m.ram[256] as usize, m.rom.len() - 2);
}

#[test]
fn static_mangling() {
    let out = translate(&[("Foo", "push static 3"), ("Bar", "push static 3\npop static 0")])
        .unwrap();
    let rest = &out[PROLOGUE.len()..];
    assert_eq!(
        rest,
        "@Foo.3\nD=M\n@SP\nA=M\nM=D\nD=A+1\n@SP\nM=D\n\
         @Bar.3\nD=M\n@SP\nA=M\nM=D\nD=A+1\n@SP\nM=D\n\
         @Bar.0\nD=A\n@R15\nM=D\n@SP\nAM=M-1\nD=M\n@R15\nA=M\nM=D\n"
    );
}

fn labels(text: &str) -> Vec<&str> {
    text.lines().filter(|line| line.starts_with('(')).collect()
}

#[test]
fn comparison_labels() {
    let out = translate(&[("Main", "eq\nlt")]).unwrap();
    let rest = &out[PROLOGUE.len()..];
    assert_eq!(labels(rest), vec!["(L0)", "(L1)", "(L2)", "(L3)"]);
    let jumps: Vec<&str> = rest.lines().filter(|line| line.starts_with("@L")).collect();
    assert_eq!(jumps, vec!["@L0", "@L1", "@L2", "@L3"]);
    assert!(rest.contains("D;JEQ\n"));
    assert!(rest.contains("D;JLT\n"));
}

#[test]
fn labels_are_not_used_again_in_later_files() {
    let out = translate(&[
        ("A", "eq\ncall f 0\ngt"),
        ("B", "lt\ncall f 1\ncall g 0"),
    ])
    .unwrap();
    assert_eq!(
        labels(&out),
        vec![
            "(Sys.init.ret.0)",
            "(L0)",
            "(L1)",
            "(f.ret.1)",
            "(L2)",
            "(L3)",
            "(L4)",
            "(L5)",
            "(f.ret.2)",
            "(g.ret.3)",
        ]
    );
}

#[test]
fn comments_and_blank_lines_are_passed_over() {
    let out = translate(&[("Main", "// start\n\n   push constant 1   // one\n\t\n//end")])
        .unwrap();
    assert_eq!(out, translate(&[("Main", "push constant 1")]).unwrap());
}

#[test]
fn a_program_runs() {
    let sys = "function Sys.init 0\n\
               push constant 7\n\
               push constant 8\n\
               call Main.add 2\n\
               pop static 0\n\
               push constant 40\n\
               call Main.twice 1\n\
               pop static 1\n\
               label END\n\
               goto END\n";
    let main = "// adds two numbers\n\
                function Main.add 0\n\
                push argument 0\n\
                push argument 1\n\
                add\n\
                return\n\
                function Main.twice 1\n\
                push argument 0\n\
                pop local 0\n\
                push local 0\n\
                push local 0\n\
                call Main.add 2\n\
                return\n";
    let out = translate(&[("Sys", sys), ("Main", main)]).unwrap();
    let mut m = Machine::new(&out);
    m.run_for(2000);
    assert_eq!(m.ram[16], 15);
    assert_eq!(m.ram[17], 80);
    assert_eq!(m.ram[0], 261);
    assert_eq!(m.ram[1], 261);
    assert_eq!(m.ram[2], 256);
}

#[test]
fn lines_that_are_no_commands() {
    assert_eq!(
        translate(&[("A", "add"), ("B", "push constant 1\n\nhello\nadd")]),
        Err(TranslateError::NotCommand { file: 1, line: 2 })
    );
    for line in [
        "push",
        "push constant",
        "push constant 1 2",
        "push  constant 1",
        "push nowhere 1",
        "push constant -1",
        "push constant +1",
        "push constant 32768",
        "push constant x",
        "pop constant 1",
        "push temp 8",
        "pop temp 8",
        "push pointer 2",
        "pop pointer 2",
        "add 1",
        "label",
        "label a b",
        "goto",
        "if-goto",
        "function f",
        "function f x",
        "call f",
        "call f 32768",
        "call  1",
        "return 1",
        "returns",
        "Add",
    ] {
        assert_eq!(
            translate(&[("A", line)]),
            Err(TranslateError::NotCommand { file: 0, line: 0 }),
            "{}",
            line
        );
        assert!(matches!(_Command::try_from(line), Err(NotCommandError)), "{}", line);
    }
}

#[test]
fn out_of_labels() {
    let mut source = String::new();
    for _ in 0..32767 {
        source.push_str("eq\n");
    }
    let out = translate(&[("A", &source)]).unwrap();
    assert!(out.ends_with("(L65533)\n@SP\nAM=M-1\nA=A-1\nM=D\n"));
    source.push_str("\nadd\neq\n");
    assert_eq!(
        translate(&[("A", &source)]),
        Err(TranslateError::OutOfLabels { file: 0, line: 32769 })
    );
}

#[test]
fn commands_are_read() {
    let read = |line: &str| _Command::try_from(line).unwrap();
    assert!(matches!(read("add"), _Command::Arithmetic(ArtithmeticOperation::Add)));
    assert!(matches!(read("not"), _Command::Arithmetic(ArtithmeticOperation::Not)));
    assert!(matches!(
        read("push local 12"),
        _Command::Push { segment: Segment::Local, index: 12 }
    ));
    assert!(matches!(read("pop that 007"), _Command::Pop { segment: Segment::That, index: 7 }));
    assert!(matches!(read("push temp 7"), _Command::Push { segment: Segment::Temp, index: 7 }));
    assert!(matches!(read("return"), _Command::Return));
    match read("label LOOP_1") {
        _Command::Label(name) => assert_eq!(name, "LOOP_1"),
        _ => panic!(),
    }
    match read("goto END") {
        _Command::GOTO(name) => assert_eq!(name, "END"),
        _ => panic!(),
    }
    match read("if-goto END") {
        _Command::If(name) => assert_eq!(name, "END"),
        _ => panic!(),
    }
    match read("function Main.main 3") {
        _Command::Function { name, args } => {
            assert_eq!(name, "Main.main");
            assert_eq!(args, 3);
        }
        _ => panic!(),
    }
    match read("call Math.multiply 2") {
        _Command::Call { name, args } => {
            assert_eq!(name, "Math.multiply");
            assert_eq!(args, 2);
        }
        _ => panic!(),
    }
}

#[test]
fn words_name_operations_and_segments() {
    assert!(matches!(ArtithmeticOperation::try_from("sub"), Ok(ArtithmeticOperation::Sub)));
    assert!(matches!(ArtithmeticOperation::try_from("eq"), Ok(ArtithmeticOperation::Eq)));
    assert!(matches!(ArtithmeticOperation::try_from("xor"), Err(NotCommandError)));
    assert!(matches!(Segment::try_from("static"), Ok(Segment::Static)));
    assert!(matches!(Segment::try_from("pointer"), Ok(Segment::Pointer)));
    assert!(matches!(Segment::try_from("Static"), Err(NotCommandError)));
    assert_eq!(NotCommandError.message(), "supplied string is not a command");
}

#[test]
fn parser_goes_from_file_to_file() {
    let mut parser = Parser::new("eq\n// nothing\ncall f 0\n", String::from("A"));
    assert_eq!(parser.advance(), Ok(true));
    assert_eq!(parser.position, 1);
    let mut code = Vec::new();
    parser.command.fmt(&mut code);
    assert_eq!(parser.command.label_value, 2);
    assert_eq!(parser.advance(), Ok(true));
    assert_eq!(parser.position, 3);
    parser.command.fmt(&mut code);
    assert_eq!(parser.command.call_label, 1);
    assert_eq!(parser.advance(), Ok(false));
    assert_eq!(parser.advance(), Ok(false));
    parser.next_file("push static 1\nnonsense\nadd", "B");
    assert_eq!(parser.command.name, "B");
    assert_eq!(parser.command.label_value, 2);
    assert_eq!(parser.command.call_label, 1);
    assert_eq!(parser.advance(), Ok(true));
    assert_eq!(parser.command.to_string(), "@B.1\nD=M\n@SP\nA=M\nM=D\nD=A+1\n@SP\nM=D\n");
    assert_eq!(parser.advance(), Err(NotCommandError));
    assert_eq!(parser.position, 1);
    assert_eq!(parser.advance(), Err(NotCommandError));
}

#[test]
fn assembly_file_name() {
    assert_eq!(Translator::output_name("dir/Main"), "dir/Main.asm");
}

#[test]
fn lines_of_a_file() {
    let parser = Parser::new("a\r\nb\n\nc \rd\r", String::new());
    assert_eq!(parser.lines, vec!["a", "b", "", "c \rd\r"]);
    assert_eq!(Parser::new("", String::new()).lines.len(), 0);
    assert_eq!(Parser::new("\n", String::new()).lines, vec![""]);
    assert_eq!(Parser::new("x\n", String::new()).lines, vec!["x"]);
    assert_eq!(Parser::new("x\ny", String::new()).lines, vec!["x", "y"]);
}

#[test]
fn lines_of_assembly() {
    let lines = vec![
        Instr::Register(Register::SP),
        Instr::Number(0),
        Instr::Number(32767),
        Instr::Symbol(String::from("Foo.3")),
        Instr::Label(String::from("END")),
        Instr::Compute(Dest::AM, Comp::MMinusOne, Jump::Null),
        Instr::Compute(Dest::Null, Comp::D, Jump::JNE),
        Instr::Compute(Dest::D, Comp::DOrM, Jump::JMP),
        Instr::Compute(Dest::Null, Comp::Zero, Jump::Null),
    ];
    let mut out = String::from("// start\n");
    write_program(&mut out, &lines);
    assert_eq!(
        out,
        "// start\n@SP\n@0\n@32767\n@Foo.3\n(END)\nAM=M-1\nD;JNE\nD=D|M;JMP\n0\n"
    );
}

#[test]
fn command_starts_as_return() {
    let c = Command::new(String::from("A"));
    assert!(matches!(c.cmd, _Command::Return));
    assert_eq!((c.label_value, c.call_label), (0, 0));
    assert_eq!(c.name, "A");
    let c = Command::init();
    assert!(matches!(c.cmd, _Command::Call { args: 0, .. }));
}
