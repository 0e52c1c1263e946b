use nand2tetris::compiler::analyzer::Analyzer;
use nand2tetris::compiler::compilation_engine::grammar::Expected;
use nand2tetris::compiler::compilation_engine::writer::{
    CompilationWriter, CompileError, XmlWriter,
};
use nand2tetris::compiler::compilation_engine::{CompilationEngine, NonTerminals};
use nand2tetris::compiler::tokenizer::xml_writer::SimpleXmlWriter;
use nand2tetris::compiler::tokenizer::{Keyword, LexError, Token, Tokenizer};

#[test]
fn test_expect() {
    let b = "class Main {}";
    let wb = String::with_capacity(1024);
    let c = CompilationEngine::new(b);
    let w = XmlWriter::new(c, wb);

    w.expect(&Token::Keyword(Keyword::If), Token::Keyword(Keyword::If)).unwrap();
    w.expect(&Token::IntConst(1), Token::IntConst(1)).unwrap();
    w.expect(&Token::Symbol('"'), Token::Symbol('"')).unwrap();
}

#[test]
#[should_panic]
fn test_expect_panics() {
    let b = "class Main {}";
    let wb = String::with_capacity(1024);
    let c = CompilationEngine::new(b);
    let w = XmlWriter::new(c, wb);

    w.expect(&Token::Keyword(Keyword::If), Token::Keyword(Keyword::Do)).unwrap();
}

#[test]
fn expect_names_what_was_expected() {
    let w = XmlWriter::new(CompilationEngine::new(""), String::new());
    assert_eq!(
        w.expect(&Token::Keyword(Keyword::If), Token::Keyword(Keyword::Do)),
        Err(CompileError::Unexpected {
            expected: Expected::Keyword(Keyword::Do),
            found: Token::Keyword(Keyword::If),
        })
    );
    assert_eq!(
        w.expect(&Token::IntConst(1), Token::Identifier(String::from("x"))),
        Err(CompileError::Unexpected { expected: Expected::Identifier, found: Token::IntConst(1) })
    );
    assert_eq!(
        w.expect(&Token::Identifier(String::from("a")), Token::Identifier(String::from("a"))),
        Ok(())
    );
    assert!(w.expect(&Token::IntConst(1), Token::IntConst(2)).is_err());
    assert!(w
        .expect(&Token::StringConst(String::from("a")), Token::StringConst(String::from("b")))
        .is_err());
}

fn compile(source: &str) -> Result<String, CompileError> {
    CompilationEngine::new(source).compile()
}

fn unexpected(expected: Expected, found: Token) -> Result<String, CompileError> {
    Err(CompileError::Unexpected { expected, found })
}

#[test]
fn minimal_class() {
    let out = compile("class Main { function void main() { return; } }").unwrap();
    let expected = "\
<class>
  <keyword> class </keyword>
  <identifier> Main </identifier>
  <symbol> { </symbol>
  <subroutineDec>
    <keyword> function </keyword>
    <keyword> void </keyword>
    <identifier> main </identifier>
    <symbol> ( </symbol>
    <parameterList>
    </parameterList>
    <symbol> ) </symbol>
    <subroutineBody>
      <symbol> { </symbol>
      <statements>
        <returnStatement>
          <keyword> return </keyword>
          <symbol> ; </symbol>
        </returnStatement>
      </statements>
      <symbol> } </symbol>
    </subroutineBody>
  </subroutineDec>
  <symbol> } </symbol>
</class>
";
    assert_eq!(out, expected);
}

#[test]
fn empty_class() {
    let out = compile("class Main {}").unwrap();
    assert_eq!(
        out,
        "<class>\n  <keyword> class </keyword>\n  <identifier> Main </identifier>\n  \
         <symbol> { </symbol>\n  <symbol> } </symbol>\n</class>\n"
    );
    assert_eq!(Analyzer::process("class Main {}"), Ok(out));
}

#[test]
fn what_follows_the_class_is_not_read() {
    assert_eq!(compile("class A {} class B {"), compile("class A {}"));
    assert_eq!(compile("class A {} #"), compile("class A {}"));
}

#[test]
fn class_variables() {
    let out = compile("class P { field int x, y; static P origin; }").unwrap();
    let expected = "\
<class>
  <keyword> class </keyword>
  <identifier> P </identifier>
  <symbol> { </symbol>
  <classVarDec>
    <keyword> field </keyword>
    <keyword> int </keyword>
    <identifier> x </identifier>
    <symbol> , </symbol>
    <identifier> y </identifier>
    <symbol> ; </symbol>
  </classVarDec>
  <classVarDec>
    <keyword> static </keyword>
    <identifier> P </identifier>
    <identifier> origin </identifier>
    <symbol> ; </symbol>
  </classVarDec>
  <symbol> } </symbol>
</class>
";
    assert_eq!(out, expected);
}

fn body_of(statements: &str) -> String {
    let source = format!("class C {{ method int f(int a, boolean b) {{ var int i; {} }} }}", statements);
    let out = compile(&source).unwrap();
    let start = out.find("      <statements>\n").unwrap();
    let end = out.rfind("\n      </statements>\n").unwrap() + 1;
    out[start + "      <statements>\n".len()..end].to_string()
}

#[test]
fn parameters_and_local_variables() {
    let out = compile("class C { method int f(int a, boolean b) { var int i, j; var C c; } }")
        .unwrap();
    assert!(out.contains(
        "    <parameterList>\n      <keyword> int </keyword>\n      <identifier> a </identifier>\n      \
         <symbol> , </symbol>\n      <keyword> boolean </keyword>\n      <identifier> b </identifier>\n    \
         </parameterList>\n"
    ));
    assert!(out.contains(
        "      <varDec>\n        <keyword> var </keyword>\n        <keyword> int </keyword>\n        \
         <identifier> i </identifier>\n        <symbol> , </symbol>\n        <identifier> j </identifier>\n        \
         <symbol> ; </symbol>\n      </varDec>\n      <varDec>\n        <keyword> var </keyword>\n        \
         <identifier> C </identifier>\n        <identifier> c </identifier>\n        <symbol> ; </symbol>\n      \
         </varDec>\n      <statements>\n      </statements>\n"
    ));
}

#[test]
fn let_statement_with_operators() {
    let expected = "
        <letStatement>
          <keyword> let </keyword>
          <identifier> i </identifier>
          <symbol> = </symbol>
          <expression>
            <term>
              <identifier> a </identifier>
            </term>
            <symbol> + </symbol>
            <term>
              <integerConstant> 1 </integerConstant>
            </term>
            <symbol> &lt; </symbol>
            <term>
              <symbol> - </symbol>
              <term>
                <identifier> i </identifier>
              </term>
            </term>
          </expression>
          <symbol> ; </symbol>
        </letStatement>
";
    assert_eq!(format!("\n{}", body_of("let i = a + 1 < -i;")), expected);
}

#[test]
fn let_statement_with_index() {
    let expected = "
        <letStatement>
          <keyword> let </keyword>
          <identifier> a </identifier>
          <symbol> [ </symbol>
          <expression>
            <term>
              <identifier> i </identifier>
            </term>
          </expression>
          <symbol> ] </symbol>
          <symbol> = </symbol>
          <expression>
            <term>
              <identifier> b </identifier>
              <symbol> [ </symbol>
              <expression>
                <term>
                  <integerConstant> 2 </integerConstant>
                </term>
              </expression>
              <symbol> ] </symbol>
            </term>
          </expression>
          <symbol> ; </symbol>
        </letStatement>
";
    assert_eq!(format!("\n{}", body_of("let a[i] = b[2];")), expected);
}

#[test]
fn do_statement_with_arguments() {
    let expected = "
        <doStatement>
          <keyword> do </keyword>
          <identifier> Output </identifier>
          <symbol> . </symbol>
          <identifier> print </identifier>
          <symbol> ( </symbol>
          <expressionList>
            <expression>
              <term>
                <stringConstant> a &amp; b </stringConstant>
              </term>
            </expression>
            <symbol> , </symbol>
            <expression>
              <term>
                <keyword> this </keyword>
              </term>
            </expression>
          </expressionList>
          <symbol> ) </symbol>
          <symbol> ; </symbol>
        </doStatement>
        <doStatement>
          <keyword> do </keyword>
          <identifier> run </identifier>
          <symbol> ( </symbol>
          <expressionList>
          </expressionList>
          <symbol> ) </symbol>
          <symbol> ; </symbol>
        </doStatement>
";
    assert_eq!(format!("\n{}", body_of("do Output.print(\"a & b\", this); do run();")), expected);
}

#[test]
fn if_and_while_statements() {
    let expected = "
        <ifStatement>
          <keyword> if </keyword>
          <symbol> ( </symbol>
          <expression>
            <term>
              <keyword> true </keyword>
            </term>
          </expression>
          <symbol> ) </symbol>
          <symbol> { </symbol>
          <statements>
            <whileStatement>
              <keyword> while </keyword>
              <symbol> ( </symbol>
              <expression>
                <term>
                  <symbol> ~ </symbol>
                  <term>
                    <symbol> ( </symbol>
                    <expression>
                      <term>
                        <identifier> b </identifier>
                      </term>
                    </expression>
                    <symbol> ) </symbol>
                  </term>
                </term>
              </expression>
              <symbol> ) </symbol>
              <symbol> { </symbol>
              <statements>
              </statements>
              <symbol> } </symbol>
            </whileStatement>
          </statements>
          <symbol> } </symbol>
          <keyword> else </keyword>
          <symbol> { </symbol>
          <statements>
            <returnStatement>
              <keyword> return </keyword>
              <expression>
                <term>
                  <identifier> f </identifier>
                  <symbol> ( </symbol>
                  <expressionList>
                    <expression>
                      <term>
                        <identifier> a </identifier>
                      </term>
                    </expression>
                  </expressionList>
                  <symbol> ) </symbol>
                </term>
              </expression>
              <symbol> ; </symbol>
            </returnStatement>
          </statements>
          <symbol> } </symbol>
        </ifStatement>
";
    assert_eq!(format!("\n{}", body_of("if (true) { while (~(b)) { } } else { return f(a); }")), expected);
}

#[test]
fn the_first_token_has_to_be_class() {
    assert_eq!(
        compile("function void main() {}"),
        unexpected(Expected::Keyword(Keyword::Class), Token::Keyword(Keyword::Function))
    );
}

#[test]
fn unexpected_tokens() {
    assert_eq!(
        compile("class 5 {}"),
        unexpected(Expected::Identifier, Token::IntConst(5))
    );
    assert_eq!(
        compile("class A { let }"),
        unexpected(Expected::Symbol('}'), Token::Keyword(Keyword::Let))
    );
    assert_eq!(
        compile("class A { field x; }"),
        unexpected(Expected::Identifier, Token::Symbol(';'))
    );
    assert_eq!(
        compile("class A { field 1 x; }"),
        unexpected(Expected::Type, Token::IntConst(1))
    );
    assert_eq!(
        compile("class A { function f() {} }"),
        unexpected(Expected::Identifier, Token::Symbol('('))
    );
    assert_eq!(
        compile("class A { function void f {} }"),
        unexpected(Expected::Symbol('('), Token::Symbol('{'))
    );
    assert_eq!(
        compile("class A { function 1 f() {} }"),
        unexpected(Expected::ReturnType, Token::IntConst(1))
    );
    assert_eq!(
        compile("class A { function void f() { let x = ; } }"),
        unexpected(Expected::Term, Token::Symbol(';'))
    );
    assert_eq!(
        compile("class A { function void f() { do f(1,); } }"),
        unexpected(Expected::Term, Token::Symbol(')'))
    );
    assert_eq!(
        compile("class A { function void f() { let x = a.b; } }"),
        unexpected(Expected::Symbol('('), Token::Symbol(';'))
    );
    assert_eq!(
        compile("class A { function void f() { return 1 } }"),
        unexpected(Expected::Symbol(';'), Token::Symbol('}'))
    );
}

#[test]
fn end_of_input() {
    assert_eq!(compile(""), Err(CompileError::EndOfInput));
    assert_eq!(compile("class A {"), Err(CompileError::EndOfInput));
    assert_eq!(compile("class A { function void f() { return"), Err(CompileError::EndOfInput));
    assert_eq!(compile("class A { /* never closed"), Err(CompileError::EndOfInput));
}

#[test]
fn lexical_errors() {
    assert_eq!(
        compile("class A { # }"),
        Err(CompileError::Lexical(LexError::UnknownCharacter))
    );
    assert_eq!(
        compile("class A { function void f() { let x = 40000; } }"),
        Err(CompileError::Lexical(LexError::IntegerTooLarge))
    );
    assert_eq!(
        compile("class A { function void f() { let x = \"abc; } }"),
        Err(CompileError::Lexical(LexError::UnterminatedString))
    );
}

#[test]
fn a_problem_before_a_lexical_error_comes_first() {
    assert_eq!(
        compile("class 5 { # }"),
        unexpected(Expected::Identifier, Token::IntConst(5))
    );
}

#[test]
fn single_steps() {
    let mut w = XmlWriter::new(CompilationEngine::new("x + 1 ) rest"), String::from(">"));
    assert_eq!(w.write_expression(), Ok(()));
    assert_eq!(
        w.writer,
        "><expression>\n  <term>\n    <identifier> x </identifier>\n  </term>\n  \
         <symbol> + </symbol>\n  <term>\n    <integerConstant> 1 </integerConstant>\n  </term>\n\
         </expression>\n"
    );
    assert_eq!(w.peek_token(), Some(Token::Symbol(')')));
    assert_eq!(w.next_token(), Ok(Token::Symbol(')')));
    assert_eq!(w.next_token(), Ok(Token::Identifier(String::from("rest"))));
    assert_eq!(w.peek_token(), None);
    assert_eq!(w.next_token(), Err(CompileError::EndOfInput));
}

#[test]
fn tags_and_terminals() {
    let mut w = XmlWriter::new(CompilationEngine::new(""), String::new());
    w.write_open_tag(NonTerminals::Class);
    w.write_open_tag(NonTerminals::Term);
    w.write_terminal(&Token::Symbol('<'));
    w.write_closing_tag(NonTerminals::Term);
    w.write_closing_tag(NonTerminals::Class);
    assert_eq!(w.writer, "<class>\n  <term>\n    <symbol> &lt; </symbol>\n  </term>\n</class>\n");
    assert_eq!(w.padding, "");
    w.write_closing_tag(NonTerminals::Class);
    assert_eq!(w.padding, "");
}

#[test]
fn each_step_reads_its_part() {
    let w = |source: &'static str| XmlWriter::new(CompilationEngine::new(source), String::new());
    let mut a = w("5");
    assert_eq!(a.write_term(), Ok(()));
    assert_eq!(a.writer, "<term>\n  <integerConstant> 5 </integerConstant>\n</term>\n");
    let mut a = w(")");
    assert_eq!(a.write_expression_list(), Ok(()));
    assert_eq!(a.writer, "<expressionList>\n</expressionList>\n");
    let mut a = w("return;");
    assert_eq!(a.write_return_statement(), Ok(()));
    let mut a = w("do f();");
    assert_eq!(a.write_do_statement(), Ok(()));
    let mut a = w("while (x) {}");
    assert_eq!(a.write_while_statement(), Ok(()));
    let mut a = w("if (x) {} else {}");
    assert_eq!(a.write_if_statement(), Ok(()));
    let mut a = w("class A {}");
    assert_eq!(a.write_class(), Ok(()));
    let mut a = w("static int x;");
    assert_eq!(a.write_class_var_declarations(), Ok(()));
    let mut a = w("method void f() {}");
    assert_eq!(a.write_subroutine_declarations(), Ok(()));
    let mut a = w("int x)");
    assert_eq!(a.write_parameter_list(), Ok(()));
    let mut a = w("{ }");
    assert_eq!(a.write_subroutine_body(), Ok(()));
    let mut a = w("var int x;");
    assert_eq!(a.write_var_declaration(), Ok(()));
    let mut a = w("let x = 1; }");
    assert_eq!(a.write_statements(), Ok(()));
    let mut a = w("let x = 1;");
    assert_eq!(a.write_let_statement(), Ok(()));
    assert_eq!(
        a.write_let_statement(),
        Err(CompileError::EndOfInput)
    );
}

#[test]
fn tree_file_name() {
    assert_eq!(Analyzer::output_name("Main"), "MainM.xml");
}

const SQUARE_GAME: &str = "\
// This file is part of a game.
/**
 * Implements the Square Dance game.
 * The 'q' key is used to quit the game.
 */
class SquareGame {
   field Square square; // the square of this game
   field int direction; // the square's current direction:
                        // 0=none, 1=up, 2=down, 3=left, 4=right
   static boolean running;

   /** Constructs a new Square Game. */
   constructor SquareGame new() {
      let square = Square.new(0, 0, 30);
      let direction = 0;  // initial state is no movement
      return this;
   }

   /** Disposes this game. */
   method void dispose() {
      do square.dispose();
      do Memory.deAlloc(this);
      return;
   }

   /** Moves the square in the current direction. */
   method void moveSquare() {
      if (direction = 1) { do square.moveUp(); }
      if (direction = 2) { do square.moveDown(); }
      if ((direction > 2) & ~(direction < 3)) { do square.moveLeft(); } else { do Sys.wait(5); }
      return;
   }

   /** Runs the game: handles the user's inputs and moves the square accordingly */
   method void run(int limit, Array keys) {
      var char key;  // the key currently pressed by the user
      var boolean exit, again;
      let exit = false;
      let keys[limit - 1] = -key | (keys[0] * 2) / Math.abs(-3);
      do Output.printString(\"Score: <\" );
      while (~exit) {
         // waits for a key to be pressed
         while (key = 0) {
            let key = Keyboard.keyPressed();
            do moveSquare();
         }
         if (key = 81)  { let exit = true; }     // q key
      }
      return null;
   }
}
";

#[test]
fn a_class_is_read_token_by_token() {
    let xml = compile(SQUARE_GAME).unwrap();
    let mut tokenizer = Tokenizer::new(SQUARE_GAME);
    let mut depth: usize = 0;
    let mut open = Vec::new();
    for line in xml.lines() {
        let indent = line.len() - line.trim_start().len();
        let text = line.trim_start();
        if let Some(name) = text.strip_prefix("</") {
            depth -= 1;
            assert_eq!(indent, 2 * depth);
            assert_eq!(open.pop(), Some(name.strip_suffix('>').unwrap().to_string()));
        } else if text.contains("</") {
            assert_eq!(indent, 2 * depth);
            let token = tokenizer.advance().unwrap().unwrap();
            let mut expected = String::new();
            token.write_xml(&mut expected);
            assert_eq!(text, expected);
        } else {
            assert_eq!(indent, 2 * depth);
            depth += 1;
            let name = text.strip_prefix('<').unwrap().strip_suffix('>').unwrap();
            open.push(name.to_string());
        }
    }
    assert_eq!(depth, 0);
    assert!(open.is_empty());
    assert_eq!(tokenizer.advance(), None);
    assert_eq!(xml.matches("<subroutineDec>").count(), 4);
    assert_eq!(xml.matches("<classVarDec>").count(), 3);
    assert_eq!(xml.matches("<varDec>").count(), 2);
    assert_eq!(xml.matches("<letStatement>").count(), 6);
    assert_eq!(xml.matches("<doStatement>").count(), 8);
    assert_eq!(xml.matches("<ifStatement>").count(), 4);
    assert_eq!(xml.matches("<whileStatement>").count(), 2);
    assert_eq!(xml.matches("<returnStatement>").count(), 4);
    assert!(xml.contains("<stringConstant> Score: &lt; </stringConstant>"));
}

#[test]
fn deep_nesting() {
    let mut source = String::from("class A { function void f() { let x = ");
    for _ in 0..200 {
        source.push('(');
    }
    source.push('1');
    for _ in 0..200 {
        source.push(')');
    }
    source.push_str("; } }");
    let xml = compile(&source).unwrap();
    assert_eq!(xml.matches("<expression>").count(), 201);
    assert_eq!(xml.lines().map(|l| l.len() - l.trim_start().len()).max(), Some(2 * (7 + 400)));
}
