//! The grammar of Jack, as functions from the tokens of a text to the tree
//! of a class.
//!
//! A function of the grammar takes what was parsed so far, the trees of the
//! part under way and the tokens that are left, and gives the same after
//! one more piece was read, or the problem that stops the parse.

use crate::compiler::compilation_engine::NonTerminals;
use crate::compiler::tokenizer::{Keyword, LexError, Lexeme};
use vstd::prelude::*;

verus! {

/// The structure of a stretch of a text.
pub enum Tree {
    /// A token.
    Leaf(Lexeme),
    /// A part with a name, made of the trees of its pieces in their order.
    Node(NonTerminals, Seq<Tree>),
}

/// The tokens that are left, and the error that ends them where the text
/// after them is no token.
pub struct Input {
    pub tokens: Seq<Lexeme>,
    pub failure: Option<LexError>,
}

/// What the parser asks of the next token.
#[derive(Clone, Copy, Debug, PartialEq, Eq, Structural)]
pub enum Expected {
    /// This keyword.
    Keyword(Keyword),
    /// This symbol.
    Symbol(char),
    /// An identifier.
    Identifier,
    /// An integer.
    Integer,
    /// A string.
    Text,
    /// `int`, `char`, `boolean` or the name of a class.
    Type,
    /// `void` or a type.
    ReturnType,
    /// A token with which a term starts.
    Term,
    /// Any token.
    Token,
}

/// Why a text is no class.
pub enum Problem {
    /// The text holds something that is no token.
    Lexical(LexError),
    /// The text ends where a token has to follow.
    EndOfInput,
    /// The next token is not what has to follow.
    Unexpected { expected: Expected, found: Lexeme },
}

/// What was parsed of a part so far: the trees of its pieces and the tokens
/// that are left, or the problem that stopped the parse.
pub type Parsed = Result<(Seq<Tree>, Input), Problem>;

impl Input {
    /// The next token.
    pub open spec fn peek(self) -> Option<Lexeme> {
        if self.tokens.len() > 0 {
            Some(self.tokens[0])
        } else {
            None
        }
    }

    /// The input after the next token.
    pub open spec fn rest(self) -> Input {
        Input { tokens: self.tokens.drop_first(), failure: self.failure }
    }

    /// The problem of an input without a next token.
    pub open spec fn end(self) -> Problem {
        match self.failure {
            Some(e) => Problem::Lexical(e),
            None => Problem::EndOfInput,
        }
    }
}

/// Tells whether a token is `int`, `char`, `boolean` or an identifier.
pub open spec fn is_type(lexeme: Lexeme) -> bool {
    lexeme is Identifier || lexeme == Lexeme::Keyword(Keyword::Int) || lexeme == Lexeme::Keyword(
        Keyword::Char,
    ) || lexeme == Lexeme::Keyword(Keyword::Boolean)
}

/// Tells whether a term can start with a token.
pub open spec fn starts_term(lexeme: Lexeme) -> bool {
    match lexeme {
        Lexeme::IntConst(_) => true,
        Lexeme::StringConst(_) => true,
        Lexeme::Identifier(_) => true,
        Lexeme::Keyword(k) => k == Keyword::True || k == Keyword::False || k == Keyword::Null || k
            == Keyword::This,
        Lexeme::Symbol(c) => c == '(' || c == '-' || c == '~',
    }
}

/// Tells whether a token is one of the nine operators.
pub open spec fn is_operator(lexeme: Lexeme) -> bool {
    lexeme matches Lexeme::Symbol(c) && (c == '+' || c == '-' || c == '*' || c == '/' || c == '&'
        || c == '|' || c == '<' || c == '>' || c == '=')
}

impl Expected {
    /// Tells whether a token is what the parser asks for.
    pub open spec fn admits(self, lexeme: Lexeme) -> bool {
        match self {
            Expected::Keyword(k) => lexeme == Lexeme::Keyword(k),
            Expected::Symbol(c) => lexeme == Lexeme::Symbol(c),
            Expected::Identifier => lexeme is Identifier,
            Expected::Integer => lexeme is IntConst,
            Expected::Text => lexeme is StringConst,
            Expected::Type => is_type(lexeme),
            Expected::ReturnType => is_type(lexeme) || lexeme == Lexeme::Keyword(Keyword::Void),
            Expected::Term => starts_term(lexeme),
            Expected::Token => true,
        }
    }
}

/// The start of a part: nothing was parsed yet.
pub open spec fn begin(input: Input) -> Parsed {
    Ok((Seq::empty(), input))
}

/// The start of a part inside the part under way.
pub open spec fn inner(p: Parsed) -> Parsed {
    match p {
        Ok((_, input)) => begin(input),
        Err(e) => Err(e),
    }
}

/// A measure of what is left to parse: one more than the number of tokens
/// that are left, and nothing once a problem has stopped the parse.
pub open spec fn size(p: Parsed) -> nat {
    match p {
        Ok((_, input)) => input.tokens.len() + 1,
        Err(_) => 0,
    }
}

/// The next token, where the parse goes on and there is one.
pub open spec fn upcoming(p: Parsed) -> Option<Lexeme> {
    match p {
        Ok((_, input)) => input.peek(),
        Err(_) => None,
    }
}

/// Reads one token, which has to be what is expected.
pub open spec fn token(p: Parsed, expected: Expected) -> Parsed {
    match p {
        Err(e) => Err(e),
        Ok((trees, input)) => match input.peek() {
            None => Err(input.end()),
            Some(lexeme) => if expected.admits(lexeme) {
                Ok((trees.push(Tree::Leaf(lexeme)), input.rest()))
            } else {
                Err(Problem::Unexpected { expected, found: lexeme })
            },
        },
    }
}

/// Reads the symbol `c`.
pub open spec fn symbol(p: Parsed, c: char) -> Parsed {
    token(p, Expected::Symbol(c))
}

/// Reads the keyword `k`.
pub open spec fn keyword(p: Parsed, k: Keyword) -> Parsed {
    token(p, Expected::Keyword(k))
}

/// Reads an identifier.
pub open spec fn identifier(p: Parsed) -> Parsed {
    token(p, Expected::Identifier)
}

/// Reads a type.
pub open spec fn typed(p: Parsed) -> Parsed {
    token(p, Expected::Type)
}

/// Tells whether the next token is the symbol `c`.
pub open spec fn at_symbol(p: Parsed, c: char) -> bool {
    upcoming(p) == Some(Lexeme::Symbol(c))
}

/// Tells whether the next token is the keyword `k`.
pub open spec fn at_keyword(p: Parsed, k: Keyword) -> bool {
    upcoming(p) == Some(Lexeme::Keyword(k))
}

/// Tells whether a term can start with the next token.
pub open spec fn at_term(p: Parsed) -> bool {
    upcoming(p) matches Some(lexeme) && starts_term(lexeme)
}

/// The tokens that a part left, which are no more than it was given.
pub open spec fn left(input: Input, rest: Input) -> Input {
    if rest.tokens.len() <= input.tokens.len() {
        rest
    } else {
        input
    }
}

/// Closes a part: the trees of its pieces become one tree with the name of
/// the part, which joins the trees of the part round it.
pub open spec fn wrap(p: Parsed, kind: NonTerminals, body: Parsed) -> Parsed {
    match p {
        Err(e) => Err(e),
        Ok((trees, input)) => match body {
            Err(e) => Err(e),
            Ok((children, rest)) => Ok(
                (trees.push(Tree::Node(kind, children)), left(input, rest)),
            ),
        },
    }
}

/// What a piece left, which is no more than what stood before it.
pub open spec fn within(p: Parsed, q: Parsed) -> Parsed {
    match p {
        Err(e) => Err(e),
        Ok((_, input)) => match q {
            Err(_) => q,
            Ok((trees, rest)) => Ok((trees, left(input, rest))),
        },
    }
}

/// What a piece of a list left, which is less than the list was given: a
/// piece takes at least one token.
pub open spec fn after(p: Parsed, q: Parsed) -> Parsed {
    match p {
        Err(_) => q,
        Ok((_, input)) => match q {
            Err(_) => q,
            Ok((trees, rest)) => if rest.tokens.len() < input.tokens.len() {
                q
            } else {
                Ok((trees, input.rest()))
            },
        },
    }
}

/// term := integer | string | `true` | `false` | `null` | `this` | name
///       | name `[` expression `]` | call | `(` expression `)`
///       | (`-` | `~`) term
pub open spec fn term(p: Parsed) -> Parsed
    decreases size(p), 2nat,
{
    if p is Err {
        p
    } else {
        let first = token(inner(p), Expected::Term);
        let body = if at_symbol(inner(p), '-') || at_symbol(inner(p), '~') {
            term(first)
        } else if at_symbol(inner(p), '(') {
            symbol(expression(first), ')')
        } else if upcoming(inner(p)) matches Some(Lexeme::Identifier(_)) {
            if at_symbol(first, '[') {
                symbol(expression(symbol(first, '[')), ']')
            } else if at_symbol(first, '(') || at_symbol(first, '.') {
                call(first)
            } else {
                first
            }
        } else {
            first
        };
        wrap(p, NonTerminals::Term, body)
    }
}

/// What follows the first name of a call:
/// (`.` name)? `(` expressionList `)`
pub open spec fn call(p: Parsed) -> Parsed
    decreases size(p), 5nat,
{
    if p is Err {
        p
    } else {
        let q = if at_symbol(p, '.') {
            identifier(symbol(p, '.'))
        } else {
            p
        };
        symbol(expression_list(symbol(q, '(')), ')')
    }
}

/// expressionList := (expression (`,` expression)*)?
pub open spec fn expression_list(p: Parsed) -> Parsed
    decreases size(p), 4nat,
{
    if p is Err {
        p
    } else {
        let body = if at_term(inner(p)) {
            more_expressions(within(inner(p), expression(inner(p))))
        } else {
            inner(p)
        };
        wrap(p, NonTerminals::ExpressionList, body)
    }
}

/// (`,` expression)*
pub open spec fn more_expressions(p: Parsed) -> Parsed
    decreases size(p), 0nat,
{
    if p is Err {
        p
    } else {
        if at_symbol(p, ',') {
            more_expressions(within(symbol(p, ','), expression(symbol(p, ','))))
        } else {
            p
        }
    }
}

/// expression := term (operator term)*
pub open spec fn expression(p: Parsed) -> Parsed
    decreases size(p), 3nat,
{
    if p is Err {
        p
    } else {
        wrap(p, NonTerminals::Expression, more_terms(within(inner(p), term(inner(p)))))
    }
}

/// (operator term)*
pub open spec fn more_terms(p: Parsed) -> Parsed
    decreases size(p), 1nat,
{
    if p is Err {
        p
    } else {
        if upcoming(p) matches Some(lexeme) && is_operator(lexeme) {
            let operator = token(p, Expected::Token);
            more_terms(within(operator, term(operator)))
        } else {
            p
        }
    }
}

/// letStatement := `let` name (`[` expression `]`)? `=` expression `;`
pub open spec fn let_statement(p: Parsed) -> Parsed {
    let name = identifier(keyword(inner(p), Keyword::Let));
    let target = if at_symbol(name, '[') {
        symbol(expression(symbol(name, '[')), ']')
    } else {
        name
    };
    wrap(p, NonTerminals::LetStatement, symbol(expression(symbol(target, '=')), ';'))
}

/// doStatement := `do` call `;`
pub open spec fn do_statement(p: Parsed) -> Parsed {
    wrap(
        p,
        NonTerminals::DoStatement,
        symbol(call(identifier(keyword(inner(p), Keyword::Do))), ';'),
    )
}

/// returnStatement := `return` expression? `;`
pub open spec fn return_statement(p: Parsed) -> Parsed {
    let start = keyword(inner(p), Keyword::Return);
    let value = if at_term(start) {
        expression(start)
    } else {
        start
    };
    wrap(p, NonTerminals::ReturnStatement, symbol(value, ';'))
}

/// `(` expression `)` `{` statements `}`
pub open spec fn guarded_block(p: Parsed) -> Parsed
    decreases size(p), 1nat,
{
    if p is Err {
        p
    } else {
        let condition = within(symbol(p, '('), expression(symbol(p, '(')));
        symbol(statements(symbol(symbol(condition, ')'), '{')), '}')
    }
}

/// ifStatement := `if` `(` expression `)` `{` statements `}`
///              (`else` `{` statements `}`)?
pub open spec fn if_statement(p: Parsed) -> Parsed
    decreases size(p), 2nat,
{
    if p is Err {
        p
    } else {
        let start = keyword(inner(p), Keyword::If);
        let then = within(start, guarded_block(start));
        let body = if at_keyword(then, Keyword::Else) {
            symbol(statements(symbol(keyword(then, Keyword::Else), '{')), '}')
        } else {
            then
        };
        wrap(p, NonTerminals::IfStatement, body)
    }
}

/// whileStatement := `while` `(` expression `)` `{` statements `}`
pub open spec fn while_statement(p: Parsed) -> Parsed
    decreases size(p), 2nat,
{
    if p is Err {
        p
    } else {
        wrap(p, NonTerminals::WhileStatement, guarded_block(keyword(inner(p), Keyword::While)))
    }
}

/// statements := statement*
pub open spec fn statements(p: Parsed) -> Parsed
    decreases size(p), 4nat,
{
    if p is Err {
        p
    } else {
        wrap(p, NonTerminals::Statements, statement_list(inner(p)))
    }
}

/// statement*, where a statement starts with `let`, `if`, `while`, `do` or
/// `return`
pub open spec fn statement_list(p: Parsed) -> Parsed
    decreases size(p), 3nat,
{
    if p is Err {
        p
    } else {
        if at_keyword(p, Keyword::Let) {
            statement_list(after(p, let_statement(p)))
        } else if at_keyword(p, Keyword::If) {
            statement_list(after(p, if_statement(p)))
        } else if at_keyword(p, Keyword::While) {
            statement_list(after(p, while_statement(p)))
        } else if at_keyword(p, Keyword::Do) {
            statement_list(after(p, do_statement(p)))
        } else if at_keyword(p, Keyword::Return) {
            statement_list(after(p, return_statement(p)))
        } else {
            p
        }
    }
}

/// (`,` name)*
pub open spec fn names(p: Parsed) -> Parsed
    decreases size(p),
{
    if p is Err {
        p
    } else {
        if at_symbol(p, ',') {
            names(identifier(symbol(p, ',')))
        } else {
            p
        }
    }
}

/// classVarDec := (`static` | `field`) type name (`,` name)* `;`
pub open spec fn class_var_dec(p: Parsed) -> Parsed {
    let kind = if at_keyword(inner(p), Keyword::Field) {
        keyword(inner(p), Keyword::Field)
    } else {
        keyword(inner(p), Keyword::Static)
    };
    wrap(p, NonTerminals::ClassVarDec, symbol(names(identifier(typed(kind))), ';'))
}

/// classVarDec*
pub open spec fn class_var_decs(p: Parsed) -> Parsed
    decreases size(p),
{
    if p is Err {
        p
    } else {
        if at_keyword(p, Keyword::Static) || at_keyword(p, Keyword::Field) {
            class_var_decs(after(p, class_var_dec(p)))
        } else {
            p
        }
    }
}

/// (`,` type name)*
pub open spec fn more_parameters(p: Parsed) -> Parsed
    decreases size(p),
{
    if p is Err {
        p
    } else {
        if at_symbol(p, ',') {
            more_parameters(identifier(typed(symbol(p, ','))))
        } else {
            p
        }
    }
}

/// parameterList := (type name (`,` type name)*)?
pub open spec fn parameter_list(p: Parsed) -> Parsed {
    let body = if upcoming(inner(p)) matches Some(lexeme) && is_type(lexeme) {
        more_parameters(identifier(typed(inner(p))))
    } else {
        inner(p)
    };
    wrap(p, NonTerminals::ParameterList, body)
}

/// varDec := `var` type name (`,` name)* `;`
pub open spec fn var_dec(p: Parsed) -> Parsed {
    wrap(
        p,
        NonTerminals::VarDec,
        symbol(names(identifier(typed(keyword(inner(p), Keyword::Var)))), ';'),
    )
}

/// varDec*
pub open spec fn var_decs(p: Parsed) -> Parsed
    decreases size(p),
{
    if p is Err {
        p
    } else {
        if at_keyword(p, Keyword::Var) {
            var_decs(after(p, var_dec(p)))
        } else {
            p
        }
    }
}

/// subroutineBody := `{` varDec* statements `}`
pub open spec fn subroutine_body(p: Parsed) -> Parsed {
    wrap(p, NonTerminals::SubroutineBody, symbol(statements(var_decs(symbol(inner(p), '{'))), '}'))
}

/// Tells whether a declaration of a subroutine starts with the next token.
pub open spec fn at_subroutine(p: Parsed) -> bool {
    at_keyword(p, Keyword::Constructor) || at_keyword(p, Keyword::Function) || at_keyword(
        p,
        Keyword::Method,
    )
}

/// subroutineDec := (`constructor` | `function` | `method`) (`void` | type)
///                name `(` parameterList `)` subroutineBody
pub open spec fn subroutine_dec(p: Parsed) -> Parsed {
    let kind = if at_keyword(inner(p), Keyword::Constructor) {
        keyword(inner(p), Keyword::Constructor)
    } else if at_keyword(inner(p), Keyword::Method) {
        keyword(inner(p), Keyword::Method)
    } else {
        keyword(inner(p), Keyword::Function)
    };
    let head = symbol(identifier(token(kind, Expected::ReturnType)), '(');
    wrap(p, NonTerminals::SubroutineDec, subroutine_body(symbol(parameter_list(head), ')')))
}

/// subroutineDec*
pub open spec fn subroutine_decs(p: Parsed) -> Parsed
    decreases size(p),
{
    if p is Err {
        p
    } else {
        if at_subroutine(p) {
            subroutine_decs(after(p, subroutine_dec(p)))
        } else {
            p
        }
    }
}

/// class := `class` name `{` classVarDec* subroutineDec* `}`
pub open spec fn class(p: Parsed) -> Parsed {
    let head = symbol(identifier(keyword(inner(p), Keyword::Class)), '{');
    wrap(p, NonTerminals::Class, symbol(subroutine_decs(class_var_decs(head)), '}'))
}

/// The tree of the class with which the tokens start, and the tokens after
/// it.
pub open spec fn parse(input: Input) -> Result<(Tree, Input), Problem> {
    match class(begin(input)) {
        Ok((trees, rest)) => Ok((trees[0], rest)),
        Err(e) => Err(e),
    }
}

/// A line feed.
pub open spec fn line_feed() -> Seq<char> {
    seq!['\n']
}

/// Two spaces: what a part is indented by inside the part round it.
pub open spec fn indent() -> Seq<char> {
    seq![' ', ' ']
}

impl NonTerminals {
    /// The line that opens a part, without its indentation.
    pub open spec fn open_tag(self) -> Seq<char> {
        seq!['<'] + self.name() + seq!['>', '\n']
    }

    /// The line that closes a part, without its indentation.
    pub open spec fn close_tag(self) -> Seq<char> {
        seq!['<', '/'] + self.name() + seq!['>', '\n']
    }
}

impl Tree {
    /// The text of a tree in XML, where `pad` is the indentation of its
    /// first line: a token is one line, a part is a line that opens it, its
    /// pieces with two spaces more, and a line that closes it.
    pub open spec fn xml(self, pad: Seq<char>) -> Seq<char>
        decreases self,
    {
        match self {
            Tree::Leaf(lexeme) => pad + lexeme.xml() + line_feed(),
            Tree::Node(kind, children) => pad + kind.open_tag() + render_all(
                children,
                pad + indent(),
            ) + pad + kind.close_tag(),
        }
    }
}

/// The text of trees in a row.
pub open spec fn render_all(trees: Seq<Tree>, pad: Seq<char>) -> Seq<char>
    decreases trees,
{
    if trees.len() == 0 {
        Seq::empty()
    } else {
        render_all(trees.drop_last(), pad) + trees.last().xml(pad)
    }
}

/// The text of a row of trees with one more tree.
pub proof fn lemma_render_push(trees: Seq<Tree>, tree: Tree, pad: Seq<char>)
    ensures
        render_all(trees.push(tree), pad) == render_all(trees, pad) + tree.xml(pad),
{
    assert(trees.push(tree).drop_last() =~= trees);
}

} // verus!
