//! The parser that writes the tree of a class as XML while it reads the
//! tokens.
//!
//! The parser descends through the grammar: there is a function for each
//! part, which writes the line that opens the part, reads its pieces, and
//! writes the line that closes it. What a function is to read and to write
//! is what the function of the same part in `grammar` gives: each function
//! `parse_*` takes, as ghost values, the text `base` after which the part
//! under way started and what was parsed of that part so far, and leaves
//! the writer as far as the grammar says. The steps of `CompilationWriter`
//! start a part at the tokens that are left.

use crate::compiler::compilation_engine::grammar::{
    after, at_keyword, at_symbol, begin, call, class, class_var_dec, class_var_decs,
    do_statement, expression, expression_list, guarded_block, identifier, if_statement, indent,
    inner, is_operator, is_type, keyword, left, lemma_render_push, let_statement,
    more_expressions, more_parameters, more_terms, names, parameter_list, render_all,
    return_statement, size, starts_term, statement_list, statements, subroutine_body,
    at_subroutine, subroutine_dec, subroutine_decs, symbol, term, token, typed, upcoming, var_dec,
    var_decs,
    while_statement, within, wrap, Expected, Input, Parsed, Problem, Tree,
};
use crate::compiler::compilation_engine::{CompilationEngine, NonTerminals};
use crate::compiler::tokenizer::xml_writer::SimpleXmlWriter;
use crate::compiler::tokenizer::{Keyword, LexError, Lexeme, Token};
use crate::text::str_eq;
use vstd::prelude::*;

verus! {

/// Why a text is no class.
#[derive(Debug, Clone, PartialEq, Eq)]
pub enum CompileError {
    /// The text holds something that is no token.
    Lexical(LexError),
    /// The text ends where a token has to follow.
    EndOfInput,
    /// The next token is not what has to follow.
    Unexpected { expected: Expected, found: Token },
}

impl View for CompileError {
    type V = Problem;

    open spec fn view(&self) -> Problem {
        match self {
            CompileError::Lexical(e) => Problem::Lexical(*e),
            CompileError::EndOfInput => Problem::EndOfInput,
            CompileError::Unexpected { expected, found } => Problem::Unexpected {
                expected: *expected,
                found: found@,
            },
        }
    }
}

impl Token {
    /// Tells whether two tokens are the same.
    pub fn same(&self, other: &Token) -> (r: bool)
        ensures
            r == (self@ == other@),
    {
        match (self, other) {
            (Token::Keyword(a), Token::Keyword(b)) => *a == *b,
            (Token::Symbol(a), Token::Symbol(b)) => *a == *b,
            (Token::Identifier(a), Token::Identifier(b)) => str_eq(a.as_str(), b.as_str()),
            (Token::IntConst(a), Token::IntConst(b)) => *a == *b,
            (Token::StringConst(a), Token::StringConst(b)) => str_eq(a.as_str(), b.as_str()),
            _ => false,
        }
    }

    /// Tells whether the token is the symbol `c`.
    pub fn is_symbol(&self, c: char) -> (r: bool)
        ensures
            r == (self@ == Lexeme::Symbol(c)),
    {
        match self {
            Token::Symbol(s) => *s == c,
            _ => false,
        }
    }

    /// Tells whether the token is the keyword `k`.
    pub fn is_keyword(&self, k: Keyword) -> (r: bool)
        ensures
            r == (self@ == Lexeme::Keyword(k)),
    {
        match self {
            Token::Keyword(w) => *w == k,
            _ => false,
        }
    }

    /// Tells whether the token is `int`, `char`, `boolean` or an identifier.
    pub fn is_type(&self) -> (r: bool)
        ensures
            r == is_type(self@),
    {
        match self {
            Token::Identifier(_) => true,
            Token::Keyword(k) => *k == Keyword::Int || *k == Keyword::Char || *k
                == Keyword::Boolean,
            _ => false,
        }
    }

    /// Tells whether a term can start with the token.
    pub fn starts_term(&self) -> (r: bool)
        ensures
            r == starts_term(self@),
    {
        match self {
            Token::IntConst(_) => true,
            Token::StringConst(_) => true,
            Token::Identifier(_) => true,
            Token::Keyword(k) => *k == Keyword::True || *k == Keyword::False || *k
                == Keyword::Null || *k == Keyword::This,
            Token::Symbol(c) => *c == '(' || *c == '-' || *c == '~',
        }
    }

    /// Tells whether the token is one of the nine operators.
    pub fn is_operator(&self) -> (r: bool)
        ensures
            r == is_operator(self@),
    {
        match self {
            Token::Symbol(c) => *c == '+' || *c == '-' || *c == '*' || *c == '/' || *c == '&'
                || *c == '|' || *c == '<' || *c == '>' || *c == '=',
            _ => false,
        }
    }
}

impl Expected {
    /// What is asked of a token that has to be the same as `lexeme`: its
    /// kind, and for a keyword or a symbol which one.
    pub open spec fn like(lexeme: Lexeme) -> Expected {
        match lexeme {
            Lexeme::Keyword(k) => Expected::Keyword(k),
            Lexeme::Symbol(c) => Expected::Symbol(c),
            Lexeme::Identifier(_) => Expected::Identifier,
            Lexeme::IntConst(_) => Expected::Integer,
            Lexeme::StringConst(_) => Expected::Text,
        }
    }

    /// What is asked of a token that has to be the same as `token`.
    pub fn of(token: &Token) -> (r: Expected)
        ensures
            r == Expected::like(token@),
    {
        match token {
            Token::Keyword(k) => Expected::Keyword(*k),
            Token::Symbol(c) => Expected::Symbol(*c),
            Token::Identifier(_) => Expected::Identifier,
            Token::IntConst(_) => Expected::Integer,
            Token::StringConst(_) => Expected::Text,
        }
    }

    /// Tells whether a token is what is asked for.
    pub fn allows(self, token: &Token) -> (r: bool)
        ensures
            r == self.admits(token@),
    {
        match self {
            Expected::Keyword(k) => token.is_keyword(k),
            Expected::Symbol(c) => token.is_symbol(c),
            Expected::Identifier => match token {
                Token::Identifier(_) => true,
                _ => false,
            },
            Expected::Integer => match token {
                Token::IntConst(_) => true,
                _ => false,
            },
            Expected::Text => match token {
                Token::StringConst(_) => true,
                _ => false,
            },
            Expected::Type => token.is_type(),
            Expected::ReturnType => token.is_type() || token.is_keyword(Keyword::Void),
            Expected::Term => token.starts_term(),
            Expected::Token => true,
        }
    }
}

/// One more expression of a list: a problem of the expression is the
/// problem of the list.
proof fn lemma_more_expressions(cur: Parsed)
    requires
        at_symbol(cur, ','),
    ensures
        ({
            let e = expression(symbol(cur, ','));
            &&& symbol(cur, ',') is Ok
            &&& e is Err ==> more_expressions(cur) == e
            &&& e is Ok ==> more_expressions(cur) == more_expressions(within(symbol(cur, ','), e))
        }),
{
    let e = expression(symbol(cur, ','));
    if e is Err {
        assert(within(symbol(cur, ','), e) == e);
        assert(more_expressions(e) == e);
    }
}

/// One more term of an expression: a problem of the term is the problem of
/// the expression.
proof fn lemma_more_terms(cur: Parsed)
    requires
        upcoming(cur) matches Some(lexeme) && is_operator(lexeme),
    ensures
        ({
            let operator = token(cur, Expected::Token);
            let t = term(operator);
            &&& operator is Ok
            &&& t is Err ==> more_terms(cur) == t
            &&& t is Ok ==> more_terms(cur) == more_terms(within(operator, t))
        }),
{
    let operator = token(cur, Expected::Token);
    let t = term(operator);
    if t is Err {
        assert(within(operator, t) == t);
        assert(more_terms(t) == t);
    }
}

/// One more statement of a list: a problem of the statement is the problem
/// of the list.
proof fn lemma_statement(cur: Parsed, s: Parsed)
    requires
        (at_keyword(cur, Keyword::Let) && s == let_statement(cur)) || (at_keyword(
            cur,
            Keyword::If,
        ) && s == if_statement(cur)) || (at_keyword(cur, Keyword::While) && s == while_statement(
            cur,
        )) || (at_keyword(cur, Keyword::Do) && s == do_statement(cur)) || (at_keyword(
            cur,
            Keyword::Return,
        ) && s == return_statement(cur)),
    ensures
        s is Err ==> statement_list(cur) == s,
        s is Ok && size(s) < size(cur) ==> statement_list(cur) == statement_list(s),
{
    assert(after(cur, s) == s || !(s is Err || size(s) < size(cur)));
    if s is Err {
        assert(statement_list(s) == s);
    }
}

/// One more name of a list: a problem of the name is the problem of the
/// list.
proof fn lemma_names(cur: Parsed)
    requires
        at_symbol(cur, ','),
    ensures
        ({
            let n = identifier(symbol(cur, ','));
            &&& symbol(cur, ',') is Ok
            &&& names(cur) == names(n)
            &&& n is Err ==> names(cur) == n
        }),
{
    let n = identifier(symbol(cur, ','));
    if n is Err {
        assert(names(n) == n);
    }
}

/// One more parameter of a list: a problem of the parameter is the problem
/// of the list.
proof fn lemma_more_parameters(cur: Parsed)
    requires
        at_symbol(cur, ','),
    ensures
        ({
            let t = typed(symbol(cur, ','));
            let n = identifier(t);
            &&& symbol(cur, ',') is Ok
            &&& more_parameters(cur) == more_parameters(n)
            &&& n is Err ==> more_parameters(cur) == n
            &&& t is Err ==> more_parameters(cur) == t
        }),
{
    let n = identifier(typed(symbol(cur, ',')));
    if n is Err {
        assert(more_parameters(n) == n);
    }
}

/// One more declaration of a list: a problem of the declaration is the
/// problem of the list.
proof fn lemma_class_var_decs(cur: Parsed)
    requires
        at_keyword(cur, Keyword::Static) || at_keyword(cur, Keyword::Field),
    ensures
        ({
            let d = class_var_dec(cur);
            &&& d is Err ==> class_var_decs(cur) == d
            &&& d is Ok && size(d) < size(cur) ==> class_var_decs(cur) == class_var_decs(d)
        }),
{
    let d = class_var_dec(cur);
    if d is Err {
        assert(after(cur, d) == d);
        assert(class_var_decs(d) == d);
    }
}

/// One more declaration of a list: a problem of the declaration is the
/// problem of the list.
proof fn lemma_var_decs(cur: Parsed)
    requires
        at_keyword(cur, Keyword::Var),
    ensures
        ({
            let d = var_dec(cur);
            &&& d is Err ==> var_decs(cur) == d
            &&& d is Ok && size(d) < size(cur) ==> var_decs(cur) == var_decs(d)
        }),
{
    let d = var_dec(cur);
    if d is Err {
        assert(after(cur, d) == d);
        assert(var_decs(d) == d);
    }
}

/// One more declaration of a list: a problem of the declaration is the
/// problem of the list.
proof fn lemma_subroutine_decs(cur: Parsed)
    requires
        at_subroutine(cur),
    ensures
        ({
            let d = subroutine_dec(cur);
            &&& d is Err ==> subroutine_decs(cur) == d
            &&& d is Ok && size(d) < size(cur) ==> subroutine_decs(cur) == subroutine_decs(d)
        }),
{
    let d = subroutine_dec(cur);
    if d is Err {
        assert(after(cur, d) == d);
        assert(subroutine_decs(d) == d);
    }
}

/// The parser together with the text that it has written.
pub struct XmlWriter<'a> {
    pub compilation_engine: CompilationEngine<'a>,
    /// The text.
    pub writer: String,
    /// The indentation of the next line.
    pub padding: String,
}

impl<'a> XmlWriter<'a> {
    /// The tokens that are left.
    pub open spec fn input(&self) -> Input {
        Input {
            tokens: self.compilation_engine.tokenizer.tokens(),
            failure: self.compilation_engine.tokenizer.failure(),
        }
    }

    /// Tells whether the writer has come as far as `q` with a part: it has
    /// written the trees of `q`, with the indentation `pad`, after the text
    /// `base`, and the tokens that `q` leaves are left.
    pub open spec fn at(&self, base: Seq<char>, pad: Seq<char>, q: Parsed) -> bool {
        &&& q matches Ok((trees, input))
        &&& self.input() == input
        &&& self.padding@ == pad
        &&& self.writer@ == base + render_all(trees, pad)
    }

    /// Tells whether a step has taken the writer from `before` to `self`:
    /// where `p` is a problem, `r` holds it; else the writer has written
    /// the trees of `p` and the tokens that `p` leaves are left, which are
    /// no more than there were.
    pub open spec fn wrote(&self, before: &Self, p: Parsed, r: Result<(), CompileError>) -> bool {
        match p {
            Ok((trees, rest)) => {
                &&& r is Ok
                &&& self.input() == rest
                &&& self.padding@ == before.padding@
                &&& self.writer@ == before.writer@ + render_all(trees, before.padding@)
                &&& rest.tokens.len() <= before.input().tokens.len()
                &&& rest.failure == before.input().failure
            },
            Err(e) => r matches Err(x) && x@ == e,
        }
    }

    /// A writer that goes on after the text `writer`, without indentation.
    pub fn new(compilation_engine: CompilationEngine<'a>, writer: String) -> (r: Self)
        ensures
            r.compilation_engine == compilation_engine,
            r.writer == writer,
            r.padding@ == Seq::<char>::empty(),
    {
        XmlWriter { compilation_engine, writer, padding: String::new() }
    }

    /// Takes the next token.
    pub fn next_token(&mut self) -> (r: Result<Token, CompileError>)
        ensures
            final(self).writer == old(self).writer,
            final(self).padding == old(self).padding,
            match old(self).input().peek() {
                Some(lexeme) => r matches Ok(t) && t@ == lexeme && final(self).input() == old(
                    self,
                ).input().rest(),
                None => r matches Err(e) && e@ == old(self).input().end(),
            },
    {
        match self.compilation_engine.tokenizer.advance() {
            Some(Ok(token)) => Ok(token),
            Some(Err(e)) => Err(CompileError::Lexical(e)),
            None => Err(CompileError::EndOfInput),
        }
    }

    /// Looks at the next token, if there is one.
    pub fn peek_token(&mut self) -> (r: Option<Token>)
        ensures
            final(self).writer == old(self).writer,
            final(self).padding == old(self).padding,
            final(self).input() == old(self).input(),
            match r {
                Some(t) => old(self).input().peek() == Some(t@),
                None => old(self).input().peek() is None,
            },
    {
        match self.compilation_engine.tokenizer.peek_token() {
            Some(Ok(token)) => Some(token),
            _ => None,
        }
    }
}

impl<'a> XmlWriter<'a> {
    /// Tells whether a step has taken the writer from `before`, where it
    /// was under way after the text `base`, as far as `q`: where `q` is a
    /// problem, `r` holds it.
    pub open spec fn stepped(
        &self,
        before: &Self,
        base: Seq<char>,
        q: Parsed,
        r: Result<(), CompileError>,
    ) -> bool {
        match q {
            Ok(_) => {
                &&& r is Ok
                &&& self.at(base, before.padding@, q)
                &&& self.input().tokens.len() <= before.input().tokens.len()
                &&& self.input().failure == before.input().failure
            },
            Err(e) => r matches Err(x) && x@ == e,
        }
    }

    fn next_is_symbol(&mut self, c: char) -> (r: bool)
        ensures
            final(self).writer == old(self).writer,
            final(self).padding == old(self).padding,
            final(self).input() == old(self).input(),
            r == (old(self).input().peek() == Some(Lexeme::Symbol(c))),
    {
        match self.peek_token() {
            Some(token) => token.is_symbol(c),
            None => false,
        }
    }

    fn next_is_keyword(&mut self, k: Keyword) -> (r: bool)
        ensures
            final(self).writer == old(self).writer,
            final(self).padding == old(self).padding,
            final(self).input() == old(self).input(),
            r == (old(self).input().peek() == Some(Lexeme::Keyword(k))),
    {
        match self.peek_token() {
            Some(token) => token.is_keyword(k),
            None => false,
        }
    }

    fn next_starts_term(&mut self) -> (r: bool)
        ensures
            final(self).writer == old(self).writer,
            final(self).padding == old(self).padding,
            final(self).input() == old(self).input(),
            r == (old(self).input().peek() matches Some(lexeme) && starts_term(lexeme)),
    {
        match self.peek_token() {
            Some(token) => token.starts_term(),
            None => false,
        }
    }

    fn next_is_operator(&mut self) -> (r: bool)
        ensures
            final(self).writer == old(self).writer,
            final(self).padding == old(self).padding,
            final(self).input() == old(self).input(),
            r == (old(self).input().peek() matches Some(lexeme) && is_operator(lexeme)),
    {
        match self.peek_token() {
            Some(token) => token.is_operator(),
            None => false,
        }
    }

    fn next_is_type(&mut self) -> (r: bool)
        ensures
            final(self).writer == old(self).writer,
            final(self).padding == old(self).padding,
            final(self).input() == old(self).input(),
            r == (old(self).input().peek() matches Some(lexeme) && is_type(lexeme)),
    {
        match self.peek_token() {
            Some(token) => token.is_type(),
            None => false,
        }
    }

    fn next_is_identifier(&mut self) -> (r: bool)
        ensures
            final(self).writer == old(self).writer,
            final(self).padding == old(self).padding,
            final(self).input() == old(self).input(),
            r == (old(self).input().peek() matches Some(Lexeme::Identifier(_))),
    {
        match self.peek_token() {
            Some(Token::Identifier(_)) => true,
            _ => false,
        }
    }

    /// Writes the line of a token.
    fn leaf(&mut self, token: &Token)
        ensures
            final(self).compilation_engine == old(self).compilation_engine,
            final(self).padding == old(self).padding,
            final(self).writer@ == old(self).writer@ + Tree::Leaf(token@).xml(old(self).padding@),
    {
        self.writer.append(self.padding.as_str());
        token.write_xml(&mut self.writer);
        self.writer.append("\n");
        proof {
            reveal_strlit("\n");
            assert(self.writer@ =~= old(self).writer@ + Tree::Leaf(token@).xml(old(self).padding@));
        }
    }

    /// Writes the line that opens a part; what follows is indented by two
    /// spaces more.
    fn open(&mut self, kind: NonTerminals)
        ensures
            final(self).compilation_engine == old(self).compilation_engine,
            final(self).padding@ == old(self).padding@ + indent(),
            final(self).writer@ == old(self).writer@ + old(self).padding@ + kind.open_tag(),
    {
        self.writer.append(self.padding.as_str());
        self.writer.append("<");
        self.writer.append(kind.as_str());
        self.writer.append(">\n");
        self.padding.append("  ");
        proof {
            reveal_strlit("<");
            reveal_strlit(">\n");
            reveal_strlit("  ");
            assert(self.writer@ =~= old(self).writer@ + old(self).padding@ + kind.open_tag());
            assert(self.padding@ =~= old(self).padding@ + indent());
        }
    }

    /// Takes two characters off the indentation and writes the line that
    /// closes a part.
    fn close(&mut self, kind: NonTerminals)
        ensures
            final(self).compilation_engine == old(self).compilation_engine,
            final(self).padding@ == if old(self).padding@.len() >= 2 {
                old(self).padding@.take(old(self).padding@.len() - 2)
            } else {
                Seq::<char>::empty()
            },
            final(self).writer@ == old(self).writer@ + final(self).padding@ + kind.close_tag(),
    {
        let n = self.padding.as_str().unicode_len();
        let m = if n >= 2 {
            n - 2
        } else {
            0
        };
        let shorter = String::from_str(self.padding.as_str().substring_char(0, m));
        self.padding = shorter;
        self.writer.append(self.padding.as_str());
        self.writer.append("</");
        self.writer.append(kind.as_str());
        self.writer.append(">\n");
        proof {
            reveal_strlit("</");
            reveal_strlit(">\n");
            assert(self.padding@ =~= if old(self).padding@.len() >= 2 {
                old(self).padding@.take(old(self).padding@.len() - 2)
            } else {
                Seq::<char>::empty()
            });
            assert(self.writer@ =~= old(self).writer@ + self.padding@ + kind.close_tag());
        }
    }

    /// Starts a part inside the part under way.
    fn enter(&mut self, kind: NonTerminals, Ghost(base): Ghost<Seq<char>>, Ghost(q): Ghost<Parsed>)
        requires
            old(self).at(base, old(self).padding@, q),
        ensures
            final(self).compilation_engine == old(self).compilation_engine,
            final(self).padding@ == old(self).padding@ + indent(),
            final(self).writer@ == old(self).writer@ + old(self).padding@ + kind.open_tag(),
            final(self).at(final(self).writer@, final(self).padding@, inner(q)),
    {
        self.open(kind);
        assert(self.writer@ + render_all(Seq::<Tree>::empty(), self.padding@) =~= self.writer@);
    }

    /// Ends the part that `enter` has started from `before`.
    fn leave(
        &mut self,
        kind: NonTerminals,
        Ghost(before): Ghost<Self>,
        Ghost(base): Ghost<Seq<char>>,
        Ghost(q): Ghost<Parsed>,
        Ghost(body): Ghost<Parsed>,
    )
        requires
            before.at(base, before.padding@, q),
            body is Ok,
            old(self).at(
                before.writer@ + before.padding@ + kind.open_tag(),
                before.padding@ + indent(),
                body,
            ),
            old(self).input().tokens.len() <= before.input().tokens.len(),
        ensures
            final(self).at(base, before.padding@, wrap(q, kind, body)),
            final(self).input() == old(self).input(),
    {
        self.close(kind);
        proof {
            let pad = before.padding@;
            assert((pad + indent()).take((pad + indent()).len() - 2) =~= pad);
            let trees = q->Ok_0.0;
            let children = body->Ok_0.0;
            lemma_render_push(trees, Tree::Node(kind, children), pad);
            assert(self.writer@ =~= base + render_all(trees.push(Tree::Node(kind, children)), pad));
        }
    }

    /// Reads one token, which has to be what is expected, and writes its
    /// line.
    fn eat(
        &mut self,
        expected: Expected,
        Ghost(base): Ghost<Seq<char>>,
        Ghost(q): Ghost<Parsed>,
    ) -> (r: Result<(), CompileError>)
        requires
            old(self).at(base, old(self).padding@, q),
        ensures
            final(self).stepped(old(self), base, token(q, expected), r),
            r is Ok ==> final(self).input().tokens.len() < old(self).input().tokens.len(),
    {
        let found = self.next_token()?;
        if !expected.allows(&found) {
            return Err(CompileError::Unexpected { expected, found });
        }
        self.leaf(&found);
        proof {
            let trees = q->Ok_0.0;
            let pad = self.padding@;
            lemma_render_push(trees, Tree::Leaf(found@), pad);
            assert(self.writer@ =~= base + render_all(trees.push(Tree::Leaf(found@)), pad));
            assert(token(q, expected) == Ok::<(Seq<Tree>, Input), Problem>(
                (trees.push(Tree::Leaf(found@)), old(self).input().rest()),
            ));
        }
        Ok(())
    }
}

impl<'a> XmlWriter<'a> {
    /// term
    fn parse_term(
        &mut self,
        Ghost(base): Ghost<Seq<char>>,
        Ghost(q): Ghost<Parsed>,
    ) -> (r: Result<(), CompileError>)
        requires
            old(self).at(base, old(self).padding@, q),
        ensures
            final(self).stepped(old(self), base, term(q), r),
        decreases size(q), 2nat,
    {
        let ghost before = *self;
        self.enter(NonTerminals::Term, Ghost(base), Ghost(q));
        let ghost b = self.writer@;
        let ghost first = token(inner(q), Expected::Term);
        let sign = self.next_is_symbol('-') || self.next_is_symbol('~');
        let bracket = self.next_is_symbol('(');
        let name = self.next_is_identifier();
        self.eat(Expected::Term, Ghost(b), Ghost(inner(q)))?;
        let ghost mut body = first;
        if sign {
            self.parse_term(Ghost(b), Ghost(first))?;
            proof {
                body = term(first);
            }
        } else if bracket {
            self.parse_expression(Ghost(b), Ghost(first))?;
            self.eat(Expected::Symbol(')'), Ghost(b), Ghost(expression(first)))?;
            proof {
                body = symbol(expression(first), ')');
            }
        } else if name {
            if self.next_is_symbol('[') {
                self.eat(Expected::Symbol('['), Ghost(b), Ghost(first))?;
                self.parse_expression(Ghost(b), Ghost(symbol(first, '[')))?;
                self.eat(Expected::Symbol(']'), Ghost(b), Ghost(expression(symbol(first, '['))))?;
                proof {
                    body = symbol(expression(symbol(first, '[')), ']');
                }
            } else if self.next_is_symbol('(') || self.next_is_symbol('.') {
                self.parse_call(Ghost(b), Ghost(first))?;
                proof {
                    body = call(first);
                }
            }
        }
        self.leave(NonTerminals::Term, Ghost(before), Ghost(base), Ghost(q), Ghost(body));
        Ok(())
    }

    /// What follows the first name of a call.
    fn parse_call(
        &mut self,
        Ghost(base): Ghost<Seq<char>>,
        Ghost(q): Ghost<Parsed>,
    ) -> (r: Result<(), CompileError>)
        requires
            old(self).at(base, old(self).padding@, q),
        ensures
            final(self).stepped(old(self), base, call(q), r),
            r is Ok ==> final(self).input().tokens.len() < old(self).input().tokens.len(),
        decreases size(q), 5nat,
    {
        let ghost mut cur = q;
        if self.next_is_symbol('.') {
            self.eat(Expected::Symbol('.'), Ghost(base), Ghost(q))?;
            self.eat(Expected::Identifier, Ghost(base), Ghost(symbol(q, '.')))?;
            proof {
                cur = identifier(symbol(q, '.'));
            }
        }
        self.eat(Expected::Symbol('('), Ghost(base), Ghost(cur))?;
        self.parse_expression_list(Ghost(base), Ghost(symbol(cur, '(')))?;
        self.eat(Expected::Symbol(')'), Ghost(base), Ghost(expression_list(symbol(cur, '('))))?;
        Ok(())
    }

    /// expressionList
    fn parse_expression_list(
        &mut self,
        Ghost(base): Ghost<Seq<char>>,
        Ghost(q): Ghost<Parsed>,
    ) -> (r: Result<(), CompileError>)
        requires
            old(self).at(base, old(self).padding@, q),
        ensures
            final(self).stepped(old(self), base, expression_list(q), r),
        decreases size(q), 4nat,
    {
        let ghost before = *self;
        self.enter(NonTerminals::ExpressionList, Ghost(base), Ghost(q));
        let ghost b = self.writer@;
        let ghost pad = self.padding@;
        let ghost mut cur = inner(q);
        if self.next_starts_term() {
            self.parse_expression(Ghost(b), Ghost(inner(q)))?;
            proof {
                cur = within(inner(q), expression(inner(q)));
                assert(cur == expression(inner(q)));
            }
            let ghost start = cur;
            let mut more = true;
            while more
                invariant
                    self.at(b, pad, cur),
                    q is Ok,
                    more_expressions(cur) == more_expressions(start),
                    expression_list(q) == wrap(
                        q,
                        NonTerminals::ExpressionList,
                        more_expressions(start),
                    ),
                    !more ==> !at_symbol(cur, ','),
                    self.input().tokens.len() <= before.input().tokens.len(),
                    self.input().failure == before.input().failure,
                    size(q) == before.input().tokens.len() + 1,
                decreases size(cur) + if more { 1nat } else { 0nat },
            {
                if self.next_is_symbol(',') {
                    self.eat(Expected::Symbol(','), Ghost(b), Ghost(cur))?;
                    proof {
                        lemma_more_expressions(cur);
                    }
                    self.parse_expression(Ghost(b), Ghost(symbol(cur, ',')))?;
                    proof {
                        let next = within(symbol(cur, ','), expression(symbol(cur, ',')));
                        assert(next == expression(symbol(cur, ',')));
                        cur = next;
                    }
                } else {
                    more = false;
                }
            }
            proof {
                assert(more_expressions(cur) == cur);
            }
        }
        self.leave(NonTerminals::ExpressionList, Ghost(before), Ghost(base), Ghost(q), Ghost(cur));
        Ok(())
    }

    /// expression
    fn parse_expression(
        &mut self,
        Ghost(base): Ghost<Seq<char>>,
        Ghost(q): Ghost<Parsed>,
    ) -> (r: Result<(), CompileError>)
        requires
            old(self).at(base, old(self).padding@, q),
        ensures
            final(self).stepped(old(self), base, expression(q), r),
        decreases size(q), 3nat,
    {
        let ghost before = *self;
        self.enter(NonTerminals::Expression, Ghost(base), Ghost(q));
        let ghost b = self.writer@;
        let ghost pad = self.padding@;
        self.parse_term(Ghost(b), Ghost(inner(q)))?;
        let ghost start = within(inner(q), term(inner(q)));
        let ghost mut cur = start;
        assert(cur == term(inner(q)));
        let mut more = true;
        while more
            invariant
                self.at(b, pad, cur),
                q is Ok,
                more_terms(cur) == more_terms(start),
                expression(q) == wrap(q, NonTerminals::Expression, more_terms(start)),
                !more ==> !(upcoming(cur) matches Some(lexeme) && is_operator(lexeme)),
                self.input().tokens.len() <= before.input().tokens.len(),
                self.input().failure == before.input().failure,
                size(q) == before.input().tokens.len() + 1,
            decreases size(cur) + if more { 1nat } else { 0nat },
        {
            if self.next_is_operator() {
                self.eat(Expected::Token, Ghost(b), Ghost(cur))?;
                let ghost operator = token(cur, Expected::Token);
                proof {
                    lemma_more_terms(cur);
                }
                self.parse_term(Ghost(b), Ghost(operator))?;
                proof {
                    let next = within(operator, term(operator));
                    assert(next == term(operator));
                    cur = next;
                }
            } else {
                more = false;
            }
        }
        proof {
            assert(more_terms(cur) == cur);
        }
        self.leave(NonTerminals::Expression, Ghost(before), Ghost(base), Ghost(q), Ghost(cur));
        Ok(())
    }
}

impl<'a> XmlWriter<'a> {
    /// letStatement
    fn parse_let(
        &mut self,
        Ghost(base): Ghost<Seq<char>>,
        Ghost(q): Ghost<Parsed>,
    ) -> (r: Result<(), CompileError>)
        requires
            old(self).at(base, old(self).padding@, q),
        ensures
            final(self).stepped(old(self), base, let_statement(q), r),
            r is Ok ==> final(self).input().tokens.len() < old(self).input().tokens.len(),
    {
        let ghost before = *self;
        self.enter(NonTerminals::LetStatement, Ghost(base), Ghost(q));
        let ghost b = self.writer@;
        self.eat(Expected::Keyword(Keyword::Let), Ghost(b), Ghost(inner(q)))?;
        self.eat(Expected::Identifier, Ghost(b), Ghost(keyword(inner(q), Keyword::Let)))?;
        let ghost name = identifier(keyword(inner(q), Keyword::Let));
        let ghost mut target = name;
        if self.next_is_symbol('[') {
            self.eat(Expected::Symbol('['), Ghost(b), Ghost(name))?;
            self.parse_expression(Ghost(b), Ghost(symbol(name, '[')))?;
            self.eat(Expected::Symbol(']'), Ghost(b), Ghost(expression(symbol(name, '['))))?;
            proof {
                target = symbol(expression(symbol(name, '[')), ']');
            }
        }
        self.eat(Expected::Symbol('='), Ghost(b), Ghost(target))?;
        self.parse_expression(Ghost(b), Ghost(symbol(target, '=')))?;
        self.eat(Expected::Symbol(';'), Ghost(b), Ghost(expression(symbol(target, '='))))?;
        self.leave(
            NonTerminals::LetStatement,
            Ghost(before),
            Ghost(base),
            Ghost(q),
            Ghost(symbol(expression(symbol(target, '=')), ';')),
        );
        Ok(())
    }

    /// doStatement
    fn parse_do(
        &mut self,
        Ghost(base): Ghost<Seq<char>>,
        Ghost(q): Ghost<Parsed>,
    ) -> (r: Result<(), CompileError>)
        requires
            old(self).at(base, old(self).padding@, q),
        ensures
            final(self).stepped(old(self), base, do_statement(q), r),
            r is Ok ==> final(self).input().tokens.len() < old(self).input().tokens.len(),
    {
        let ghost before = *self;
        self.enter(NonTerminals::DoStatement, Ghost(base), Ghost(q));
        let ghost b = self.writer@;
        self.eat(Expected::Keyword(Keyword::Do), Ghost(b), Ghost(inner(q)))?;
        self.eat(Expected::Identifier, Ghost(b), Ghost(keyword(inner(q), Keyword::Do)))?;
        let ghost name = identifier(keyword(inner(q), Keyword::Do));
        self.parse_call(Ghost(b), Ghost(name))?;
        self.eat(Expected::Symbol(';'), Ghost(b), Ghost(call(name)))?;
        self.leave(
            NonTerminals::DoStatement,
            Ghost(before),
            Ghost(base),
            Ghost(q),
            Ghost(symbol(call(name), ';')),
        );
        Ok(())
    }

    /// returnStatement
    fn parse_return(
        &mut self,
        Ghost(base): Ghost<Seq<char>>,
        Ghost(q): Ghost<Parsed>,
    ) -> (r: Result<(), CompileError>)
        requires
            old(self).at(base, old(self).padding@, q),
        ensures
            final(self).stepped(old(self), base, return_statement(q), r),
            r is Ok ==> final(self).input().tokens.len() < old(self).input().tokens.len(),
    {
        let ghost before = *self;
        self.enter(NonTerminals::ReturnStatement, Ghost(base), Ghost(q));
        let ghost b = self.writer@;
        self.eat(Expected::Keyword(Keyword::Return), Ghost(b), Ghost(inner(q)))?;
        let ghost start = keyword(inner(q), Keyword::Return);
        let ghost mut value = start;
        if self.next_starts_term() {
            self.parse_expression(Ghost(b), Ghost(start))?;
            proof {
                value = expression(start);
            }
        }
        self.eat(Expected::Symbol(';'), Ghost(b), Ghost(value))?;
        self.leave(
            NonTerminals::ReturnStatement,
            Ghost(before),
            Ghost(base),
            Ghost(q),
            Ghost(symbol(value, ';')),
        );
        Ok(())
    }

    /// `(` expression `)` `{` statements `}`
    fn parse_guarded_block(
        &mut self,
        Ghost(base): Ghost<Seq<char>>,
        Ghost(q): Ghost<Parsed>,
    ) -> (r: Result<(), CompileError>)
        requires
            old(self).at(base, old(self).padding@, q),
        ensures
            final(self).stepped(old(self), base, guarded_block(q), r),
        decreases size(q), 1nat,
    {
        self.eat(Expected::Symbol('('), Ghost(base), Ghost(q))?;
        self.parse_expression(Ghost(base), Ghost(symbol(q, '(')))?;
        let ghost condition = within(symbol(q, '('), expression(symbol(q, '(')));
        assert(condition == expression(symbol(q, '(')));
        self.eat(Expected::Symbol(')'), Ghost(base), Ghost(condition))?;
        self.eat(Expected::Symbol('{'), Ghost(base), Ghost(symbol(condition, ')')))?;
        let ghost block = symbol(symbol(condition, ')'), '{');
        self.parse_statements(Ghost(base), Ghost(block))?;
        self.eat(Expected::Symbol('}'), Ghost(base), Ghost(statements(block)))?;
        Ok(())
    }

    /// ifStatement
    fn parse_if(
        &mut self,
        Ghost(base): Ghost<Seq<char>>,
        Ghost(q): Ghost<Parsed>,
    ) -> (r: Result<(), CompileError>)
        requires
            old(self).at(base, old(self).padding@, q),
        ensures
            final(self).stepped(old(self), base, if_statement(q), r),
            r is Ok ==> final(self).input().tokens.len() < old(self).input().tokens.len(),
        decreases size(q), 2nat,
    {
        let ghost before = *self;
        self.enter(NonTerminals::IfStatement, Ghost(base), Ghost(q));
        let ghost b = self.writer@;
        self.eat(Expected::Keyword(Keyword::If), Ghost(b), Ghost(inner(q)))?;
        let ghost start = keyword(inner(q), Keyword::If);
        self.parse_guarded_block(Ghost(b), Ghost(start))?;
        let ghost then = within(start, guarded_block(start));
        assert(then == guarded_block(start));
        let ghost mut body = then;
        if self.next_is_keyword(Keyword::Else) {
            self.eat(Expected::Keyword(Keyword::Else), Ghost(b), Ghost(then))?;
            self.eat(Expected::Symbol('{'), Ghost(b), Ghost(keyword(then, Keyword::Else)))?;
            let ghost block = symbol(keyword(then, Keyword::Else), '{');
            self.parse_statements(Ghost(b), Ghost(block))?;
            self.eat(Expected::Symbol('}'), Ghost(b), Ghost(statements(block)))?;
            proof {
                body = symbol(statements(block), '}');
            }
        }
        self.leave(NonTerminals::IfStatement, Ghost(before), Ghost(base), Ghost(q), Ghost(body));
        Ok(())
    }

    /// whileStatement
    fn parse_while(
        &mut self,
        Ghost(base): Ghost<Seq<char>>,
        Ghost(q): Ghost<Parsed>,
    ) -> (r: Result<(), CompileError>)
        requires
            old(self).at(base, old(self).padding@, q),
        ensures
            final(self).stepped(old(self), base, while_statement(q), r),
            r is Ok ==> final(self).input().tokens.len() < old(self).input().tokens.len(),
        decreases size(q), 2nat,
    {
        let ghost before = *self;
        self.enter(NonTerminals::WhileStatement, Ghost(base), Ghost(q));
        let ghost b = self.writer@;
        self.eat(Expected::Keyword(Keyword::While), Ghost(b), Ghost(inner(q)))?;
        let ghost start = keyword(inner(q), Keyword::While);
        self.parse_guarded_block(Ghost(b), Ghost(start))?;
        self.leave(
            NonTerminals::WhileStatement,
            Ghost(before),
            Ghost(base),
            Ghost(q),
            Ghost(guarded_block(start)),
        );
        Ok(())
    }

    /// statements
    fn parse_statements(
        &mut self,
        Ghost(base): Ghost<Seq<char>>,
        Ghost(q): Ghost<Parsed>,
    ) -> (r: Result<(), CompileError>)
        requires
            old(self).at(base, old(self).padding@, q),
        ensures
            final(self).stepped(old(self), base, statements(q), r),
        decreases size(q), 4nat,
    {
        let ghost before = *self;
        self.enter(NonTerminals::Statements, Ghost(base), Ghost(q));
        let ghost b = self.writer@;
        let ghost pad = self.padding@;
        let ghost mut cur = inner(q);
        let mut more = true;
        while more
            invariant
                q is Ok,
                self.at(b, pad, cur),
                statement_list(cur) == statement_list(inner(q)),
                !more ==> statement_list(cur) == cur,
                self.input().tokens.len() <= before.input().tokens.len(),
                self.input().failure == before.input().failure,
                size(q) == before.input().tokens.len() + 1,
            decreases size(cur) + if more { 1nat } else { 0nat },
        {
            if self.next_is_keyword(Keyword::Let) {
                proof {
                    lemma_statement(cur, let_statement(cur));
                }
                self.parse_let(Ghost(b), Ghost(cur))?;
                proof {
                    cur = let_statement(cur);
                }
            } else if self.next_is_keyword(Keyword::If) {
                proof {
                    lemma_statement(cur, if_statement(cur));
                }
                self.parse_if(Ghost(b), Ghost(cur))?;
                proof {
                    cur = if_statement(cur);
                }
            } else if self.next_is_keyword(Keyword::While) {
                proof {
                    lemma_statement(cur, while_statement(cur));
                }
                self.parse_while(Ghost(b), Ghost(cur))?;
                proof {
                    cur = while_statement(cur);
                }
            } else if self.next_is_keyword(Keyword::Do) {
                proof {
                    lemma_statement(cur, do_statement(cur));
                }
                self.parse_do(Ghost(b), Ghost(cur))?;
                proof {
                    cur = do_statement(cur);
                }
            } else if self.next_is_keyword(Keyword::Return) {
                proof {
                    lemma_statement(cur, return_statement(cur));
                }
                self.parse_return(Ghost(b), Ghost(cur))?;
                proof {
                    cur = return_statement(cur);
                }
            } else {
                more = false;
            }
        }
        self.leave(NonTerminals::Statements, Ghost(before), Ghost(base), Ghost(q), Ghost(cur));
        Ok(())
    }

    /// (`,` name)*
    fn parse_names(
        &mut self,
        Ghost(base): Ghost<Seq<char>>,
        Ghost(q): Ghost<Parsed>,
    ) -> (r: Result<(), CompileError>)
        requires
            old(self).at(base, old(self).padding@, q),
        ensures
            final(self).stepped(old(self), base, names(q), r),
    {
        let ghost pad = self.padding@;
        let ghost mut cur = q;
        let mut more = true;
        while more
            invariant
                self.at(base, pad, cur),
                names(cur) == names(q),
                !more ==> names(cur) == cur,
                self.input().tokens.len() <= old(self).input().tokens.len(),
                self.input().failure == old(self).input().failure,
            decreases size(cur) + if more { 1nat } else { 0nat },
        {
            if self.next_is_symbol(',') {
                proof {
                    lemma_names(cur);
                }
                self.eat(Expected::Symbol(','), Ghost(base), Ghost(cur))?;
                self.eat(Expected::Identifier, Ghost(base), Ghost(symbol(cur, ',')))?;
                proof {
                    cur = identifier(symbol(cur, ','));
                }
            } else {
                more = false;
            }
        }
        Ok(())
    }

    /// classVarDec
    fn parse_class_var_dec(
        &mut self,
        Ghost(base): Ghost<Seq<char>>,
        Ghost(q): Ghost<Parsed>,
    ) -> (r: Result<(), CompileError>)
        requires
            old(self).at(base, old(self).padding@, q),
        ensures
            final(self).stepped(old(self), base, class_var_dec(q), r),
            r is Ok ==> final(self).input().tokens.len() < old(self).input().tokens.len(),
    {
        let ghost before = *self;
        self.enter(NonTerminals::ClassVarDec, Ghost(base), Ghost(q));
        let ghost b = self.writer@;
        let field = self.next_is_keyword(Keyword::Field);
        let which = if field {
            Keyword::Field
        } else {
            Keyword::Static
        };
        self.eat(Expected::Keyword(which), Ghost(b), Ghost(inner(q)))?;
        let ghost kind = keyword(inner(q), which);
        self.eat(Expected::Type, Ghost(b), Ghost(kind))?;
        self.eat(Expected::Identifier, Ghost(b), Ghost(typed(kind)))?;
        self.parse_names(Ghost(b), Ghost(identifier(typed(kind))))?;
        self.eat(Expected::Symbol(';'), Ghost(b), Ghost(names(identifier(typed(kind)))))?;
        self.leave(
            NonTerminals::ClassVarDec,
            Ghost(before),
            Ghost(base),
            Ghost(q),
            Ghost(symbol(names(identifier(typed(kind))), ';')),
        );
        Ok(())
    }

    /// parameterList
    fn parse_parameter_list(
        &mut self,
        Ghost(base): Ghost<Seq<char>>,
        Ghost(q): Ghost<Parsed>,
    ) -> (r: Result<(), CompileError>)
        requires
            old(self).at(base, old(self).padding@, q),
        ensures
            final(self).stepped(old(self), base, parameter_list(q), r),
    {
        let ghost before = *self;
        self.enter(NonTerminals::ParameterList, Ghost(base), Ghost(q));
        let ghost b = self.writer@;
        let ghost pad = self.padding@;
        let ghost mut cur = inner(q);
        if self.next_is_type() {
            self.eat(Expected::Type, Ghost(b), Ghost(inner(q)))?;
            self.eat(Expected::Identifier, Ghost(b), Ghost(typed(inner(q))))?;
            let ghost start = identifier(typed(inner(q)));
            proof {
                cur = start;
            }
            let mut more = true;
            while more
                invariant
                    q is Ok,
                    self.at(b, pad, cur),
                    more_parameters(cur) == more_parameters(start),
                    parameter_list(q) == wrap(
                        q,
                        NonTerminals::ParameterList,
                        more_parameters(start),
                    ),
                    !more ==> more_parameters(cur) == cur,
                    self.input().tokens.len() <= before.input().tokens.len(),
                    self.input().failure == before.input().failure,
                decreases size(cur) + if more { 1nat } else { 0nat },
            {
                if self.next_is_symbol(',') {
                    proof {
                        lemma_more_parameters(cur);
                    }
                    self.eat(Expected::Symbol(','), Ghost(b), Ghost(cur))?;
                    self.eat(Expected::Type, Ghost(b), Ghost(symbol(cur, ',')))?;
                    self.eat(Expected::Identifier, Ghost(b), Ghost(typed(symbol(cur, ','))))?;
                    proof {
                        cur = identifier(typed(symbol(cur, ',')));
                    }
                } else {
                    more = false;
                }
            }
        }
        self.leave(NonTerminals::ParameterList, Ghost(before), Ghost(base), Ghost(q), Ghost(cur));
        Ok(())
    }

    /// varDec
    fn parse_var_dec(
        &mut self,
        Ghost(base): Ghost<Seq<char>>,
        Ghost(q): Ghost<Parsed>,
    ) -> (r: Result<(), CompileError>)
        requires
            old(self).at(base, old(self).padding@, q),
        ensures
            final(self).stepped(old(self), base, var_dec(q), r),
            r is Ok ==> final(self).input().tokens.len() < old(self).input().tokens.len(),
    {
        let ghost before = *self;
        self.enter(NonTerminals::VarDec, Ghost(base), Ghost(q));
        let ghost b = self.writer@;
        self.eat(Expected::Keyword(Keyword::Var), Ghost(b), Ghost(inner(q)))?;
        let ghost kind = keyword(inner(q), Keyword::Var);
        self.eat(Expected::Type, Ghost(b), Ghost(kind))?;
        self.eat(Expected::Identifier, Ghost(b), Ghost(typed(kind)))?;
        self.parse_names(Ghost(b), Ghost(identifier(typed(kind))))?;
        self.eat(Expected::Symbol(';'), Ghost(b), Ghost(names(identifier(typed(kind)))))?;
        self.leave(
            NonTerminals::VarDec,
            Ghost(before),
            Ghost(base),
            Ghost(q),
            Ghost(symbol(names(identifier(typed(kind))), ';')),
        );
        Ok(())
    }

    /// subroutineBody
    fn parse_subroutine_body(
        &mut self,
        Ghost(base): Ghost<Seq<char>>,
        Ghost(q): Ghost<Parsed>,
    ) -> (r: Result<(), CompileError>)
        requires
            old(self).at(base, old(self).padding@, q),
        ensures
            final(self).stepped(old(self), base, subroutine_body(q), r),
            r is Ok ==> final(self).input().tokens.len() < old(self).input().tokens.len(),
    {
        let ghost before = *self;
        self.enter(NonTerminals::SubroutineBody, Ghost(base), Ghost(q));
        let ghost b = self.writer@;
        let ghost pad = self.padding@;
        self.eat(Expected::Symbol('{'), Ghost(b), Ghost(inner(q)))?;
        let ghost start = symbol(inner(q), '{');
        let ghost mut cur = start;
        let mut more = true;
        while more
            invariant
                q is Ok,
                self.at(b, pad, cur),
                var_decs(cur) == var_decs(start),
                !more ==> var_decs(cur) == cur,
                self.input().tokens.len() < before.input().tokens.len(),
                self.input().failure == before.input().failure,
                start == symbol(inner(q), '{'),
            decreases size(cur) + if more { 1nat } else { 0nat },
        {
            if self.next_is_keyword(Keyword::Var) {
                proof {
                    lemma_var_decs(cur);
                }
                self.parse_var_dec(Ghost(b), Ghost(cur))?;
                proof {
                    cur = var_dec(cur);
                }
            } else {
                more = false;
            }
        }
        self.parse_statements(Ghost(b), Ghost(cur))?;
        self.eat(Expected::Symbol('}'), Ghost(b), Ghost(statements(cur)))?;
        self.leave(
            NonTerminals::SubroutineBody,
            Ghost(before),
            Ghost(base),
            Ghost(q),
            Ghost(symbol(statements(cur), '}')),
        );
        Ok(())
    }

    /// subroutineDec
    fn parse_subroutine_dec(
        &mut self,
        Ghost(base): Ghost<Seq<char>>,
        Ghost(q): Ghost<Parsed>,
    ) -> (r: Result<(), CompileError>)
        requires
            old(self).at(base, old(self).padding@, q),
        ensures
            final(self).stepped(old(self), base, subroutine_dec(q), r),
            r is Ok ==> final(self).input().tokens.len() < old(self).input().tokens.len(),
    {
        let ghost before = *self;
        self.enter(NonTerminals::SubroutineDec, Ghost(base), Ghost(q));
        let ghost b = self.writer@;
        let which = if self.next_is_keyword(Keyword::Constructor) {
            Keyword::Constructor
        } else if self.next_is_keyword(Keyword::Method) {
            Keyword::Method
        } else {
            Keyword::Function
        };
        self.eat(Expected::Keyword(which), Ghost(b), Ghost(inner(q)))?;
        let ghost kind = keyword(inner(q), which);
        self.eat(Expected::ReturnType, Ghost(b), Ghost(kind))?;
        self.eat(Expected::Identifier, Ghost(b), Ghost(token(kind, Expected::ReturnType)))?;
        self.eat(
            Expected::Symbol('('),
            Ghost(b),
            Ghost(identifier(token(kind, Expected::ReturnType))),
        )?;
        let ghost head = symbol(identifier(token(kind, Expected::ReturnType)), '(');
        self.parse_parameter_list(Ghost(b), Ghost(head))?;
        self.eat(Expected::Symbol(')'), Ghost(b), Ghost(parameter_list(head)))?;
        self.parse_subroutine_body(Ghost(b), Ghost(symbol(parameter_list(head), ')')))?;
        self.leave(
            NonTerminals::SubroutineDec,
            Ghost(before),
            Ghost(base),
            Ghost(q),
            Ghost(subroutine_body(symbol(parameter_list(head), ')'))),
        );
        Ok(())
    }

    /// class
    fn parse_class(
        &mut self,
        Ghost(base): Ghost<Seq<char>>,
        Ghost(q): Ghost<Parsed>,
    ) -> (r: Result<(), CompileError>)
        requires
            old(self).at(base, old(self).padding@, q),
        ensures
            final(self).stepped(old(self), base, class(q), r),
    {
        let ghost before = *self;
        self.enter(NonTerminals::Class, Ghost(base), Ghost(q));
        let ghost b = self.writer@;
        let ghost pad = self.padding@;
        self.eat(Expected::Keyword(Keyword::Class), Ghost(b), Ghost(inner(q)))?;
        self.eat(Expected::Identifier, Ghost(b), Ghost(keyword(inner(q), Keyword::Class)))?;
        self.eat(
            Expected::Symbol('{'),
            Ghost(b),
            Ghost(identifier(keyword(inner(q), Keyword::Class))),
        )?;
        let ghost head = symbol(identifier(keyword(inner(q), Keyword::Class)), '{');
        let ghost mut cur = head;
        let mut more = true;
        while more
            invariant
                q is Ok,
                self.at(b, pad, cur),
                class_var_decs(cur) == class_var_decs(head),
                !more ==> class_var_decs(cur) == cur,
                self.input().tokens.len() < before.input().tokens.len(),
                self.input().failure == before.input().failure,
                head == symbol(identifier(keyword(inner(q), Keyword::Class)), '{'),
            decreases size(cur) + if more { 1nat } else { 0nat },
        {
            if self.next_is_keyword(Keyword::Static) || self.next_is_keyword(Keyword::Field) {
                proof {
                    lemma_class_var_decs(cur);
                }
                self.parse_class_var_dec(Ghost(b), Ghost(cur))?;
                proof {
                    cur = class_var_dec(cur);
                }
            } else {
                more = false;
            }
        }
        let ghost fields = cur;
        more = true;
        while more
            invariant
                q is Ok,
                self.at(b, pad, cur),
                subroutine_decs(cur) == subroutine_decs(fields),
                !more ==> subroutine_decs(cur) == cur,
                self.input().tokens.len() < before.input().tokens.len(),
                self.input().failure == before.input().failure,
                head == symbol(identifier(keyword(inner(q), Keyword::Class)), '{'),
                fields == class_var_decs(head),
            decreases size(cur) + if more { 1nat } else { 0nat },
        {
            if self.next_is_keyword(Keyword::Constructor) || self.next_is_keyword(
                Keyword::Function,
            ) || self.next_is_keyword(Keyword::Method) {
                proof {
                    lemma_subroutine_decs(cur);
                }
                self.parse_subroutine_dec(Ghost(b), Ghost(cur))?;
                proof {
                    cur = subroutine_dec(cur);
                }
            } else {
                more = false;
            }
        }
        self.eat(Expected::Symbol('}'), Ghost(b), Ghost(cur))?;
        self.leave(
            NonTerminals::Class,
            Ghost(before),
            Ghost(base),
            Ghost(q),
            Ghost(symbol(cur, '}')),
        );
        Ok(())
    }
}

impl Token {
    /// A copy of the token.
    pub fn copy(&self) -> (r: Token)
        ensures
            r@ == self@,
    {
        match self {
            Token::Keyword(k) => Token::Keyword(*k),
            Token::Symbol(c) => Token::Symbol(*c),
            Token::Identifier(s) => Token::Identifier(s.clone()),
            Token::IntConst(n) => Token::IntConst(*n),
            Token::StringConst(s) => Token::StringConst(s.clone()),
        }
    }
}

/// The steps of the parser, one for each part of the grammar. A step reads
/// the part from the tokens that are left and writes its tree.
pub trait CompilationWriter {
    /// Reads a term.
    fn write_term(&mut self) -> Result<(), CompileError>;

    /// Reads a list of expressions, which may be empty.
    fn write_expression_list(&mut self) -> Result<(), CompileError>;

    /// Reads an expression.
    fn write_expression(&mut self) -> Result<(), CompileError>;

    /// Writes the line that closes a part.
    fn write_closing_tag(&mut self, data: NonTerminals);

    /// Writes the line that opens a part.
    fn write_open_tag(&mut self, data: NonTerminals);

    /// Reads a `return` statement.
    fn write_return_statement(&mut self) -> Result<(), CompileError>;

    /// Reads a `do` statement.
    fn write_do_statement(&mut self) -> Result<(), CompileError>;

    /// Tells by an error that a token is not the expected one.
    fn expect(&self, token: &Token, expected_token: Token) -> Result<(), CompileError>;

    /// Reads a `while` statement.
    fn write_while_statement(&mut self) -> Result<(), CompileError>;

    /// Reads an `if` statement.
    fn write_if_statement(&mut self) -> Result<(), CompileError>;

    /// Reads a class.
    fn write_class(&mut self) -> Result<(), CompileError>;

    /// Writes the line of a token.
    fn write_terminal(&mut self, token: &Token);

    /// Reads one declaration of variables of a class.
    fn write_class_var_declarations(&mut self) -> Result<(), CompileError>;

    /// Reads one declaration of a subroutine.
    fn write_subroutine_declarations(&mut self) -> Result<(), CompileError>;

    /// Reads a list of parameters, which may be empty.
    fn write_parameter_list(&mut self) -> Result<(), CompileError>;

    /// Reads the body of a subroutine.
    fn write_subroutine_body(&mut self) -> Result<(), CompileError>;

    /// Reads one declaration of local variables.
    fn write_var_declaration(&mut self) -> Result<(), CompileError>;

    /// Reads statements up to the first token that starts none.
    fn write_statements(&mut self) -> Result<(), CompileError>;

    /// Reads a `let` statement.
    fn write_let_statement(&mut self) -> Result<(), CompileError>;
}

impl<'a> XmlWriter<'a> {
    /// A writer is under way with nothing parsed, after the text that it
    /// holds.
    proof fn lemma_start(&self)
        ensures
            self.at(self.writer@, self.padding@, begin(self.input())),
    {
        assert(self.writer@ + render_all(Seq::<Tree>::empty(), self.padding@) =~= self.writer@);
    }
}

impl<'a> CompilationWriter for XmlWriter<'a> {
    fn write_term(&mut self) -> (r: Result<(), CompileError>)
        ensures
            final(self).wrote(old(self), term(begin(old(self).input())), r),
    {
        proof {
            self.lemma_start();
        }
        self.parse_term(Ghost(self.writer@), Ghost(begin(self.input())))
    }

    fn write_expression_list(&mut self) -> (r: Result<(), CompileError>)
        ensures
            final(self).wrote(old(self), expression_list(begin(old(self).input())), r),
    {
        proof {
            self.lemma_start();
        }
        self.parse_expression_list(Ghost(self.writer@), Ghost(begin(self.input())))
    }

    fn write_expression(&mut self) -> (r: Result<(), CompileError>)
        ensures
            final(self).wrote(old(self), expression(begin(old(self).input())), r),
    {
        proof {
            self.lemma_start();
        }
        self.parse_expression(Ghost(self.writer@), Ghost(begin(self.input())))
    }

    /// Takes two characters off the indentation and writes the line that
    /// closes a part.
    fn write_closing_tag(&mut self, data: NonTerminals)
        ensures
            final(self).compilation_engine == old(self).compilation_engine,
            final(self).padding@ == if old(self).padding@.len() >= 2 {
                old(self).padding@.take(old(self).padding@.len() - 2)
            } else {
                Seq::<char>::empty()
            },
            final(self).writer@ == old(self).writer@ + final(self).padding@ + data.close_tag(),
    {
        self.close(data)
    }

    /// Writes the line that opens a part; what follows is indented by two
    /// spaces more.
    fn write_open_tag(&mut self, data: NonTerminals)
        ensures
            final(self).compilation_engine == old(self).compilation_engine,
            final(self).padding@ == old(self).padding@ + indent(),
            final(self).writer@ == old(self).writer@ + old(self).padding@ + data.open_tag(),
    {
        self.open(data)
    }

    fn write_return_statement(&mut self) -> (r: Result<(), CompileError>)
        ensures
            final(self).wrote(old(self), return_statement(begin(old(self).input())), r),
    {
        proof {
            self.lemma_start();
        }
        self.parse_return(Ghost(self.writer@), Ghost(begin(self.input())))
    }

    fn write_do_statement(&mut self) -> (r: Result<(), CompileError>)
        ensures
            final(self).wrote(old(self), do_statement(begin(old(self).input())), r),
    {
        proof {
            self.lemma_start();
        }
        self.parse_do(Ghost(self.writer@), Ghost(begin(self.input())))
    }

    /// Tells by an error that `token` is not the same as `expected_token`.
    fn expect(&self, token: &Token, expected_token: Token) -> (r: Result<(), CompileError>)
        ensures
            token@ == expected_token@ ==> r is Ok,
            token@ != expected_token@ ==> (r matches Err(e) && e@ == (Problem::Unexpected {
                expected: Expected::like(expected_token@),
                found: token@,
            })),
    {
        if token.same(&expected_token) {
            Ok(())
        } else {
            Err(
                CompileError::Unexpected {
                    expected: Expected::of(&expected_token),
                    found: token.copy(),
                },
            )
        }
    }

    fn write_while_statement(&mut self) -> (r: Result<(), CompileError>)
        ensures
            final(self).wrote(old(self), while_statement(begin(old(self).input())), r),
    {
        proof {
            self.lemma_start();
        }
        self.parse_while(Ghost(self.writer@), Ghost(begin(self.input())))
    }

    fn write_if_statement(&mut self) -> (r: Result<(), CompileError>)
        ensures
            final(self).wrote(old(self), if_statement(begin(old(self).input())), r),
    {
        proof {
            self.lemma_start();
        }
        self.parse_if(Ghost(self.writer@), Ghost(begin(self.input())))
    }

    fn write_class(&mut self) -> (r: Result<(), CompileError>)
        ensures
            final(self).wrote(old(self), class(begin(old(self).input())), r),
    {
        proof {
            self.lemma_start();
        }
        self.parse_class(Ghost(self.writer@), Ghost(begin(self.input())))
    }

    /// Writes the line of a token.
    fn write_terminal(&mut self, token: &Token)
        ensures
            final(self).compilation_engine == old(self).compilation_engine,
            final(self).padding == old(self).padding,
            final(self).writer@ == old(self).writer@ + Tree::Leaf(token@).xml(old(self).padding@),
    {
        self.leaf(token)
    }

    fn write_class_var_declarations(&mut self) -> (r: Result<(), CompileError>)
        ensures
            final(self).wrote(old(self), class_var_dec(begin(old(self).input())), r),
    {
        proof {
            self.lemma_start();
        }
        self.parse_class_var_dec(Ghost(self.writer@), Ghost(begin(self.input())))
    }

    fn write_subroutine_declarations(&mut self) -> (r: Result<(), CompileError>)
        ensures
            final(self).wrote(old(self), subroutine_dec(begin(old(self).input())), r),
    {
        proof {
            self.lemma_start();
        }
        self.parse_subroutine_dec(Ghost(self.writer@), Ghost(begin(self.input())))
    }

    fn write_parameter_list(&mut self) -> (r: Result<(), CompileError>)
        ensures
            final(self).wrote(old(self), parameter_list(begin(old(self).input())), r),
    {
        proof {
            self.lemma_start();
        }
        self.parse_parameter_list(Ghost(self.writer@), Ghost(begin(self.input())))
    }

    fn write_subroutine_body(&mut self) -> (r: Result<(), CompileError>)
        ensures
            final(self).wrote(old(self), subroutine_body(begin(old(self).input())), r),
    {
        proof {
            self.lemma_start();
        }
        self.parse_subroutine_body(Ghost(self.writer@), Ghost(begin(self.input())))
    }

    fn write_var_declaration(&mut self) -> (r: Result<(), CompileError>)
        ensures
            final(self).wrote(old(self), var_dec(begin(old(self).input())), r),
    {
        proof {
            self.lemma_start();
        }
        self.parse_var_dec(Ghost(self.writer@), Ghost(begin(self.input())))
    }

    fn write_statements(&mut self) -> (r: Result<(), CompileError>)
        ensures
            final(self).wrote(old(self), statements(begin(old(self).input())), r),
    {
        proof {
            self.lemma_start();
        }
        self.parse_statements(Ghost(self.writer@), Ghost(begin(self.input())))
    }

    fn write_let_statement(&mut self) -> (r: Result<(), CompileError>)
        ensures
            final(self).wrote(old(self), let_statement(begin(old(self).input())), r),
    {
        proof {
            self.lemma_start();
        }
        self.parse_let(Ghost(self.writer@), Ghost(begin(self.input())))
    }
}

} // verus!
