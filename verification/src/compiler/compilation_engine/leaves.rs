//! The leaves of a tree are the tokens that were read.
//!
//! Every function of the grammar reads tokens from the front of the input
//! and puts each of them into the trees as a leaf, in their order. So the
//! leaves of the tree of a class are the tokens of the class, and the
//! bounds that the functions of the grammar put on what a piece leaves
//! never change what it leaves.

use crate::compiler::compilation_engine::grammar::{
    after, at_keyword, at_subroutine, at_symbol, at_term, begin, call, class, class_var_dec,
    class_var_decs, do_statement, expression, expression_list, guarded_block, identifier,
    if_statement, inner, is_operator, is_type, keyword, let_statement, more_expressions,
    more_parameters, more_terms, names, parameter_list, parse, return_statement, size,
    statement_list, statements, subroutine_body, subroutine_dec, subroutine_decs, symbol, term,
    token, typed, upcoming, var_dec, var_decs, while_statement, within, wrap, Expected, Input,
    Parsed, Tree,
};
use crate::compiler::compilation_engine::NonTerminals;
use crate::compiler::tokenizer::{Keyword, Lexeme};
use vstd::prelude::*;

verus! {

impl Tree {
    /// The tokens of a tree, in their order.
    pub open spec fn leaves(self) -> Seq<Lexeme>
        decreases self,
    {
        match self {
            Tree::Leaf(lexeme) => seq![lexeme],
            Tree::Node(_, children) => leaves(children),
        }
    }
}

/// The tokens of trees in a row.
pub open spec fn leaves(trees: Seq<Tree>) -> Seq<Lexeme>
    decreases trees,
{
    if trees.len() == 0 {
        Seq::empty()
    } else {
        leaves(trees.drop_last()) + trees.last().leaves()
    }
}

/// Tells whether `q` comes from `p` by reading: the tokens that `q` has
/// left are left of those of `p`, and the tokens that went are the leaves
/// that the trees of `q` have more than those of `p`. A problem comes from
/// anything, and only a problem from a problem.
pub open spec fn reads(p: Parsed, q: Parsed) -> bool {
    match q {
        Err(_) => true,
        Ok((trees, rest)) => match p {
            Err(_) => false,
            Ok((before, input)) => {
                let n = input.tokens.len() - rest.tokens.len();
                &&& n >= 0
                &&& rest.tokens == input.tokens.skip(n)
                &&& rest.failure == input.failure
                &&& leaves(trees) == leaves(before) + input.tokens.take(n)
            },
        },
    }
}

/// Tells whether `q` comes from `p` by reading at least one token.
pub open spec fn reads_some(p: Parsed, q: Parsed) -> bool {
    reads(p, q) && (q is Ok ==> size(q) < size(p))
}

/// The bound on what a piece leaves changes nothing where the piece comes
/// by reading.
pub proof fn lemma_within(p: Parsed, q: Parsed)
    requires
        p is Ok,
        reads(p, q),
    ensures
        within(p, q) == q,
{
}

/// The bound on what a piece of a list leaves changes nothing where the
/// piece comes by reading at least one token.
pub proof fn lemma_after(p: Parsed, q: Parsed)
    requires
        reads_some(p, q),
    ensures
        after(p, q) == q,
{
}

proof fn lemma_leaves_push(trees: Seq<Tree>, tree: Tree)
    ensures
        leaves(trees.push(tree)) == leaves(trees) + tree.leaves(),
{
    assert(trees.push(tree).drop_last() =~= trees);
}

proof fn lemma_same(p: Parsed)
    ensures
        reads(p, p),
{
    if let Ok((trees, input)) = p {
        assert(input.tokens.skip(0) =~= input.tokens);
        assert(leaves(trees) + input.tokens.take(0) =~= leaves(trees));
    }
}

proof fn lemma_chain(p: Parsed, q: Parsed, r: Parsed)
    requires
        reads(p, q),
        reads(q, r),
    ensures
        reads(p, r),
        reads_some(p, q) || reads_some(q, r) ==> reads_some(p, r),
{
    if r is Ok {
        let (t0, i0) = p->Ok_0;
        let (t1, i1) = q->Ok_0;
        let (t2, i2) = r->Ok_0;
        let n = i0.tokens.len() - i1.tokens.len();
        let m = i1.tokens.len() - i2.tokens.len();
        assert(i2.tokens =~= i0.tokens.skip(n + m));
        assert(i0.tokens.take(n + m) =~= i0.tokens.take(n) + i1.tokens.take(m));
        assert(leaves(t2) =~= leaves(t0) + i0.tokens.take(n + m));
    }
}

proof fn lemma_token(p0: Parsed, p: Parsed, expected: Expected)
    requires
        reads(p0, p),
    ensures
        reads_some(p0, token(p, expected)),
        reads_some(p, token(p, expected)),
{
    let q = token(p, expected);
    if q is Ok {
        let (trees, input) = p->Ok_0;
        let lexeme = input.tokens[0];
        lemma_leaves_push(trees, Tree::Leaf(lexeme));
        assert(input.tokens.take(1) =~= seq![lexeme]);
        assert(input.tokens.drop_first() =~= input.tokens.skip(1));
    }
    lemma_chain(p0, p, q);
}

proof fn lemma_wrap(p0: Parsed, p: Parsed, kind: NonTerminals, body: Parsed)
    requires
        reads(p0, p),
        reads(inner(p), body),
    ensures
        reads(p0, wrap(p, kind, body)),
        reads(p, wrap(p, kind, body)),
        wrap(p, kind, body) is Ok ==> size(wrap(p, kind, body)) == size(body),
        wrap(p, kind, body) is Ok ==> wrap(p, kind, body)->Ok_0.1 == body->Ok_0.1,
{
    let q = wrap(p, kind, body);
    if q is Ok {
        let (trees, input) = p->Ok_0;
        let (children, rest) = body->Ok_0;
        lemma_leaves_push(trees, Tree::Node(kind, children));
        assert(leaves(Seq::<Tree>::empty()) + input.tokens.take(
            input.tokens.len() - rest.tokens.len(),
        ) =~= input.tokens.take(input.tokens.len() - rest.tokens.len()));
    }
    lemma_chain(p0, p, q);
}

proof fn lemma_inner(p: Parsed)
    ensures
        reads(inner(p), inner(p)),
{
    lemma_same(inner(p));
}

/// A term is read.
pub proof fn lemma_term(p: Parsed)
    ensures
        reads_some(p, term(p)) || term(p) is Err,
        reads(p, term(p)),
    decreases size(p), 2nat,
{
    lemma_same(p);
    if p is Ok {
        let start = inner(p);
        lemma_inner(p);
        let first = token(start, Expected::Term);
        lemma_token(start, start, Expected::Term);
        let body = if at_symbol(start, '-') || at_symbol(start, '~') {
            lemma_term(first);
            lemma_chain(start, first, term(first));
            term(first)
        } else if at_symbol(start, '(') {
            lemma_expression(first);
            lemma_chain(start, first, expression(first));
            lemma_token(start, expression(first), Expected::Symbol(')'));
            symbol(expression(first), ')')
        } else if upcoming(start) matches Some(Lexeme::Identifier(_)) {
            if at_symbol(first, '[') {
                lemma_token(start, first, Expected::Symbol('['));
                lemma_expression(symbol(first, '['));
                lemma_chain(start, symbol(first, '['), expression(symbol(first, '[')));
                lemma_token(start, expression(symbol(first, '[')), Expected::Symbol(']'));
                symbol(expression(symbol(first, '[')), ']')
            } else if at_symbol(first, '(') || at_symbol(first, '.') {
                lemma_call(first);
                lemma_chain(start, first, call(first));
                call(first)
            } else {
                first
            }
        } else {
            first
        };
        lemma_wrap(p, p, NonTerminals::Term, body);
        }
}

/// What follows the first name of a call is read.
pub proof fn lemma_call(p: Parsed)
    ensures
        reads_some(p, call(p)),
    decreases size(p), 5nat,
{
    lemma_same(p);
    if p is Ok {
        let q = if at_symbol(p, '.') {
            lemma_token(p, p, Expected::Symbol('.'));
            lemma_token(p, symbol(p, '.'), Expected::Identifier);
            identifier(symbol(p, '.'))
        } else {
            p
        };
        lemma_token(p, q, Expected::Symbol('('));
        lemma_expression_list(symbol(q, '('));
        lemma_chain(p, symbol(q, '('), expression_list(symbol(q, '(')));
        lemma_token(p, expression_list(symbol(q, '(')), Expected::Symbol(')'));
    }
}

/// A list of expressions is read.
pub proof fn lemma_expression_list(p: Parsed)
    ensures
        reads(p, expression_list(p)),
    decreases size(p), 4nat,
{
    lemma_same(p);
    if p is Ok {
        let start = inner(p);
        lemma_inner(p);
        let body = if at_term(start) {
            lemma_expression(start);
            let first = within(start, expression(start));
            assert(first == expression(start));
            lemma_more_expressions(first);
            lemma_chain(start, first, more_expressions(first));
            more_expressions(first)
        } else {
            start
        };
        lemma_wrap(p, p, NonTerminals::ExpressionList, body);
    }
}

/// The expressions after the first of a list are read.
pub proof fn lemma_more_expressions(p: Parsed)
    ensures
        reads(p, more_expressions(p)),
    decreases size(p), 0nat,
{
    lemma_same(p);
    if p is Ok && at_symbol(p, ',') {
        let comma = symbol(p, ',');
        lemma_token(p, p, Expected::Symbol(','));
        lemma_expression(comma);
        let next = within(comma, expression(comma));
        assert(next == expression(comma));
        lemma_chain(p, comma, next);
        lemma_more_expressions(next);
        lemma_chain(p, next, more_expressions(next));
    }
}

/// An expression is read.
pub proof fn lemma_expression(p: Parsed)
    ensures
        reads_some(p, expression(p)) || expression(p) is Err,
        reads(p, expression(p)),
    decreases size(p), 3nat,
{
    lemma_same(p);
    if p is Ok {
        let start = inner(p);
        lemma_inner(p);
        lemma_term(start);
        let first = within(start, term(start));
        assert(first == term(start));
        lemma_more_terms(first);
        lemma_chain(start, first, more_terms(first));
        lemma_wrap(p, p, NonTerminals::Expression, more_terms(first));
    }
}

/// The terms after the first of an expression are read.
pub proof fn lemma_more_terms(p: Parsed)
    ensures
        reads(p, more_terms(p)),
    decreases size(p), 1nat,
{
    lemma_same(p);
    if p is Ok && (upcoming(p) matches Some(lexeme) && is_operator(lexeme)) {
        let operator = token(p, Expected::Token);
        lemma_token(p, p, Expected::Token);
        lemma_term(operator);
        let next = within(operator, term(operator));
        assert(next == term(operator));
        lemma_chain(p, operator, next);
        lemma_more_terms(next);
        lemma_chain(p, next, more_terms(next));
    }
}

/// A `let` statement is read.
pub proof fn lemma_let_statement(p: Parsed)
    ensures
        reads_some(p, let_statement(p)) || let_statement(p) is Err,
        reads(p, let_statement(p)),
{
    lemma_same(p);
    let start = inner(p);
    lemma_inner(p);
    lemma_token(start, start, Expected::Keyword(Keyword::Let));
    lemma_token(start, keyword(start, Keyword::Let), Expected::Identifier);
    let name = identifier(keyword(start, Keyword::Let));
    let target = if at_symbol(name, '[') {
        lemma_token(start, name, Expected::Symbol('['));
        lemma_expression(symbol(name, '['));
        lemma_chain(start, symbol(name, '['), expression(symbol(name, '[')));
        lemma_token(start, expression(symbol(name, '[')), Expected::Symbol(']'));
        symbol(expression(symbol(name, '[')), ']')
    } else {
        name
    };
    lemma_token(start, target, Expected::Symbol('='));
    lemma_expression(symbol(target, '='));
    lemma_chain(start, symbol(target, '='), expression(symbol(target, '=')));
    lemma_token(start, expression(symbol(target, '=')), Expected::Symbol(';'));
    lemma_wrap(p, p, NonTerminals::LetStatement, symbol(expression(symbol(target, '=')), ';'));
}

/// A `do` statement is read.
pub proof fn lemma_do_statement(p: Parsed)
    ensures
        reads_some(p, do_statement(p)) || do_statement(p) is Err,
        reads(p, do_statement(p)),
{
    lemma_same(p);
    let start = inner(p);
    lemma_inner(p);
    lemma_token(start, start, Expected::Keyword(Keyword::Do));
    lemma_token(start, keyword(start, Keyword::Do), Expected::Identifier);
    let name = identifier(keyword(start, Keyword::Do));
    lemma_call(name);
    lemma_chain(start, name, call(name));
    lemma_token(start, call(name), Expected::Symbol(';'));
    lemma_wrap(p, p, NonTerminals::DoStatement, symbol(call(name), ';'));
}

/// A `return` statement is read.
pub proof fn lemma_return_statement(p: Parsed)
    ensures
        reads_some(p, return_statement(p)) || return_statement(p) is Err,
        reads(p, return_statement(p)),
{
    lemma_same(p);
    let start = inner(p);
    lemma_inner(p);
    lemma_token(start, start, Expected::Keyword(Keyword::Return));
    let word = keyword(start, Keyword::Return);
    let value = if at_term(word) {
        lemma_expression(word);
        lemma_chain(start, word, expression(word));
        expression(word)
    } else {
        word
    };
    lemma_token(start, value, Expected::Symbol(';'));
    lemma_wrap(p, p, NonTerminals::ReturnStatement, symbol(value, ';'));
}

/// A condition and the statements that it guards are read.
pub proof fn lemma_guarded_block(p: Parsed)
    ensures
        reads_some(p, guarded_block(p)),
    decreases size(p), 1nat,
{
    lemma_same(p);
    if p is Ok {
        lemma_token(p, p, Expected::Symbol('('));
        lemma_expression(symbol(p, '('));
        let condition = within(symbol(p, '('), expression(symbol(p, '(')));
        assert(condition == expression(symbol(p, '(')));
        lemma_chain(p, symbol(p, '('), condition);
        lemma_token(p, condition, Expected::Symbol(')'));
        lemma_token(p, symbol(condition, ')'), Expected::Symbol('{'));
        let block = symbol(symbol(condition, ')'), '{');
        lemma_statements(block);
        lemma_chain(p, block, statements(block));
        lemma_token(p, statements(block), Expected::Symbol('}'));
    }
}

/// An `if` statement is read.
pub proof fn lemma_if_statement(p: Parsed)
    ensures
        reads_some(p, if_statement(p)) || if_statement(p) is Err,
        reads(p, if_statement(p)),
    decreases size(p), 2nat,
{
    lemma_same(p);
    if p is Ok {
        let start = inner(p);
        lemma_inner(p);
        let word = keyword(start, Keyword::If);
        lemma_token(start, start, Expected::Keyword(Keyword::If));
        lemma_guarded_block(word);
        let then = within(word, guarded_block(word));
        assert(then == guarded_block(word));
        lemma_chain(start, word, then);
        let body = if at_keyword(then, Keyword::Else) {
            lemma_token(start, then, Expected::Keyword(Keyword::Else));
            lemma_token(start, keyword(then, Keyword::Else), Expected::Symbol('{'));
            let block = symbol(keyword(then, Keyword::Else), '{');
            lemma_statements(block);
            lemma_chain(start, block, statements(block));
            lemma_token(start, statements(block), Expected::Symbol('}'));
            symbol(statements(block), '}')
        } else {
            then
        };
        lemma_wrap(p, p, NonTerminals::IfStatement, body);
    }
}

/// A `while` statement is read.
pub proof fn lemma_while_statement(p: Parsed)
    ensures
        reads_some(p, while_statement(p)) || while_statement(p) is Err,
        reads(p, while_statement(p)),
    decreases size(p), 2nat,
{
    lemma_same(p);
    if p is Ok {
        let start = inner(p);
        lemma_inner(p);
        let word = keyword(start, Keyword::While);
        lemma_token(start, start, Expected::Keyword(Keyword::While));
        lemma_guarded_block(word);
        lemma_chain(start, word, guarded_block(word));
        lemma_wrap(p, p, NonTerminals::WhileStatement, guarded_block(word));
    }
}

/// Statements are read.
pub proof fn lemma_statements(p: Parsed)
    ensures
        reads(p, statements(p)),
    decreases size(p), 4nat,
{
    lemma_same(p);
    if p is Ok {
        lemma_inner(p);
        lemma_statement_list(inner(p));
        lemma_wrap(p, p, NonTerminals::Statements, statement_list(inner(p)));
    }
}

/// Statements in a row are read.
pub proof fn lemma_statement_list(p: Parsed)
    ensures
        reads(p, statement_list(p)),
    decreases size(p), 3nat,
{
    lemma_same(p);
    if p is Ok {
        if at_keyword(p, Keyword::Let) {
            lemma_let_statement(p);
            let next = after(p, let_statement(p));
            assert(next == let_statement(p));
            lemma_statement_list(next);
            lemma_chain(p, next, statement_list(next));
        } else if at_keyword(p, Keyword::If) {
            lemma_if_statement(p);
            let next = after(p, if_statement(p));
            assert(next == if_statement(p));
            lemma_statement_list(next);
            lemma_chain(p, next, statement_list(next));
        } else if at_keyword(p, Keyword::While) {
            lemma_while_statement(p);
            let next = after(p, while_statement(p));
            assert(next == while_statement(p));
            lemma_statement_list(next);
            lemma_chain(p, next, statement_list(next));
        } else if at_keyword(p, Keyword::Do) {
            lemma_do_statement(p);
            let next = after(p, do_statement(p));
            assert(next == do_statement(p));
            lemma_statement_list(next);
            lemma_chain(p, next, statement_list(next));
        } else if at_keyword(p, Keyword::Return) {
            lemma_return_statement(p);
            let next = after(p, return_statement(p));
            assert(next == return_statement(p));
            lemma_statement_list(next);
            lemma_chain(p, next, statement_list(next));
        }
    }
}

/// More names are read.
pub proof fn lemma_names_read(p: Parsed)
    ensures
        reads(p, names(p)),
    decreases size(p),
{
    lemma_same(p);
    if p is Ok && at_symbol(p, ',') {
        lemma_token(p, p, Expected::Symbol(','));
        lemma_token(p, symbol(p, ','), Expected::Identifier);
        let next = identifier(symbol(p, ','));
        lemma_names_read(next);
        lemma_chain(p, next, names(next));
    }
}

/// A declaration of variables of a class is read.
pub proof fn lemma_class_var_dec(p: Parsed)
    ensures
        reads_some(p, class_var_dec(p)) || class_var_dec(p) is Err,
        reads(p, class_var_dec(p)),
{
    lemma_same(p);
    let start = inner(p);
    lemma_inner(p);
    let kind = if at_keyword(start, Keyword::Field) {
        lemma_token(start, start, Expected::Keyword(Keyword::Field));
        keyword(start, Keyword::Field)
    } else {
        lemma_token(start, start, Expected::Keyword(Keyword::Static));
        keyword(start, Keyword::Static)
    };
    lemma_token(start, kind, Expected::Type);
    lemma_token(start, typed(kind), Expected::Identifier);
    let first = identifier(typed(kind));
    lemma_names_read(first);
    lemma_chain(start, first, names(first));
    lemma_token(start, names(first), Expected::Symbol(';'));
    lemma_wrap(p, p, NonTerminals::ClassVarDec, symbol(names(first), ';'));
}

/// Declarations of variables of a class in a row are read.
pub proof fn lemma_class_var_decs(p: Parsed)
    ensures
        reads(p, class_var_decs(p)),
    decreases size(p),
{
    lemma_same(p);
    if p is Ok && (at_keyword(p, Keyword::Static) || at_keyword(p, Keyword::Field)) {
        lemma_class_var_dec(p);
        let next = after(p, class_var_dec(p));
        assert(next == class_var_dec(p));
        lemma_class_var_decs(next);
        lemma_chain(p, next, class_var_decs(next));
    }
}

/// More parameters are read.
pub proof fn lemma_more_parameters(p: Parsed)
    ensures
        reads(p, more_parameters(p)),
    decreases size(p),
{
    lemma_same(p);
    if p is Ok && at_symbol(p, ',') {
        lemma_token(p, p, Expected::Symbol(','));
        lemma_token(p, symbol(p, ','), Expected::Type);
        lemma_token(p, typed(symbol(p, ',')), Expected::Identifier);
        let next = identifier(typed(symbol(p, ',')));
        lemma_more_parameters(next);
        lemma_chain(p, next, more_parameters(next));
    }
}

/// A list of parameters is read.
pub proof fn lemma_parameter_list(p: Parsed)
    ensures
        reads(p, parameter_list(p)),
{
    lemma_same(p);
    let start = inner(p);
    lemma_inner(p);
    let body = if upcoming(start) matches Some(lexeme) && is_type(lexeme) {
        lemma_token(start, start, Expected::Type);
        lemma_token(start, typed(start), Expected::Identifier);
        let first = identifier(typed(start));
        lemma_more_parameters(first);
        lemma_chain(start, first, more_parameters(first));
        more_parameters(first)
    } else {
        start
    };
    lemma_wrap(p, p, NonTerminals::ParameterList, body);
}

/// A declaration of local variables is read.
pub proof fn lemma_var_dec(p: Parsed)
    ensures
        reads_some(p, var_dec(p)) || var_dec(p) is Err,
        reads(p, var_dec(p)),
{
    lemma_same(p);
    let start = inner(p);
    lemma_inner(p);
    lemma_token(start, start, Expected::Keyword(Keyword::Var));
    let kind = keyword(start, Keyword::Var);
    lemma_token(start, kind, Expected::Type);
    lemma_token(start, typed(kind), Expected::Identifier);
    let first = identifier(typed(kind));
    lemma_names_read(first);
    lemma_chain(start, first, names(first));
    lemma_token(start, names(first), Expected::Symbol(';'));
    lemma_wrap(p, p, NonTerminals::VarDec, symbol(names(first), ';'));
}

/// Declarations of local variables in a row are read.
pub proof fn lemma_var_decs(p: Parsed)
    ensures
        reads(p, var_decs(p)),
    decreases size(p),
{
    lemma_same(p);
    if p is Ok && at_keyword(p, Keyword::Var) {
        lemma_var_dec(p);
        let next = after(p, var_dec(p));
        assert(next == var_dec(p));
        lemma_var_decs(next);
        lemma_chain(p, next, var_decs(next));
    }
}

/// The body of a subroutine is read.
pub proof fn lemma_subroutine_body(p: Parsed)
    ensures
        reads_some(p, subroutine_body(p)) || subroutine_body(p) is Err,
        reads(p, subroutine_body(p)),
{
    lemma_same(p);
    let start = inner(p);
    lemma_inner(p);
    lemma_token(start, start, Expected::Symbol('{'));
    let open = symbol(start, '{');
    lemma_var_decs(open);
    lemma_chain(start, open, var_decs(open));
    lemma_statements(var_decs(open));
    lemma_chain(start, var_decs(open), statements(var_decs(open)));
    lemma_token(start, statements(var_decs(open)), Expected::Symbol('}'));
    lemma_wrap(p, p, NonTerminals::SubroutineBody, symbol(statements(var_decs(open)), '}'));
}

/// A declaration of a subroutine is read.
pub proof fn lemma_subroutine_dec(p: Parsed)
    ensures
        reads_some(p, subroutine_dec(p)) || subroutine_dec(p) is Err,
        reads(p, subroutine_dec(p)),
{
    lemma_same(p);
    let start = inner(p);
    lemma_inner(p);
    let kind = if at_keyword(start, Keyword::Constructor) {
        lemma_token(start, start, Expected::Keyword(Keyword::Constructor));
        keyword(start, Keyword::Constructor)
    } else if at_keyword(start, Keyword::Method) {
        lemma_token(start, start, Expected::Keyword(Keyword::Method));
        keyword(start, Keyword::Method)
    } else {
        lemma_token(start, start, Expected::Keyword(Keyword::Function));
        keyword(start, Keyword::Function)
    };
    lemma_token(start, kind, Expected::ReturnType);
    lemma_token(start, token(kind, Expected::ReturnType), Expected::Identifier);
    lemma_token(start, identifier(token(kind, Expected::ReturnType)), Expected::Symbol('('));
    let head = symbol(identifier(token(kind, Expected::ReturnType)), '(');
    lemma_parameter_list(head);
    lemma_chain(start, head, parameter_list(head));
    lemma_token(start, parameter_list(head), Expected::Symbol(')'));
    let close = symbol(parameter_list(head), ')');
    lemma_subroutine_body(close);
    lemma_chain(start, close, subroutine_body(close));
    lemma_wrap(p, p, NonTerminals::SubroutineDec, subroutine_body(close));
}

/// Declarations of subroutines in a row are read.
pub proof fn lemma_subroutine_decs(p: Parsed)
    ensures
        reads(p, subroutine_decs(p)),
    decreases size(p),
{
    lemma_same(p);
    if p is Ok && at_subroutine(p) {
        lemma_subroutine_dec(p);
        let next = after(p, subroutine_dec(p));
        assert(next == subroutine_dec(p));
        lemma_subroutine_decs(next);
        lemma_chain(p, next, subroutine_decs(next));
    }
}

/// A class is read.
pub proof fn lemma_class(p: Parsed)
    ensures
        reads(p, class(p)),
{
    lemma_same(p);
    let start = inner(p);
    lemma_inner(p);
    lemma_token(start, start, Expected::Keyword(Keyword::Class));
    lemma_token(start, keyword(start, Keyword::Class), Expected::Identifier);
    lemma_token(start, identifier(keyword(start, Keyword::Class)), Expected::Symbol('{'));
    let head = symbol(identifier(keyword(start, Keyword::Class)), '{');
    lemma_class_var_decs(head);
    lemma_chain(start, head, class_var_decs(head));
    let fields = class_var_decs(head);
    lemma_subroutine_decs(fields);
    lemma_chain(start, fields, subroutine_decs(fields));
    lemma_token(start, subroutine_decs(fields), Expected::Symbol('}'));
    lemma_wrap(p, p, NonTerminals::Class, symbol(subroutine_decs(fields), '}'));
}

/// The tokens of a text that starts with a class are the leaves of the
/// tree of the class, in their order, and the tokens that follow the
/// class.
pub proof fn lemma_leaves_are_tokens(input: Input)
    requires
        parse(input) is Ok,
    ensures
        ({
            let (tree, rest) = parse(input)->Ok_0;
            &&& input.tokens == tree.leaves() + rest.tokens
            &&& rest.failure == input.failure
            &&& tree is Node
            &&& tree->Node_0 == NonTerminals::Class
        }),
{
    lemma_class(begin(input));
    let (trees, rest) = class(begin(input))->Ok_0;
    let n = input.tokens.len() - rest.tokens.len();
    assert(trees.len() == 1);
    assert(trees.drop_last() =~= Seq::<Tree>::empty());
    assert(leaves(trees) =~= trees[0].leaves());
    assert(leaves(Seq::<Tree>::empty()) + input.tokens.take(n) =~= input.tokens.take(n));
    assert(input.tokens =~= input.tokens.take(n) + input.tokens.skip(n));
}

} // verus!
