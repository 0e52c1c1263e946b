//! The tokenizer of Jack.
//!
//! The text is read line by line into a buffer. Before a token is taken
//! from the buffer, the buffer is cleaned: the whitespace round it goes,
//! then a comment that `//` starts, then the first comment between `/*` and
//! `*/`, which may end on a later line and leaves one space behind.

pub mod xml_writer;

use crate::text::{
    char_is_digit, chars_of, find_char, find_pair, index_of_char, index_of_pair, is_digit,
    lemma_find_char, lemma_find_pair, lemma_skip_whitespace, lemma_skip_whitespace_back,
    lemma_trim, lines, numeral, parse_decimal, skip_whitespace, skip_whitespace_back,
    split_lines, str_eq, trimmed, trim, views,
};
use vstd::prelude::*;

verus! {

/// The words of the language that are no names.
#[derive(Debug, Clone, Copy, PartialEq, Eq, Structural)]
pub enum Keyword {
    Class,
    Method,
    Function,
    Constructor,
    Int,
    Boolean,
    Char,
    Void,
    Var,
    Static,
    Field,
    Let,
    Do,
    If,
    Else,
    While,
    Return,
    True,
    False,
    Null,
    This,
}

/// A token of the language.
#[derive(Debug, Clone, PartialEq, Eq)]
pub enum Token {
    Keyword(Keyword),
    Symbol(char),
    Identifier(String),
    IntConst(u16),
    StringConst(String),
}

/// What a token says: the token with its text as a sequence of characters.
pub enum Lexeme {
    Keyword(Keyword),
    Symbol(char),
    Identifier(Seq<char>),
    IntConst(u16),
    StringConst(Seq<char>),
}

impl View for Token {
    type V = Lexeme;

    open spec fn view(&self) -> Lexeme {
        match self {
            Token::Keyword(k) => Lexeme::Keyword(*k),
            Token::Symbol(c) => Lexeme::Symbol(*c),
            Token::Identifier(s) => Lexeme::Identifier(s@),
            Token::IntConst(n) => Lexeme::IntConst(*n),
            Token::StringConst(s) => Lexeme::StringConst(s@),
        }
    }
}

/// Why the text at the start of the buffer is no token.
#[derive(Debug, Clone, Copy, PartialEq, Eq, Structural)]
pub enum LexError {
    /// No token starts with this character.
    UnknownCharacter,
    /// The line ends before the string does.
    UnterminatedString,
    /// The number does not fit fifteen bits.
    IntegerTooLarge,
}

/// The largest integer constant.
pub const MAX_INT: u16 = 32767;

impl Keyword {
    /// The keyword that a word is, if any.
    pub open spec fn named(word: Seq<char>) -> Option<Keyword> {
        if word == "class"@ {
            Some(Keyword::Class)
        } else if word == "method"@ {
            Some(Keyword::Method)
        } else if word == "function"@ {
            Some(Keyword::Function)
        } else if word == "constructor"@ {
            Some(Keyword::Constructor)
        } else if word == "int"@ {
            Some(Keyword::Int)
        } else if word == "boolean"@ {
            Some(Keyword::Boolean)
        } else if word == "char"@ {
            Some(Keyword::Char)
        } else if word == "void"@ {
            Some(Keyword::Void)
        } else if word == "var"@ {
            Some(Keyword::Var)
        } else if word == "static"@ {
            Some(Keyword::Static)
        } else if word == "field"@ {
            Some(Keyword::Field)
        } else if word == "let"@ {
            Some(Keyword::Let)
        } else if word == "do"@ {
            Some(Keyword::Do)
        } else if word == "if"@ {
            Some(Keyword::If)
        } else if word == "else"@ {
            Some(Keyword::Else)
        } else if word == "while"@ {
            Some(Keyword::While)
        } else if word == "return"@ {
            Some(Keyword::Return)
        } else if word == "true"@ {
            Some(Keyword::True)
        } else if word == "false"@ {
            Some(Keyword::False)
        } else if word == "null"@ {
            Some(Keyword::Null)
        } else if word == "this"@ {
            Some(Keyword::This)
        } else {
            None
        }
    }

    /// The word of the keyword.
    pub open spec fn word(self) -> Seq<char> {
        match self {
            Keyword::Class => "class"@,
            Keyword::Method => "method"@,
            Keyword::Function => "function"@,
            Keyword::Constructor => "constructor"@,
            Keyword::Int => "int"@,
            Keyword::Boolean => "boolean"@,
            Keyword::Char => "char"@,
            Keyword::Void => "void"@,
            Keyword::Var => "var"@,
            Keyword::Static => "static"@,
            Keyword::Field => "field"@,
            Keyword::Let => "let"@,
            Keyword::Do => "do"@,
            Keyword::If => "if"@,
            Keyword::Else => "else"@,
            Keyword::While => "while"@,
            Keyword::Return => "return"@,
            Keyword::True => "true"@,
            Keyword::False => "false"@,
            Keyword::Null => "null"@,
            Keyword::This => "this"@,
        }
    }

    /// The word of the keyword.
    pub fn as_str(self) -> (r: &'static str)
        ensures
            r@ == self.word(),
    {
        match self {
            Keyword::Class => "class",
            Keyword::Method => "method",
            Keyword::Function => "function",
            Keyword::Constructor => "constructor",
            Keyword::Int => "int",
            Keyword::Boolean => "boolean",
            Keyword::Char => "char",
            Keyword::Void => "void",
            Keyword::Var => "var",
            Keyword::Static => "static",
            Keyword::Field => "field",
            Keyword::Let => "let",
            Keyword::Do => "do",
            Keyword::If => "if",
            Keyword::Else => "else",
            Keyword::While => "while",
            Keyword::Return => "return",
            Keyword::True => "true",
            Keyword::False => "false",
            Keyword::Null => "null",
            Keyword::This => "this",
        }
    }

    /// Looks a word up among the keywords.
    pub fn lookup(word: &str) -> (r: Option<Keyword>)
        ensures
            r == Keyword::named(word@),
    {
        if str_eq(word, "class") {
            Some(Keyword::Class)
        } else if str_eq(word, "method") {
            Some(Keyword::Method)
        } else if str_eq(word, "function") {
            Some(Keyword::Function)
        } else if str_eq(word, "constructor") {
            Some(Keyword::Constructor)
        } else if str_eq(word, "int") {
            Some(Keyword::Int)
        } else if str_eq(word, "boolean") {
            Some(Keyword::Boolean)
        } else if str_eq(word, "char") {
            Some(Keyword::Char)
        } else if str_eq(word, "void") {
            Some(Keyword::Void)
        } else if str_eq(word, "var") {
            Some(Keyword::Var)
        } else if str_eq(word, "static") {
            Some(Keyword::Static)
        } else if str_eq(word, "field") {
            Some(Keyword::Field)
        } else if str_eq(word, "let") {
            Some(Keyword::Let)
        } else if str_eq(word, "do") {
            Some(Keyword::Do)
        } else if str_eq(word, "if") {
            Some(Keyword::If)
        } else if str_eq(word, "else") {
            Some(Keyword::Else)
        } else if str_eq(word, "while") {
            Some(Keyword::While)
        } else if str_eq(word, "return") {
            Some(Keyword::Return)
        } else if str_eq(word, "true") {
            Some(Keyword::True)
        } else if str_eq(word, "false") {
            Some(Keyword::False)
        } else if str_eq(word, "null") {
            Some(Keyword::Null)
        } else if str_eq(word, "this") {
            Some(Keyword::This)
        } else {
            None
        }
    }
}

/// Whether a character has the Unicode property `Alphabetic`.
pub uninterp spec fn alphabetic(c: char) -> bool;

/// Calls `char::is_alphabetic`, whose result for a character is what
/// `alphabetic` names.
#[verifier::external_body]
fn is_alphabetic(c: char) -> (b: bool)
    ensures
        b == alphabetic(c),
{
    c.is_alphabetic()
}

/// The characters that are a token each.
pub open spec fn is_symbol(c: char) -> bool {
    c == '(' || c == ')' || c == '{' || c == '}' || c == '[' || c == ']' || c == '.' || c == ','
        || c == ';' || c == '+' || c == '-' || c == '*' || c == '/' || c == '&' || c == '|' || c
        == '<' || c == '>' || c == '=' || c == '~'
}

/// Tells whether a character is a token by itself.
pub fn char_is_symbol(c: char) -> (b: bool)
    ensures
        b == is_symbol(c),
{
    c == '(' || c == ')' || c == '{' || c == '}' || c == '[' || c == ']' || c == '.' || c == ','
        || c == ';' || c == '+' || c == '-' || c == '*' || c == '/' || c == '&' || c == '|' || c
        == '<' || c == '>' || c == '=' || c == '~'
}

/// The characters of which words are made.
pub open spec fn is_word_char(c: char) -> bool {
    alphabetic(c) || c == '_'
}

/// The first position at or after `from` that holds no character of a word,
/// or `s.len()`.
pub open spec fn word_end(s: Seq<char>, from: int) -> int
    decreases s.len() - from,
{
    if from >= s.len() {
        s.len() as int
    } else if !is_word_char(s[from]) {
        from
    } else {
        word_end(s, from + 1)
    }
}

/// The first position at or after `from` that holds no digit, or `s.len()`.
pub open spec fn digits_end(s: Seq<char>, from: int) -> int
    decreases s.len() - from,
{
    if from >= s.len() {
        s.len() as int
    } else if !is_digit(s[from]) {
        from
    } else {
        digits_end(s, from + 1)
    }
}

/// A word is the longest run of its characters: it ends within the
/// sequence, every character before its end is one of a word, and the
/// character at its end is none.
pub proof fn lemma_word_end(s: Seq<char>, from: int)
    requires
        0 <= from <= s.len(),
    ensures
        from <= word_end(s, from) <= s.len(),
        from < s.len() && is_word_char(s[from]) ==> from < word_end(s, from),
        forall|k: int| from <= k < word_end(s, from) ==> is_word_char(#[trigger] s[k]),
        word_end(s, from) < s.len() ==> !is_word_char(s[word_end(s, from)]),
    decreases s.len() - from,
{
    if from < s.len() && is_word_char(s[from]) {
        lemma_word_end(s, from + 1);
    }
}

/// An integer is the longest run of digits: it ends within the sequence,
/// every character before its end is a digit, and the character at its end
/// is none.
pub proof fn lemma_digits_end(s: Seq<char>, from: int)
    requires
        0 <= from <= s.len(),
    ensures
        from <= digits_end(s, from) <= s.len(),
        from < s.len() && is_digit(s[from]) ==> from < digits_end(s, from),
        forall|k: int| from <= k < digits_end(s, from) ==> is_digit(#[trigger] s[k]),
        digits_end(s, from) < s.len() ==> !is_digit(s[digits_end(s, from)]),
    decreases s.len() - from,
{
    if from < s.len() && is_digit(s[from]) {
        lemma_digits_end(s, from + 1);
    }
}

/// The token with which a buffer starts, and the number of characters that
/// it takes. The buffer is not empty.
///
/// A letter starts a word, the longest run of letters and `_`: a keyword
/// where the word is one, else an identifier. A digit starts an integer,
/// the longest run of digits. A symbol is a token by itself. `"` starts a
/// string, which ends before the next `"`.
pub open spec fn first_token(b: Seq<char>) -> Result<(Lexeme, int), LexError> {
    let c = b[0];
    if alphabetic(c) {
        let end = word_end(b, 0);
        let word = b.subrange(0, end);
        match Keyword::named(word) {
            Some(k) => Ok((Lexeme::Keyword(k), end)),
            None => Ok((Lexeme::Identifier(word), end)),
        }
    } else if is_digit(c) {
        let end = digits_end(b, 0);
        match numeral(b.subrange(0, end), MAX_INT as nat) {
            Some(n) => Ok((Lexeme::IntConst(n as u16), end)),
            None => Err(LexError::IntegerTooLarge),
        }
    } else if is_symbol(c) {
        Ok((Lexeme::Symbol(c), 1))
    } else if c == '"' {
        let end = find_char(b, '"', 1);
        if end < b.len() {
            Ok((Lexeme::StringConst(b.subrange(1, end)), end + 1))
        } else {
            Err(LexError::UnterminatedString)
        }
    } else {
        Err(LexError::UnknownCharacter)
    }
}

/// A token takes at least one character of the buffer and no more than the
/// buffer holds.
pub proof fn lemma_first_token(b: Seq<char>)
    requires
        b.len() > 0,
    ensures
        first_token(b) matches Ok((_, n)) ==> 0 < n <= b.len(),
{
    lemma_word_end(b, 0);
    lemma_digits_end(b, 0);
    lemma_find_char(b, '"', 1);
}

fn index_of_word_end(v: &Vec<char>, from: usize) -> (r: usize)
    requires
        from <= v.len(),
    ensures
        r == word_end(v@, from as int),
        from <= r <= v.len(),
{
    let mut i = from;
    while i < v.len() && (is_alphabetic(v[i]) || v[i] == '_')
        invariant
            from <= i <= v.len(),
            word_end(v@, from as int) == word_end(v@, i as int),
        decreases v.len() - i,
    {
        i = i + 1;
    }
    i
}

fn index_of_digits_end(v: &Vec<char>, from: usize) -> (r: usize)
    requires
        from <= v.len(),
    ensures
        r == digits_end(v@, from as int),
        from <= r <= v.len(),
{
    let mut i = from;
    while i < v.len() && char_is_digit(v[i])
        invariant
            from <= i <= v.len(),
            digits_end(v@, from as int) == digits_end(v@, i as int),
        decreases v.len() - i,
    {
        i = i + 1;
    }
    i
}

/// A buffer without the whitespace round it and without the comment that
/// `//` starts.
pub open spec fn strip_line_comment(buf: Seq<char>) -> Seq<char> {
    let t = trimmed(buf);
    let i = find_pair(t, '/', '/', 0);
    if i < t.len() {
        trimmed(t.subrange(0, i))
    } else {
        t
    }
}

/// The first line at or after `from` that holds `*/`, or `lines.len()`.
pub open spec fn closing_line(lines: Seq<Seq<char>>, from: int) -> int
    decreases lines.len() - from,
{
    if from >= lines.len() {
        lines.len() as int
    } else if find_pair(lines[from], '*', '/', 0) < lines[from].len() {
        from
    } else {
        closing_line(lines, from + 1)
    }
}

/// `closing_line` gives a line at or after `from`, or `lines.len()`.
pub proof fn lemma_closing_line(lines: Seq<Seq<char>>, from: int)
    requires
        0 <= from <= lines.len(),
    ensures
        from <= closing_line(lines, from) <= lines.len(),
    decreases lines.len() - from,
{
    if from < lines.len() && !(find_pair(lines[from], '*', '/', 0) < lines[from].len()) {
        lemma_closing_line(lines, from + 1);
    }
}

/// Stripping makes a buffer no longer.
pub proof fn lemma_strip_line_comment_len(buf: Seq<char>)
    ensures
        strip_line_comment(buf).len() <= buf.len(),
{
    lemma_trim(buf);
    let t = trimmed(buf);
    let i = find_pair(t, '/', '/', 0);
    lemma_find_pair(t, '/', '/', 0);
    if i < t.len() {
        lemma_trim(t.subrange(0, i));
    }
}

/// What the cleaning of the buffer ends in.
pub enum Scan {
    /// The text has ended, or it ends inside a comment.
    End,
    /// A clean buffer that is not empty, and the lines that follow it.
    Ready(Seq<char>, Seq<Seq<char>>),
}

/// `b` with one space in place of the comment that starts at `s` and whose
/// `*/` starts at `e`.
pub open spec fn cut_comment(b: Seq<char>, s: int, e: int) -> Seq<char> {
    b.subrange(0, s) + seq![' '] + b.subrange(e + 2, b.len() as int)
}

/// Cleans the buffer `buf`, which the lines `lines` follow.
///
/// An empty buffer takes the next line. Then the whitespace round the
/// buffer goes, and the comment that the first `//` starts. Where the
/// buffer then holds `/*`, the comment from the first `/*` to the first `*/`
/// after it leaves one space behind; where the buffer holds no such `*/`,
/// the comment ends with the first `*/` of the first later line that holds
/// one, and what follows it there joins the buffer. This goes on until the
/// buffer holds no comment and is not empty.
pub open spec fn scan(buf: Seq<char>, lines: Seq<Seq<char>>) -> Scan
    decreases lines.len(), buf.len(),
{
    if buf.len() == 0 && lines.len() == 0 {
        Scan::End
    } else {
        let cur = if buf.len() == 0 {
            lines[0]
        } else {
            buf
        };
        let rest = if buf.len() == 0 {
            lines.drop_first()
        } else {
            lines
        };
        let b = strip_line_comment(cur);
        let s = find_pair(b, '/', '*', 0);
        if s < b.len() {
            let e = find_pair(b, '*', '/', s + 2);
            if e < b.len() {
                proof {
                    lemma_strip_line_comment_len(cur);
                    lemma_find_pair(b, '/', '*', 0);
                    lemma_find_pair(b, '*', '/', s + 2);
                }
                scan(cut_comment(b, s, e), rest)
            } else {
                let k = closing_line(rest, 0);
                if k < rest.len() {
                    proof {
                        lemma_closing_line(rest, 0);
                    }
                    let e2 = find_pair(rest[k], '*', '/', 0);
                    scan(
                        b.subrange(0, s) + seq![' '] + rest[k].subrange(
                            e2 + 2,
                            rest[k].len() as int,
                        ),
                        rest.skip(k + 1),
                    )
                } else {
                    Scan::End
                }
            }
        } else if b.len() == 0 {
            scan(Seq::empty(), rest)
        } else {
            Scan::Ready(b, rest)
        }
    }
}

/// Tells whether cleaning leaves a buffer as it is: it is not empty, no
/// whitespace stands round it, and it holds neither `//` nor `/*`.
pub open spec fn clean(b: Seq<char>) -> bool {
    &&& b.len() > 0
    &&& trimmed(b) == b
    &&& find_pair(b, '/', '/', 0) == b.len()
    &&& find_pair(b, '/', '*', 0) == b.len()
}

/// A stretch of a sequence that does not hold a pair does not hold it.
pub proof fn lemma_no_pair_in_part(s: Seq<char>, a: char, b: char, from: int, to: int)
    requires
        0 <= from <= to <= s.len(),
        find_pair(s, a, b, 0) >= to - 1 || find_pair(s, a, b, 0) == s.len(),
    ensures
        find_pair(s.subrange(from, to), a, b, 0) == to - from,
{
    let part = s.subrange(from, to);
    lemma_find_pair(s, a, b, 0);
    lemma_find_pair(part, a, b, 0);
    let k = find_pair(part, a, b, 0);
    if k < part.len() {
        assert(part[k] == s[from + k]);
        assert(part[k + 1] == s[from + k + 1]);
        assert(s[from + k] == a && s[from + k + 1] == b);
        assert(from + k < find_pair(s, a, b, 0));
    }
}

/// The trimmed form of a sequence is the stretch of it between two
/// positions.
pub proof fn lemma_trim_is_part(s: Seq<char>) -> (r: (int, int))
    ensures
        0 <= r.0 <= r.1 <= s.len(),
        trimmed(s) == s.subrange(r.0, r.1),
{
    lemma_skip_whitespace(s, 0);
    lemma_skip_whitespace_back(s, s.len() as int);
    let a = skip_whitespace(s, 0);
    let b = skip_whitespace_back(s, s.len() as int);
    if a < b {
        (a, b)
    } else {
        assert(trimmed(s) =~= s.subrange(0, 0));
        (0, 0)
    }
}

/// A buffer that was stripped of its line comment is trimmed and holds no
/// `//`.
pub proof fn lemma_strip_line_comment(buf: Seq<char>)
    ensures
        trimmed(strip_line_comment(buf)) == strip_line_comment(buf),
        find_pair(strip_line_comment(buf), '/', '/', 0) == strip_line_comment(buf).len(),
{
    lemma_trim(buf);
    let t = trimmed(buf);
    let i = find_pair(t, '/', '/', 0);
    lemma_find_pair(t, '/', '/', 0);
    if i < t.len() {
        let head = t.subrange(0, i);
        lemma_trim(head);
        let (a, b) = lemma_trim_is_part(head);
        assert(head.subrange(a, b) =~= t.subrange(a, b));
        lemma_no_pair_in_part(t, '/', '/', a, b);
    }
}

/// Cleaning leaves a clean buffer as it is.
pub proof fn lemma_scan_clean(b: Seq<char>, lines: Seq<Seq<char>>)
    requires
        clean(b),
    ensures
        scan(b, lines) == Scan::Ready(b, lines),
{
}

/// What cleaning ends in is clean, and it does not come before what was
/// cleaned: either lines were taken, or the buffer did not grow.
pub proof fn lemma_scan(buf: Seq<char>, lines: Seq<Seq<char>>)
    ensures
        scan(buf, lines) matches Scan::Ready(b, rest) ==> {
            &&& clean(b)
            &&& rest.len() <= lines.len()
            &&& rest.len() == lines.len() ==> b.len() <= buf.len()
        },
    decreases lines.len(), buf.len(),
{
    if buf.len() == 0 && lines.len() == 0 {
    } else {
        let cur = if buf.len() == 0 {
            lines[0]
        } else {
            buf
        };
        let rest = if buf.len() == 0 {
            lines.drop_first()
        } else {
            lines
        };
        let b = strip_line_comment(cur);
        let s = find_pair(b, '/', '*', 0);
        lemma_strip_line_comment_len(cur);
        lemma_strip_line_comment(cur);
        lemma_find_pair(b, '/', '*', 0);
        if s < b.len() {
            let e = find_pair(b, '*', '/', s + 2);
            lemma_find_pair(b, '*', '/', s + 2);
            if e < b.len() {
                lemma_scan(cut_comment(b, s, e), rest);
            } else {
                let k = closing_line(rest, 0);
                lemma_closing_line(rest, 0);
                if k < rest.len() {
                    let e2 = find_pair(rest[k], '*', '/', 0);
                    lemma_scan(
                        b.subrange(0, s) + seq![' '] + rest[k].subrange(
                            e2 + 2,
                            rest[k].len() as int,
                        ),
                        rest.skip(k + 1),
                    );
                }
            }
        } else if b.len() == 0 {
            lemma_scan(Seq::empty(), rest);
        }
    }
}

/// The tokens that a buffer and the lines after it hold, and the error
/// that ends them where the text after them is no token.
pub open spec fn stream(buf: Seq<char>, lines: Seq<Seq<char>>) -> (Seq<Lexeme>, Option<LexError>)
    decreases lines.len(), buf.len(),
{
    match scan(buf, lines) {
        Scan::End => (Seq::empty(), None),
        Scan::Ready(b, rest) => match first_token(b) {
            Err(e) => (Seq::empty(), Some(e)),
            Ok((lexeme, n)) => {
                proof {
                    lemma_scan(buf, lines);
                    lemma_first_token(b);
                }
                let (tokens, failure) = stream(b.skip(n), rest);
                (seq![lexeme] + tokens, failure)
            },
        },
    }
}

/// The tokens of a text.
pub open spec fn tokens_of(text: Seq<char>) -> (Seq<Lexeme>, Option<LexError>) {
    stream(Seq::empty(), split_lines(text))
}

/// To look at the next token changes nothing: the buffer that is ready then
/// is ready again, with the same token, and the tokens after it are those
/// of what the token leaves of the buffer.
pub proof fn lemma_peek(buf: Seq<char>, lines: Seq<Seq<char>>)
    ensures
        scan(buf, lines) matches Scan::Ready(b, rest) ==> {
            &&& scan(b, rest) == scan(buf, lines)
            &&& stream(b, rest) == stream(buf, lines)
            &&& first_token(b) matches Ok((lexeme, n)) ==> stream(buf, lines) == (
                seq![lexeme] + stream(b.skip(n), rest).0,
                stream(b.skip(n), rest).1,
            )
        },
        scan(buf, lines) is End ==> stream(buf, lines) == (
            Seq::<Lexeme>::empty(),
            None::<LexError>,
        ),
{
    lemma_scan(buf, lines);
    if let Scan::Ready(b, rest) = scan(buf, lines) {
        lemma_scan_clean(b, rest);
    }
}

/// Cuts the whitespace off both ends of a text, and the comment that `//`
/// starts.
fn strip_comment<'b>(text: &'b str) -> (b: &'b str)
    ensures
        b@ == strip_line_comment(text@),
{
    let t = trim(text);
    let tv = chars_of(t);
    let i = index_of_pair(&tv, '/', '/', 0);
    if i < tv.len() {
        trim(t.substring_char(0, i))
    } else {
        t
    }
}

/// Reads the tokens of a text one after the other.
#[derive(Debug)]
pub struct Tokenizer<'a> {
    /// The lines of the text.
    pub lines: Vec<&'a str>,
    /// The number of lines that were taken into the buffer or passed over.
    pub next: usize,
    /// What is left of the lines that were taken.
    pub buf: String,
}

impl<'a> Tokenizer<'a> {
    /// The lines that were not taken yet.
    pub open spec fn pending(&self) -> Seq<Seq<char>> {
        if self.next <= self.lines@.len() {
            views(self.lines@).skip(self.next as int)
        } else {
            Seq::empty()
        }
    }

    /// The clean buffer from which the next token comes.
    pub open spec fn state(&self) -> Scan {
        scan(self.buf@, self.pending())
    }

    /// The tokens that are left.
    pub open spec fn tokens(&self) -> Seq<Lexeme> {
        stream(self.buf@, self.pending()).0
    }

    /// The error that ends the tokens, if one does.
    pub open spec fn failure(&self) -> Option<LexError> {
        stream(self.buf@, self.pending()).1
    }

    /// A tokenizer at the start of a text.
    pub fn new(file: &'a str) -> (r: Self)
        ensures
            r.buf@ == Seq::<char>::empty(),
            r.pending() == split_lines(file@),
            (r.tokens(), r.failure()) == tokens_of(file@),
    {
        let r = Tokenizer { lines: lines(file), next: 0, buf: String::new() };
        assert(views(r.lines@).skip(0) =~= views(r.lines@));
        r
    }

    /// Reads the word with which `line` starts.
    fn parse_keyword_or_identifier(line: &str, chars: &Vec<char>) -> (r: (usize, Token))
        requires
            chars@ == line@,
            line@.len() > 0,
            alphabetic(line@[0]),
        ensures
            first_token(line@) == Ok::<(Lexeme, int), LexError>((r.1@, r.0 as int)),
    {
        let end = index_of_word_end(chars, 0);
        let word = line.substring_char(0, end);
        match Keyword::lookup(word) {
            Some(k) => (end, Token::Keyword(k)),
            None => (end, Token::Identifier(String::from_str(word))),
        }
    }

    /// Reads the integer with which `line` starts.
    fn parse_nubmer(line: &str, chars: &Vec<char>) -> (r: Result<(usize, Token), LexError>)
        requires
            chars@ == line@,
            line@.len() > 0,
            !alphabetic(line@[0]),
            is_digit(line@[0]),
        ensures
            match first_token(line@) {
                Ok((lexeme, n)) => r matches Ok((m, token)) && m == n && token@ == lexeme,
                Err(e) => r == Err::<(usize, Token), LexError>(e),
            },
    {
        let end = index_of_digits_end(chars, 0);
        match parse_decimal(chars, 0, end, MAX_INT as u32) {
            Some(n) => Ok((end, Token::IntConst(n as u16))),
            None => Err(LexError::IntegerTooLarge),
        }
    }

    /// Reads the token with which `line` starts.
    pub fn parse_token(line: &str, chars: &Vec<char>) -> (r: Result<(usize, Token), LexError>)
        requires
            chars@ == line@,
            line@.len() > 0,
        ensures
            match first_token(line@) {
                Ok((lexeme, n)) => r matches Ok((m, token)) && m == n && token@ == lexeme,
                Err(e) => r == Err::<(usize, Token), LexError>(e),
            },
    {
        let first_symbol = chars[0];
        if is_alphabetic(first_symbol) {
            Ok(Self::parse_keyword_or_identifier(line, chars))
        } else if char_is_digit(first_symbol) {
            Self::parse_nubmer(line, chars)
        } else if char_is_symbol(first_symbol) {
            Ok((1, Token::Symbol(first_symbol)))
        } else if first_symbol == '"' {
            let end = index_of_char(chars, '"', 1);
            if end < chars.len() {
                Ok((end + 1, Token::StringConst(String::from_str(line.substring_char(1, end)))))
            } else {
                Err(LexError::UnterminatedString)
            }
        } else {
            Err(LexError::UnknownCharacter)
        }
    }

    /// The text that is cleaned next: the buffer, or the next line where the
    /// buffer is empty. `None` says that there is neither.
    fn take_text(&mut self) -> (r: Option<String>)
        ensures
            final(self).lines == old(self).lines,
            final(self).buf == old(self).buf,
            old(self).buf@.len() == 0 && old(self).pending().len() == 0 ==> {
                &&& r is None
                &&& *final(self) == *old(self)
            },
            old(self).buf@.len() == 0 && old(self).pending().len() > 0 ==> {
                &&& r matches Some(text)
                &&& text@ == old(self).pending()[0]
                &&& final(self).pending() == old(self).pending().drop_first()
            },
            old(self).buf@.len() > 0 ==> {
                &&& r matches Some(text)
                &&& text@ == old(self).buf@
                &&& final(self).pending() == old(self).pending()
            },
    {
        if self.buf.as_str().is_empty() {
            if self.next >= self.lines.len() {
                return None;
            }
            let line = self.lines[self.next];
            self.next = self.next + 1;
            assert(self.pending() =~= old(self).pending().drop_first());
            Some(String::from_str(line))
        } else {
            Some(self.buf.clone())
        }
    }

    /// Passes over the lines up to the first that holds `*/`, and over that
    /// line up to the end of its first `*/`; gives what follows it there.
    /// `None` says that no line holds `*/`.
    fn skip_comment(&mut self) -> (r: Option<String>)
        ensures
            final(self).lines == old(self).lines,
            final(self).buf == old(self).buf,
            ({
                let rest = old(self).pending();
                let k = closing_line(rest, 0);
                if k < rest.len() {
                    &&& r matches Some(tail)
                    &&& tail@ == rest[k].subrange(
                        find_pair(rest[k], '*', '/', 0) + 2,
                        rest[k].len() as int,
                    )
                    &&& final(self).pending() == rest.skip(k + 1)
                } else {
                    &&& r is None
                    &&& final(self).pending().len() == 0
                }
            }),
    {
        let ghost rest = self.pending();
        proof {
            lemma_closing_line(rest, 0);
        }
        if self.next > self.lines.len() {
            return None;
        }
        let ghost base = self.next as int;
        assert(rest == views(self.lines@).skip(base));
        let mut k = self.next;
        while k < self.lines.len()
            invariant
                *self == *old(self),
                base == self.next,
                base <= k <= self.lines.len(),
                rest == views(self.lines@).skip(base),
                closing_line(rest, 0) == closing_line(rest, k - base),
            decreases self.lines.len() - k,
        {
            let line = self.lines[k];
            assert(line@ == rest[k - base]);
            let lv = chars_of(line);
            let e = index_of_pair(&lv, '*', '/', 0);
            proof {
                lemma_find_pair(line@, '*', '/', 0);
            }
            if e < lv.len() {
                let tail = String::from_str(line.substring_char(e + 2, lv.len()));
                self.next = k + 1;
                assert(self.pending() =~= rest.skip(k - base + 1));
                return Some(tail);
            }
            k = k + 1;
        }
        self.next = self.lines.len();
        assert(self.pending() =~= Seq::<Seq<char>>::empty());
        None
    }

    /// Does one step of the cleaning. `Some` holds what `get_next_token`
    /// returns; `None` says that the cleaning goes on.
    fn step(&mut self, delete: bool) -> (r: Option<Option<Result<Token, LexError>>>)
        ensures
            final(self).lines == old(self).lines,
            r is None ==> {
                &&& final(self).state() == old(self).state()
                &&& final(self).pending().len() <= old(self).pending().len()
                &&& final(self).pending().len() == old(self).pending().len()
                    ==> final(self).buf@.len() < old(self).buf@.len()
            },
            r matches Some(found) ==> match old(self).state() {
                Scan::End => found is None && final(self).state() is End,
                Scan::Ready(b, rest) => {
                    &&& final(self).pending() == rest
                    &&& match first_token(b) {
                        Err(e) => found == Some(Err::<Token, LexError>(e)) && final(self).buf@
                            == b,
                        Ok((lexeme, n)) => {
                            &&& found matches Some(Ok(token))
                            &&& token@ == lexeme
                            &&& final(self).buf@ == if delete {
                                b.skip(n)
                            } else {
                                b
                            }
                        },
                    }
                },
            },
    {
        let text = match self.take_text() {
            None => {
                return Some(None);
            },
            Some(text) => text,
        };
        let ghost rest = self.pending();
        let b = strip_comment(text.as_str());
        let bv = chars_of(b);
        let n = bv.len();
        let s = index_of_pair(&bv, '/', '*', 0);
        proof {
            lemma_strip_line_comment_len(text@);
            lemma_find_pair(b@, '/', '*', 0);
        }
        if s < n {
            let e = index_of_pair(&bv, '*', '/', s + 2);
            proof {
                lemma_find_pair(b@, '*', '/', s + 2);
                reveal_strlit(" ");
            }
            let mut joined = String::from_str(b.substring_char(0, s));
            joined.append(" ");
            if e < n {
                joined.append(b.substring_char(e + 2, n));
                assert(joined@ =~= cut_comment(b@, s as int, e as int));
                self.buf = joined;
                None
            } else {
                match self.skip_comment() {
                    Some(tail) => {
                        joined.append(tail.as_str());
                        let ghost k = closing_line(rest, 0);
                        assert(joined@ =~= b@.subrange(0, s as int) + seq![' '] + rest[k].subrange(
                            find_pair(rest[k], '*', '/', 0) + 2,
                            rest[k].len() as int,
                        ));
                        self.buf = joined;
                        proof {
                            lemma_closing_line(rest, 0);
                        }
                        None
                    },
                    None => {
                        self.buf = String::new();
                        Some(None)
                    },
                }
            }
        } else if n == 0 {
            self.buf = String::new();
            None
        } else {
            proof {
                lemma_first_token(b@);
            }
            match Self::parse_token(b, &bv) {
                Err(e) => {
                    self.buf = String::from_str(b);
                    Some(Some(Err(e)))
                },
                Ok((m, token)) => {
                    if delete {
                        self.buf = String::from_str(b.substring_char(m, n));
                    } else {
                        self.buf = String::from_str(b);
                    }
                    Some(Some(Ok(token)))
                },
            }
        }
    }

    /// Cleans the buffer and reads the token with which it then starts;
    /// takes the token out of the buffer where `delete` says so. `None`
    /// says that the text has no more tokens.
    pub fn get_next_token(&mut self, delete: bool) -> (r: Option<Result<Token, LexError>>)
        ensures
            final(self).lines == old(self).lines,
            match old(self).state() {
                Scan::End => r is None && final(self).state() is End,
                Scan::Ready(b, rest) => {
                    &&& final(self).pending() == rest
                    &&& match first_token(b) {
                        Err(e) => r == Some(Err::<Token, LexError>(e)) && final(self).buf@ == b,
                        Ok((lexeme, n)) => {
                            &&& r matches Some(Ok(token))
                            &&& token@ == lexeme
                            &&& final(self).buf@ == if delete {
                                b.skip(n)
                            } else {
                                b
                            }
                        },
                    }
                },
            },
    {
        loop
            invariant
                self.lines == old(self).lines,
                self.state() == old(self).state(),
            decreases self.pending().len(), self.buf@.len(),
        {
            match self.step(delete) {
                Some(found) => {
                    return found;
                },
                None => {},
            }
        }
    }

    /// Reads the next token and takes it out of the text.
    pub fn advance(&mut self) -> (r: Option<Result<Token, LexError>>)
        ensures
            final(self).lines == old(self).lines,
            match old(self).state() {
                Scan::End => r is None && final(self).state() is End,
                Scan::Ready(b, rest) => {
                    &&& final(self).pending() == rest
                    &&& match first_token(b) {
                        Err(e) => r == Some(Err::<Token, LexError>(e)) && final(self).buf@ == b,
                        Ok((lexeme, n)) => {
                            &&& r matches Some(Ok(token))
                            &&& token@ == lexeme
                            &&& final(self).buf@ == b.skip(n)
                        },
                    }
                },
            },
            final(self).failure() == old(self).failure(),
            match r {
                Some(Ok(token)) => {
                    &&& old(self).tokens().len() > 0
                    &&& token@ == old(self).tokens()[0]
                    &&& final(self).tokens() == old(self).tokens().drop_first()
                },
                Some(Err(e)) => {
                    &&& old(self).tokens().len() == 0
                    &&& old(self).failure() == Some(e)
                    &&& final(self).tokens().len() == 0
                },
                None => {
                    &&& old(self).tokens().len() == 0
                    &&& old(self).failure() is None
                    &&& final(self).tokens().len() == 0
                },
            },
    {
        proof {
            lemma_peek(self.buf@, self.pending());
        }
        let r = self.get_next_token(true);
        proof {
            lemma_peek(self.buf@, self.pending());
            if r is Some && r->Some_0 is Ok {
                assert(self.tokens() =~= old(self).tokens().drop_first());
            }
        }
        r
    }

    /// Reads the next token and leaves it in the text.
    pub fn peek_token(&mut self) -> (r: Option<Result<Token, LexError>>)
        ensures
            final(self).lines == old(self).lines,
            final(self).state() == old(self).state(),
            match old(self).state() {
                Scan::End => r is None,
                Scan::Ready(b, rest) => match first_token(b) {
                    Err(e) => r == Some(Err::<Token, LexError>(e)),
                    Ok((lexeme, n)) => r matches Some(Ok(token)) && token@ == lexeme,
                },
            },
            final(self).tokens() == old(self).tokens(),
            final(self).failure() == old(self).failure(),
            match r {
                Some(Ok(token)) => old(self).tokens().len() > 0 && token@ == old(self).tokens()[0],
                Some(Err(e)) => old(self).tokens().len() == 0 && old(self).failure() == Some(e),
                None => old(self).tokens().len() == 0 && old(self).failure() is None,
            },
    {
        proof {
            lemma_peek(self.buf@, self.pending());
        }
        let r = self.get_next_token(false);
        proof {
            lemma_peek(self.buf@, self.pending());
        }
        r
    }
}

} // verus!
