//! The text of a token in XML.

use crate::compiler::tokenizer::{Keyword, Lexeme, Token};
use crate::text::{chars_of, decimal, push_char, push_decimal};
use vstd::prelude::*;

verus! {

/// A character as it stands in XML: the four reserved characters by their
/// names, any other as itself.
pub open spec fn escape_char(c: char) -> Seq<char> {
    if c == '<' {
        "&lt;"@
    } else if c == '>' {
        "&gt;"@
    } else if c == '&' {
        "&amp;"@
    } else if c == '"' {
        "&quot;"@
    } else {
        seq![c]
    }
}

/// A text as it stands in XML.
pub open spec fn escape(s: Seq<char>) -> Seq<char>
    decreases s.len(),
{
    if s.len() == 0 {
        Seq::empty()
    } else {
        escape(s.drop_last()) + escape_char(s.last())
    }
}

impl Lexeme {
    /// The name of the token's kind.
    pub open spec fn tag(self) -> Seq<char> {
        match self {
            Lexeme::Keyword(_) => "keyword"@,
            Lexeme::Symbol(_) => "symbol"@,
            Lexeme::Identifier(_) => "identifier"@,
            Lexeme::IntConst(_) => "integerConstant"@,
            Lexeme::StringConst(_) => "stringConstant"@,
        }
    }

    /// The text of the token, as it stands in XML.
    pub open spec fn body(self) -> Seq<char> {
        match self {
            Lexeme::Keyword(k) => k.word(),
            Lexeme::Symbol(c) => escape_char(c),
            Lexeme::Identifier(name) => escape(name),
            Lexeme::IntConst(n) => decimal(n as nat),
            Lexeme::StringConst(text) => escape(text),
        }
    }

    /// The element of the token: its text between the tags of its kind,
    /// with one space on either side.
    pub open spec fn xml(self) -> Seq<char> {
        "<"@ + self.tag() + "> "@ + self.body() + " </"@ + self.tag() + ">"@
    }
}

/// Appends a character to `out` as it stands in XML.
pub fn write_char(out: &mut String, c: char)
    ensures
        final(out)@ == old(out)@ + escape_char(c),
{
    if c == '<' {
        out.append("&lt;");
    } else if c == '>' {
        out.append("&gt;");
    } else if c == '&' {
        out.append("&amp;");
    } else if c == '"' {
        out.append("&quot;");
    } else {
        push_char(out, c);
        assert(out@ =~= old(out)@ + seq![c]);
    }
}

/// Appends a text to `out` as it stands in XML.
pub fn write_text(out: &mut String, text: &str)
    ensures
        final(out)@ == old(out)@ + escape(text@),
{
    let v = chars_of(text);
    let mut i: usize = 0;
    assert(old(out)@ + escape(v@.take(0)) =~= old(out)@);
    while i < v.len()
        invariant
            i <= v.len(),
            v@ == text@,
            out@ == old(out)@ + escape(v@.take(i as int)),
        decreases v.len() - i,
    {
        write_char(out, v[i]);
        proof {
            assert(v@.take(i + 1).drop_last() =~= v@.take(i as int));
            assert(out@ =~= old(out)@ + escape(v@.take(i + 1)));
        }
        i = i + 1;
    }
    assert(v@.take(v.len() as int) =~= v@);
}

/// What can be written as an element of XML.
pub trait SimpleXmlWriter {
    /// The element.
    spec fn element(&self) -> Seq<char>;

    /// Appends the element to `writer`.
    fn write_xml(&self, writer: &mut String)
        ensures
            final(writer)@ == old(writer)@ + self.element(),
    ;
}

impl SimpleXmlWriter for Token {
    open spec fn element(&self) -> Seq<char> {
        self@.xml()
    }

    fn write_xml(&self, writer: &mut String) {
        match self {
            Token::Keyword(keyword) => {
                writer.append("<keyword> ");
                writer.append(keyword.as_str());
                writer.append(" </keyword>");
            },
            Token::Symbol(symbol) => {
                writer.append("<symbol> ");
                write_char(writer, *symbol);
                writer.append(" </symbol>");
            },
            Token::Identifier(text) => {
                writer.append("<identifier> ");
                write_text(writer, text.as_str());
                writer.append(" </identifier>");
            },
            Token::IntConst(value) => {
                writer.append("<integerConstant> ");
                push_decimal(writer, *value);
                writer.append(" </integerConstant>");
            },
            Token::StringConst(string) => {
                writer.append("<stringConstant> ");
                write_text(writer, string.as_str());
                writer.append(" </stringConstant>");
            },
        }
        proof {
            reveal_strlit("<");
            reveal_strlit("> ");
            reveal_strlit(" </");
            reveal_strlit(">");
            reveal_strlit("keyword");
            reveal_strlit("symbol");
            reveal_strlit("identifier");
            reveal_strlit("integerConstant");
            reveal_strlit("stringConstant");
            reveal_strlit("<keyword> ");
            reveal_strlit(" </keyword>");
            reveal_strlit("<symbol> ");
            reveal_strlit(" </symbol>");
            reveal_strlit("<identifier> ");
            reveal_strlit(" </identifier>");
            reveal_strlit("<integerConstant> ");
            reveal_strlit(" </integerConstant>");
            reveal_strlit("<stringConstant> ");
            reveal_strlit(" </stringConstant>");
            assert(final(writer)@ =~= old(writer)@ + self@.xml());
        }
    }
}

} // verus!
