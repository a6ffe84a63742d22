//! The tokens of a statement.

use vstd::prelude::*;

use crate::text;

verus! {

/// A token. Words keep their spelling; keywords are compared without regard to
/// case by whoever reads them.
#[derive(Clone, Debug, PartialEq, Eq)]
pub enum Token {
    /// An identifier or keyword without quotes.
    Word(String),
    /// A backticked identifier, without its backticks.
    QuotedIdent(String),
    /// A string literal, without its quotes and escapes.
    Str(String),
    /// A numeric literal, as written.
    Num(String),
    /// A hexadecimal or bit literal, as the hexadecimal digits of its bytes.
    Blob(String),
    /// A system variable `@@name`, without its scope.
    SystemVar(String),
    /// `(`
    LParen,
    /// `)`
    RParen,
    /// `,`
    Comma,
    /// `.`
    Dot,
    /// `;`
    Semicolon,
    /// `=`
    Eq,
    /// `<=>`
    Spaceship,
    /// `<`
    Lt,
    /// `<=`
    Le,
    /// `<>` or `!=`
    Ne,
    /// `>=`
    Ge,
    /// `>`
    Gt,
    /// `<<`
    ShiftLeft,
    /// `>>`
    ShiftRight,
    /// `&&`
    AmpAmp,
    /// `->`
    Arrow,
    /// `->>`
    ArrowDouble,
    /// `*`
    Star,
    /// `-`
    Minus,
    /// `+`
    Plus,
    /// `?`
    Param,
    /// Any other character.
    Other(char),
}

/// The model of a [`Token`].
pub enum TokenView {
    Word(Seq<char>),
    QuotedIdent(Seq<char>),
    Str(Seq<char>),
    Num(Seq<char>),
    Blob(Seq<char>),
    SystemVar(Seq<char>),
    LParen,
    RParen,
    Comma,
    Dot,
    Semicolon,
    Eq,
    Spaceship,
    Lt,
    Le,
    Ne,
    Ge,
    Gt,
    ShiftLeft,
    ShiftRight,
    AmpAmp,
    Arrow,
    ArrowDouble,
    Star,
    Minus,
    Plus,
    Param,
    Other(char),
}

impl View for Token {
    type V = TokenView;

    open spec fn view(&self) -> TokenView {
        match *self {
            Token::Word(s) => TokenView::Word(s@),
            Token::QuotedIdent(s) => TokenView::QuotedIdent(s@),
            Token::Str(s) => TokenView::Str(s@),
            Token::Num(s) => TokenView::Num(s@),
            Token::Blob(s) => TokenView::Blob(s@),
            Token::SystemVar(s) => TokenView::SystemVar(s@),
            Token::LParen => TokenView::LParen,
            Token::RParen => TokenView::RParen,
            Token::Comma => TokenView::Comma,
            Token::Dot => TokenView::Dot,
            Token::Semicolon => TokenView::Semicolon,
            Token::Eq => TokenView::Eq,
            Token::Spaceship => TokenView::Spaceship,
            Token::Lt => TokenView::Lt,
            Token::Le => TokenView::Le,
            Token::Ne => TokenView::Ne,
            Token::Ge => TokenView::Ge,
            Token::Gt => TokenView::Gt,
            Token::ShiftLeft => TokenView::ShiftLeft,
            Token::ShiftRight => TokenView::ShiftRight,
            Token::AmpAmp => TokenView::AmpAmp,
            Token::Arrow => TokenView::Arrow,
            Token::ArrowDouble => TokenView::ArrowDouble,
            Token::Star => TokenView::Star,
            Token::Minus => TokenView::Minus,
            Token::Plus => TokenView::Plus,
            Token::Param => TokenView::Param,
            Token::Other(c) => TokenView::Other(c),
        }
    }
}

/// The text between two backticks.
pub open spec fn ticked(s: Seq<char>) -> Seq<char> {
    seq!['`'] + s + seq!['`']
}

/// How error messages speak of a token.
pub open spec fn description(t: TokenView) -> Seq<char> {
    match t {
        TokenView::Word(w) => ticked(w),
        TokenView::QuotedIdent(s) => "identifier "@ + ticked(s),
        TokenView::Str(_) => "a string literal"@,
        TokenView::Num(n) => "number "@ + ticked(n),
        TokenView::Blob(_) => "a binary literal"@,
        TokenView::SystemVar(n) => ticked("@@"@ + n),
        TokenView::LParen => ticked("("@),
        TokenView::RParen => ticked(")"@),
        TokenView::Comma => ticked(","@),
        TokenView::Dot => ticked("."@),
        TokenView::Semicolon => ticked(";"@),
        TokenView::Eq => ticked("="@),
        TokenView::Spaceship => ticked("<=>"@),
        TokenView::Lt => ticked("<"@),
        TokenView::Le => ticked("<="@),
        TokenView::Ne => ticked("<>"@),
        TokenView::Ge => ticked(">="@),
        TokenView::Gt => ticked(">"@),
        TokenView::ShiftLeft => ticked("<<"@),
        TokenView::ShiftRight => ticked(">>"@),
        TokenView::AmpAmp => ticked("&&"@),
        TokenView::Arrow => ticked("->"@),
        TokenView::ArrowDouble => ticked("->>"@),
        TokenView::Star => ticked("*"@),
        TokenView::Minus => ticked("-"@),
        TokenView::Plus => ticked("+"@),
        TokenView::Param => ticked("?"@),
        TokenView::Other(c) => ticked(seq![c]),
    }
}

/// Text between two backticks.
fn tick(prefix: &str, s: &str) -> (r: String)
    ensures
        r@ == prefix@ + ticked(s@),
{
    let mut out: Vec<char> = Vec::new();
    text::push_text(&mut out, prefix);
    out.push('`');
    text::push_text(&mut out, s);
    out.push('`');
    assert(out@ =~= prefix@ + ticked(s@));
    text::string_of(&out)
}

/// A fixed text between two backticks.
fn tick_mark(s: &str) -> (r: String)
    ensures
        r@ == ticked(s@),
{
    let mut out: Vec<char> = Vec::new();
    out.push('`');
    text::push_text(&mut out, s);
    out.push('`');
    assert(out@ =~= ticked(s@));
    text::string_of(&out)
}

impl Token {
    /// A short description for error messages.
    pub fn describe(&self) -> (r: String)
        ensures
            r@ == description(self@),
    {
        match self {
            Token::Word(w) => tick_mark(w.as_str()),
            Token::QuotedIdent(s) => tick("identifier ", s.as_str()),
            Token::Str(_) => "a string literal".to_string(),
            Token::Num(n) => tick("number ", n.as_str()),
            Token::Blob(_) => "a binary literal".to_string(),
            Token::SystemVar(n) => {
                let mut name: Vec<char> = Vec::new();
                text::push_text(&mut name, "@@");
                text::push_text(&mut name, n.as_str());
                assert(name@ =~= "@@"@ + n@);
                tick_mark(text::string_of(&name).as_str())
            },
            Token::LParen => tick_mark("("),
            Token::RParen => tick_mark(")"),
            Token::Comma => tick_mark(","),
            Token::Dot => tick_mark("."),
            Token::Semicolon => tick_mark(";"),
            Token::Eq => tick_mark("="),
            Token::Spaceship => tick_mark("<=>"),
            Token::Lt => tick_mark("<"),
            Token::Le => tick_mark("<="),
            Token::Ne => tick_mark("<>"),
            Token::Ge => tick_mark(">="),
            Token::Gt => tick_mark(">"),
            Token::ShiftLeft => tick_mark("<<"),
            Token::ShiftRight => tick_mark(">>"),
            Token::AmpAmp => tick_mark("&&"),
            Token::Arrow => tick_mark("->"),
            Token::ArrowDouble => tick_mark("->>"),
            Token::Star => tick_mark("*"),
            Token::Minus => tick_mark("-"),
            Token::Plus => tick_mark("+"),
            Token::Param => tick_mark("?"),
            Token::Other(c) => {
                let mut one: Vec<char> = Vec::new();
                one.push(*c);
                assert(one@ =~= seq![*c]);
                tick_mark(text::string_of(&one).as_str())
            },
        }
    }
}

} // verus!
