use vstd::prelude::*;

verus! {

/// The kinds of token of the route definition language.
///
/// The payload type `S` is `String` for the tokens the lexer produces
/// (`TokenType`) and `Seq<char>` for their mathematical view.
#[derive(Debug, Clone, PartialEq, Eq)]
pub enum TokenKind<S> {
    /// `route`
    Route,
    /// `val`
    Val,
    /// `var`
    Var,
    /// `if`
    If,
    /// `else`
    Else,
    /// a double-quoted string literal with its escapes resolved
    String(S),
    /// a decimal integer literal
    Number(i64),
    /// an identifier
    Identifier(S),
    /// an HTTP method name (`GET`, `POST`, ...)
    HttpMethod(S),
    /// an opening brace
    LBrace,
    /// a closing brace
    RBrace,
    /// an opening parenthesis
    LParen,
    /// a closing parenthesis
    RParen,
    /// an opening square bracket
    LBracket,
    /// a closing square bracket
    RBracket,
    /// `;`
    Semicolon,
    /// `.`
    Dot,
    /// `,`
    Comma,
    /// `=`
    Equals,
    /// `==`
    DoubleEquals,
    /// `!=`
    NotEquals,
    /// a comment (its text)
    Comment(S),
    /// the end of the input
    EOF,
    /// `tls`
    Tls,
    /// `enabled`
    Enabled,
    /// `cert_path`
    CertPath,
    /// `key_path`
    KeyPath,
    /// `?`
    TryOperator,
    /// `!!`
    UnwrapOperator,
    /// `onError`
    OnError,
    /// `global_error_handler`
    GlobalErrorHandler,
    /// `config`
    Config,
    /// `type`
    TypeName,
    /// `host`
    Host,
    /// `port`
    Port,
    /// `+`
    Concatenation,
    /// `+=`
    PlusEqual,
    /// `import`
    Import,
    /// `as`
    As,
    /// `::`
    DoubleColon,
    /// `/` at the very end of the input
    Divide,
    /// `/=`
    DivideEqual,
    /// `*`
    Multiply,
    /// `*=`
    MultiplyEqual,
    /// `-`
    Substruct,
    /// `-=`
    SubstructEqual,
    /// `^`
    Power,
    /// `^=`
    PowerEqual,
    /// `&&`
    LogicalAnd,
    /// `||`
    LogicalOr,
    /// `for`
    For,
    /// `while`
    While,
    /// `in`
    In,
}

/// A token kind as the lexer produces it.
pub type TokenType = TokenKind<String>;

/// The mathematical view of a token kind.
pub type SpecTokenType = TokenKind<Seq<char>>;

/// The variant number of a token kind: two kinds have the same number
/// exactly when they are the same variant, whatever their payloads.
pub open spec fn kind_tag<S>(t: TokenKind<S>) -> u8 {
    match t {
        TokenKind::Route => 0u8,
        TokenKind::Val => 1u8,
        TokenKind::Var => 2u8,
        TokenKind::If => 3u8,
        TokenKind::Else => 4u8,
        TokenKind::String(..) => 5u8,
        TokenKind::Number(..) => 6u8,
        TokenKind::Identifier(..) => 7u8,
        TokenKind::HttpMethod(..) => 8u8,
        TokenKind::LBrace => 9u8,
        TokenKind::RBrace => 10u8,
        TokenKind::LParen => 11u8,
        TokenKind::RParen => 12u8,
        TokenKind::LBracket => 13u8,
        TokenKind::RBracket => 14u8,
        TokenKind::Semicolon => 15u8,
        TokenKind::Dot => 16u8,
        TokenKind::Comma => 17u8,
        TokenKind::Equals => 18u8,
        TokenKind::DoubleEquals => 19u8,
        TokenKind::NotEquals => 20u8,
        TokenKind::Comment(..) => 21u8,
        TokenKind::EOF => 22u8,
        TokenKind::Tls => 23u8,
        TokenKind::Enabled => 24u8,
        TokenKind::CertPath => 25u8,
        TokenKind::KeyPath => 26u8,
        TokenKind::TryOperator => 27u8,
        TokenKind::UnwrapOperator => 28u8,
        TokenKind::OnError => 29u8,
        TokenKind::GlobalErrorHandler => 30u8,
        TokenKind::Config => 31u8,
        TokenKind::TypeName => 32u8,
        TokenKind::Host => 33u8,
        TokenKind::Port => 34u8,
        TokenKind::Concatenation => 35u8,
        TokenKind::PlusEqual => 36u8,
        TokenKind::Import => 37u8,
        TokenKind::As => 38u8,
        TokenKind::DoubleColon => 39u8,
        TokenKind::Divide => 40u8,
        TokenKind::DivideEqual => 41u8,
        TokenKind::Multiply => 42u8,
        TokenKind::MultiplyEqual => 43u8,
        TokenKind::Substruct => 44u8,
        TokenKind::SubstructEqual => 45u8,
        TokenKind::Power => 46u8,
        TokenKind::PowerEqual => 47u8,
        TokenKind::LogicalAnd => 48u8,
        TokenKind::LogicalOr => 49u8,
        TokenKind::For => 50u8,
        TokenKind::While => 51u8,
        TokenKind::In => 52u8,
    }
}

impl View for TokenKind<String> {
    type V = TokenKind<Seq<char>>;

    open spec fn view(&self) -> TokenKind<Seq<char>> {
        match self {
            TokenKind::Route => TokenKind::Route,
            TokenKind::Val => TokenKind::Val,
            TokenKind::Var => TokenKind::Var,
            TokenKind::If => TokenKind::If,
            TokenKind::Else => TokenKind::Else,
            TokenKind::String(s) => TokenKind::String(s@),
            TokenKind::Number(n) => TokenKind::Number(*n),
            TokenKind::Identifier(s) => TokenKind::Identifier(s@),
            TokenKind::HttpMethod(s) => TokenKind::HttpMethod(s@),
            TokenKind::LBrace => TokenKind::LBrace,
            TokenKind::RBrace => TokenKind::RBrace,
            TokenKind::LParen => TokenKind::LParen,
            TokenKind::RParen => TokenKind::RParen,
            TokenKind::LBracket => TokenKind::LBracket,
            TokenKind::RBracket => TokenKind::RBracket,
            TokenKind::Semicolon => TokenKind::Semicolon,
            TokenKind::Dot => TokenKind::Dot,
            TokenKind::Comma => TokenKind::Comma,
            TokenKind::Equals => TokenKind::Equals,
            TokenKind::DoubleEquals => TokenKind::DoubleEquals,
            TokenKind::NotEquals => TokenKind::NotEquals,
            TokenKind::Comment(s) => TokenKind::Comment(s@),
            TokenKind::EOF => TokenKind::EOF,
            TokenKind::Tls => TokenKind::Tls,
            TokenKind::Enabled => TokenKind::Enabled,
            TokenKind::CertPath => TokenKind::CertPath,
            TokenKind::KeyPath => TokenKind::KeyPath,
            TokenKind::TryOperator => TokenKind::TryOperator,
            TokenKind::UnwrapOperator => TokenKind::UnwrapOperator,
            TokenKind::OnError => TokenKind::OnError,
            TokenKind::GlobalErrorHandler => TokenKind::GlobalErrorHandler,
            TokenKind::Config => TokenKind::Config,
            TokenKind::TypeName => TokenKind::TypeName,
            TokenKind::Host => TokenKind::Host,
            TokenKind::Port => TokenKind::Port,
            TokenKind::Concatenation => TokenKind::Concatenation,
            TokenKind::PlusEqual => TokenKind::PlusEqual,
            TokenKind::Import => TokenKind::Import,
            TokenKind::As => TokenKind::As,
            TokenKind::DoubleColon => TokenKind::DoubleColon,
            TokenKind::Divide => TokenKind::Divide,
            TokenKind::DivideEqual => TokenKind::DivideEqual,
            TokenKind::Multiply => TokenKind::Multiply,
            TokenKind::MultiplyEqual => TokenKind::MultiplyEqual,
            TokenKind::Substruct => TokenKind::Substruct,
            TokenKind::SubstructEqual => TokenKind::SubstructEqual,
            TokenKind::Power => TokenKind::Power,
            TokenKind::PowerEqual => TokenKind::PowerEqual,
            TokenKind::LogicalAnd => TokenKind::LogicalAnd,
            TokenKind::LogicalOr => TokenKind::LogicalOr,
            TokenKind::For => TokenKind::For,
            TokenKind::While => TokenKind::While,
            TokenKind::In => TokenKind::In,
        }
    }
}

impl<S> TokenKind<S> {
    /// The variant number of this kind (see `kind_tag`).
    pub fn tag(&self) -> (r: u8)
        ensures
            r == kind_tag(*self),
    {
        match self {
            TokenKind::Route => 0,
            TokenKind::Val => 1,
            TokenKind::Var => 2,
            TokenKind::If => 3,
            TokenKind::Else => 4,
            TokenKind::String(..) => 5,
            TokenKind::Number(..) => 6,
            TokenKind::Identifier(..) => 7,
            TokenKind::HttpMethod(..) => 8,
            TokenKind::LBrace => 9,
            TokenKind::RBrace => 10,
            TokenKind::LParen => 11,
            TokenKind::RParen => 12,
            TokenKind::LBracket => 13,
            TokenKind::RBracket => 14,
            TokenKind::Semicolon => 15,
            TokenKind::Dot => 16,
            TokenKind::Comma => 17,
            TokenKind::Equals => 18,
            TokenKind::DoubleEquals => 19,
            TokenKind::NotEquals => 20,
            TokenKind::Comment(..) => 21,
            TokenKind::EOF => 22,
            TokenKind::Tls => 23,
            TokenKind::Enabled => 24,
            TokenKind::CertPath => 25,
            TokenKind::KeyPath => 26,
            TokenKind::TryOperator => 27,
            TokenKind::UnwrapOperator => 28,
            TokenKind::OnError => 29,
            TokenKind::GlobalErrorHandler => 30,
            TokenKind::Config => 31,
            TokenKind::TypeName => 32,
            TokenKind::Host => 33,
            TokenKind::Port => 34,
            TokenKind::Concatenation => 35,
            TokenKind::PlusEqual => 36,
            TokenKind::Import => 37,
            TokenKind::As => 38,
            TokenKind::DoubleColon => 39,
            TokenKind::Divide => 40,
            TokenKind::DivideEqual => 41,
            TokenKind::Multiply => 42,
            TokenKind::MultiplyEqual => 43,
            TokenKind::Substruct => 44,
            TokenKind::SubstructEqual => 45,
            TokenKind::Power => 46,
            TokenKind::PowerEqual => 47,
            TokenKind::LogicalAnd => 48,
            TokenKind::LogicalOr => 49,
            TokenKind::For => 50,
            TokenKind::While => 51,
            TokenKind::In => 52,
        }
    }

    /// Whether `self` and `other` are the same variant, payloads ignored.
    pub fn same_kind(&self, other: &TokenKind<S>) -> (r: bool)
        ensures
            r == (kind_tag(*self) == kind_tag(*other)),
    {
        self.tag() == other.tag()
    }
}

} // verus!

verus! {

/// A token together with the line and column (both counted from 1) at
/// which it starts.
#[derive(Debug, Clone)]
pub struct Token {
    pub token_type: TokenType,
    pub line: usize,
    pub column: usize,
}

/// The mathematical view of a token.
pub struct SpecToken {
    pub kind: SpecTokenType,
    pub line: int,
    pub column: int,
}

impl View for Token {
    type V = SpecToken;

    open spec fn view(&self) -> SpecToken {
        SpecToken { kind: self.token_type@, line: self.line as int, column: self.column as int }
    }
}

/// The views of a sequence of tokens.
pub open spec fn tokens_view(ts: Seq<Token>) -> Seq<SpecToken> {
    ts.map_values(|t: Token| t@)
}

/// Taking the view of a token kind keeps its variant.
pub proof fn lemma_view_keeps_tag(t: TokenType)
    ensures
        kind_tag(t@) == kind_tag(t),
{
}

impl TokenKind<String> {
    /// A copy of this token kind with the same view.
    pub fn duplicate(&self) -> (r: TokenType)
        ensures
            r@ == self@,
    {
        match self {
            TokenKind::String(s) => TokenKind::String(s.clone()),
            TokenKind::Identifier(s) => TokenKind::Identifier(s.clone()),
            TokenKind::HttpMethod(s) => TokenKind::HttpMethod(s.clone()),
            TokenKind::Comment(s) => TokenKind::Comment(s.clone()),
            TokenKind::Number(n) => TokenKind::Number(*n),
            TokenKind::Route => TokenKind::Route,
            TokenKind::Val => TokenKind::Val,
            TokenKind::Var => TokenKind::Var,
            TokenKind::If => TokenKind::If,
            TokenKind::Else => TokenKind::Else,
            TokenKind::LBrace => TokenKind::LBrace,
            TokenKind::RBrace => TokenKind::RBrace,
            TokenKind::LParen => TokenKind::LParen,
            TokenKind::RParen => TokenKind::RParen,
            TokenKind::LBracket => TokenKind::LBracket,
            TokenKind::RBracket => TokenKind::RBracket,
            TokenKind::Semicolon => TokenKind::Semicolon,
            TokenKind::Dot => TokenKind::Dot,
            TokenKind::Comma => TokenKind::Comma,
            TokenKind::Equals => TokenKind::Equals,
            TokenKind::DoubleEquals => TokenKind::DoubleEquals,
            TokenKind::NotEquals => TokenKind::NotEquals,
            TokenKind::EOF => TokenKind::EOF,
            TokenKind::Tls => TokenKind::Tls,
            TokenKind::Enabled => TokenKind::Enabled,
            TokenKind::CertPath => TokenKind::CertPath,
            TokenKind::KeyPath => TokenKind::KeyPath,
            TokenKind::TryOperator => TokenKind::TryOperator,
            TokenKind::UnwrapOperator => TokenKind::UnwrapOperator,
            TokenKind::OnError => TokenKind::OnError,
            TokenKind::GlobalErrorHandler => TokenKind::GlobalErrorHandler,
            TokenKind::Config => TokenKind::Config,
            TokenKind::TypeName => TokenKind::TypeName,
            TokenKind::Host => TokenKind::Host,
            TokenKind::Port => TokenKind::Port,
            TokenKind::Concatenation => TokenKind::Concatenation,
            TokenKind::PlusEqual => TokenKind::PlusEqual,
            TokenKind::Import => TokenKind::Import,
            TokenKind::As => TokenKind::As,
            TokenKind::DoubleColon => TokenKind::DoubleColon,
            TokenKind::Divide => TokenKind::Divide,
            TokenKind::DivideEqual => TokenKind::DivideEqual,
            TokenKind::Multiply => TokenKind::Multiply,
            TokenKind::MultiplyEqual => TokenKind::MultiplyEqual,
            TokenKind::Substruct => TokenKind::Substruct,
            TokenKind::SubstructEqual => TokenKind::SubstructEqual,
            TokenKind::Power => TokenKind::Power,
            TokenKind::PowerEqual => TokenKind::PowerEqual,
            TokenKind::LogicalAnd => TokenKind::LogicalAnd,
            TokenKind::LogicalOr => TokenKind::LogicalOr,
            TokenKind::For => TokenKind::For,
            TokenKind::While => TokenKind::While,
            TokenKind::In => TokenKind::In,
        }
    }
}

/// What the derived `Debug` formatting writes for a token kind.
pub uninterp spec fn token_kind_debug(k: SpecTokenType) -> Seq<char>;

/// Formats a token kind with its derived `Debug` formatting
/// (`format!("{:?}")`); the result is the named text of its view.
#[verifier::external_body]
pub(crate) fn kind_debug(k: &TokenType) -> (r: String)
    ensures
        r@ == token_kind_debug(k@),
{
    format!("{:?}", k)
}

} // verus!
