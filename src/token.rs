use vstd::prelude::*;

verus! {

/// The closed set of token kinds of the language.
#[allow(non_camel_case_types)]
#[derive(Clone, Copy, Debug, PartialEq, Eq, Structural)]
pub enum TokenType {
    LEFT_PAREN,
    RIGHT_PAREN,
    LEFT_BRACE,
    RIGHT_BRACE,
    COMMA,
    DOT,
    MINUS,
    PLUS,
    SEMICOLON,
    SLASH,
    STAR,
    BANG,
    BANG_EQUAL,
    EQUAL,
    EQUAL_EQUAL,
    GREATER,
    GREATER_EQUAL,
    LESS,
    LESS_EQUAL,
    IDENTIFIER,
    STRING,
    NUMBER,
    AND,
    CLASS,
    ELSE,
    FALSE,
    FUN,
    FOR,
    IF,
    NIL,
    OR,
    PRINT,
    RETURN,
    SUPER,
    THIS,
    TRUE,
    VAR,
    WHILE,
    EOF,
}

/// The payload of a literal token. A number is kept as its decimal text,
/// exactly as written in the source (digits, optionally a point and digits).
#[derive(Clone, Debug)]
pub enum Literal {
    String(String),
    Number(String),
}

/// Mathematical model of a literal payload.
pub enum LiteralModel {
    Text(Seq<char>),
    Number(Seq<char>),
}

impl Literal {
    pub open spec fn model(&self) -> LiteralModel {
        match self {
            Literal::String(s) => LiteralModel::Text(s@),
            Literal::Number(s) => LiteralModel::Number(s@),
        }
    }

    /// The text of the payload: the string's contents or the number's digits.
    pub fn text(&self) -> (r: String)
        ensures
            r@ == match self.model() {
                LiteralModel::Text(s) => s,
                LiteralModel::Number(s) => s,
            },
    {
        match self {
            Literal::String(s) => s.clone(),
            Literal::Number(s) => s.clone(),
        }
    }

    pub fn copied(&self) -> (r: Literal)
        ensures
            r.model() == self.model(),
    {
        match self {
            Literal::String(s) => Literal::String(s.clone()),
            Literal::Number(s) => Literal::Number(s.clone()),
        }
    }
}

/// Mathematical model of a token.
pub struct TokenModel {
    pub kind: TokenType,
    pub lexeme: Seq<char>,
    pub line: nat,
    pub literal: Option<LiteralModel>,
}

/// The one spelling of a punctuation or operator kind (the end-of-file token has an
/// empty lexeme); `None` for kinds whose lexemes vary or are reserved words.
pub open spec fn spelling(k: TokenType) -> Option<Seq<char>> {
    match k {
        TokenType::LEFT_PAREN => Some(seq!['(']),
        TokenType::RIGHT_PAREN => Some(seq![')']),
        TokenType::LEFT_BRACE => Some(seq!['{']),
        TokenType::RIGHT_BRACE => Some(seq!['}']),
        TokenType::COMMA => Some(seq![',']),
        TokenType::DOT => Some(seq!['.']),
        TokenType::MINUS => Some(seq!['-']),
        TokenType::PLUS => Some(seq!['+']),
        TokenType::SEMICOLON => Some(seq![';']),
        TokenType::SLASH => Some(seq!['/']),
        TokenType::STAR => Some(seq!['*']),
        TokenType::BANG => Some(seq!['!']),
        TokenType::BANG_EQUAL => Some(seq!['!', '=']),
        TokenType::EQUAL => Some(seq!['=']),
        TokenType::EQUAL_EQUAL => Some(seq!['=', '=']),
        TokenType::GREATER => Some(seq!['>']),
        TokenType::GREATER_EQUAL => Some(seq!['>', '=']),
        TokenType::LESS => Some(seq!['<']),
        TokenType::LESS_EQUAL => Some(seq!['<', '=']),
        TokenType::EOF => Some(Seq::empty()),
        _ => None,
    }
}

/// Whether the lexeme of `t` is the spelling of its kind, where the kind has one.
pub open spec fn spelled_right(t: TokenModel) -> bool {
    match spelling(t.kind) {
        Some(s) => t.lexeme == s,
        None => true,
    }
}

/// Whether every token of `t` is spelled right.
pub open spec fn well_spelled(t: Seq<TokenModel>) -> bool {
    forall|i: int| 0 <= i < t.len() ==> spelled_right(#[trigger] t[i])
}

/// A classified lexeme with its source line and optional literal payload.
#[derive(Clone, Debug)]
pub struct Token {
    token_type: TokenType,
    lexeme: String,
    line: usize,
    literal: Option<Literal>,
}

pub open spec fn literal_model(l: Option<Literal>) -> Option<LiteralModel> {
    match l {
        Some(v) => Some(v.model()),
        None => None,
    }
}

impl Token {
    pub closed spec fn model(&self) -> TokenModel {
        TokenModel {
            kind: self.token_type,
            lexeme: self.lexeme@,
            line: self.line as nat,
            literal: literal_model(self.literal),
        }
    }

    pub fn new(lexeme: String, token_type: TokenType, line: usize, literal_opt: Option<Literal>) -> (r: Token)
        ensures
            r.model() == (TokenModel {
                kind: token_type,
                lexeme: lexeme@,
                line: line as nat,
                literal: literal_model(literal_opt),
            }),
    {
        Token { token_type, lexeme, line, literal: literal_opt }
    }

    pub fn token_type(&self) -> (r: TokenType)
        ensures
            r == self.model().kind,
    {
        self.token_type
    }

    pub fn lexeme(&self) -> (r: String)
        ensures
            r@ == self.model().lexeme,
    {
        self.lexeme.clone()
    }

    pub fn line(&self) -> (r: usize)
        ensures
            r == self.model().line,
    {
        self.line
    }

    pub fn literal(&self) -> (r: Option<Literal>)
        ensures
            literal_model(r) == self.model().literal,
    {
        match &self.literal {
            Some(l) => Some(l.copied()),
            None => None,
        }
    }

    /// A field-by-field copy with the same model.
    pub fn copied(&self) -> (r: Token)
        ensures
            r.model() == self.model(),
    {
        Token {
            token_type: self.token_type,
            lexeme: self.lexeme.clone(),
            line: self.line,
            literal: self.literal(),
        }
    }
}

} // verus!
