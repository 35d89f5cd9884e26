use vstd::prelude::*;

verus! {

/// The lexical category of a token.
///
/// A number literal carries its digits as written (`123.45`); turning that
/// text into a floating-point value is left to the consumer of the tokens.
#[derive(Debug, PartialEq)]
pub enum TokenType {
    // single-character tokens
    LeftParen,
    RightParen,
    LeftBrace,
    RightBrace,
    Comma,
    Dot,
    Minus,
    Plus,
    Semicolon,
    Slash,
    Star,
    // one or two character tokens
    Bang,
    BangEqual,
    Equal,
    EqualEqual,
    Greater,
    GreaterEqual,
    Less,
    LessEqual,
    // literals
    Identifier(String),
    String(String),
    Number(String),
    // keywords
    And,
    Class,
    Else,
    False,
    Fun,
    For,
    If,
    Nil,
    Or,
    Print,
    Return,
    Super,
    This,
    True,
    Var,
    While,
    // end of input
    Eof,
}

/// The mathematical value of a `TokenType`: payloads as character sequences.
/// Every kind without a payload stands for itself in `Plain`.
pub enum KindModel {
    Plain(TokenType),
    Identifier(Seq<char>),
    Str(Seq<char>),
    Number(Seq<char>),
}

impl View for TokenType {
    type V = KindModel;

    open spec fn view(&self) -> KindModel {
        match self {
            TokenType::Identifier(s) => KindModel::Identifier(s@),
            TokenType::String(s) => KindModel::Str(s@),
            TokenType::Number(s) => KindModel::Number(s@),
            _ => KindModel::Plain(*self),
        }
    }
}

/// The reserved word spelled exactly by `text`, if there is one.
pub open spec fn keyword_of(text: Seq<char>) -> Option<TokenType> {
    if text == "and"@ {
        Some(TokenType::And)
    } else if text == "class"@ {
        Some(TokenType::Class)
    } else if text == "else"@ {
        Some(TokenType::Else)
    } else if text == "false"@ {
        Some(TokenType::False)
    } else if text == "for"@ {
        Some(TokenType::For)
    } else if text == "fun"@ {
        Some(TokenType::Fun)
    } else if text == "if"@ {
        Some(TokenType::If)
    } else if text == "nil"@ {
        Some(TokenType::Nil)
    } else if text == "or"@ {
        Some(TokenType::Or)
    } else if text == "print"@ {
        Some(TokenType::Print)
    } else if text == "return"@ {
        Some(TokenType::Return)
    } else if text == "super"@ {
        Some(TokenType::Super)
    } else if text == "this"@ {
        Some(TokenType::This)
    } else if text == "true"@ {
        Some(TokenType::True)
    } else if text == "var"@ {
        Some(TokenType::Var)
    } else if text == "while"@ {
        Some(TokenType::While)
    } else {
        None
    }
}

/// Whether `text` and `word` hold the same characters.
fn same_text(text: &str, word: &str) -> (r: bool)
    ensures
        r == (text@ == word@),
{
    let n = word.unicode_len();
    if text.unicode_len() != n {
        return false;
    }
    let mut i: usize = 0;
    while i < n
        invariant
            n == word@.len(),
            n == text@.len(),
            i <= n,
            forall|j: int| 0 <= j < i ==> text@[j] == word@[j],
        decreases n - i,
    {
        if text.get_char(i) != word.get_char(i) {
            return false;
        }
        i = i + 1;
    }
    assert(text@ =~= word@);
    true
}

impl TokenType {
    /// The keyword kind spelled exactly (case included) by `text`, or `None`
    /// where `text` is no reserved word.
    pub fn keyword(text: &str) -> (r: Option<TokenType>)
        ensures
            r == keyword_of(text@),
    {
        if same_text(text, "and") {
            Some(TokenType::And)
        } else if same_text(text, "class") {
            Some(TokenType::Class)
        } else if same_text(text, "else") {
            Some(TokenType::Else)
        } else if same_text(text, "false") {
            Some(TokenType::False)
        } else if same_text(text, "for") {
            Some(TokenType::For)
        } else if same_text(text, "fun") {
            Some(TokenType::Fun)
        } else if same_text(text, "if") {
            Some(TokenType::If)
        } else if same_text(text, "nil") {
            Some(TokenType::Nil)
        } else if same_text(text, "or") {
            Some(TokenType::Or)
        } else if same_text(text, "print") {
            Some(TokenType::Print)
        } else if same_text(text, "return") {
            Some(TokenType::Return)
        } else if same_text(text, "super") {
            Some(TokenType::Super)
        } else if same_text(text, "this") {
            Some(TokenType::This)
        } else if same_text(text, "true") {
            Some(TokenType::True)
        } else if same_text(text, "var") {
            Some(TokenType::Var)
        } else if same_text(text, "while") {
            Some(TokenType::While)
        } else {
            None
        }
    }
}

/// The mathematical value of a `Token`.
pub struct TokenModel {
    pub kind: KindModel,
    pub lexeme: Option<Seq<char>>,
    pub line: nat,
}

/// A classified piece of source text: its kind, the text it spans (absent
/// only for the end-of-input marker) and the line on which it starts.
#[derive(Debug)]
pub struct Token {
    token_type: TokenType,
    lexeme: Option<String>,
    line: usize,
}

impl View for Token {
    type V = TokenModel;

    closed spec fn view(&self) -> TokenModel {
        TokenModel {
            kind: self.token_type@,
            lexeme: match &self.lexeme {
                Some(s) => Some(s@),
                None => None,
            },
            line: self.line as nat,
        }
    }
}

impl Token {
    pub fn new(token_type: TokenType, lexeme: Option<String>, line: usize) -> (r: Token)
        ensures
            r@ == (TokenModel {
                kind: token_type@,
                lexeme: match lexeme {
                    Some(s) => Some(s@),
                    None => None,
                },
                line: line as nat,
            }),
    {
        Token { token_type, lexeme, line }
    }

    pub fn token_type(&self) -> (r: &TokenType)
        ensures
            r@ == self@.kind,
    {
        &self.token_type
    }

    pub fn lexeme(&self) -> (r: &Option<String>)
        ensures
            match r {
                Some(s) => self@.lexeme == Some(s@),
                None => self@.lexeme is None,
            },
    {
        &self.lexeme
    }

    pub fn line(&self) -> (r: usize)
        ensures
            r as nat == self@.line,
    {
        self.line
    }
}

} // verus!
