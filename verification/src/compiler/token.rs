//! Tokens: what the scanner produces and the parser consumes.

use crate::compiler::text::same_text;
use vstd::prelude::*;
use vstd::string::*;

verus! {

/// The kinds of token.
#[allow(non_camel_case_types)]
#[derive(Debug, Clone, Copy, PartialEq, Eq, Structural)]
pub enum TokenType {
    // single character tokens
    LPAREN,
    RPAREN,
    LBRACE,
    RBRACE,
    COMMA,
    DOT,
    MINUS,
    PLUS,
    SEMICOLON,
    SLASH,
    STAR,
    QUEST,
    COLON,
    // one or two character tokens
    BANG,
    BANG_EQUAL,
    EQUAL,
    EQUAL_EQUAL,
    GREATER,
    GREATER_EQUAL,
    LESS,
    LESS_EQUAL,
    // literals
    IDENTIFIER,
    STRING,
    NUMBER,
    // keywords
    AND,
    CLASS,
    ELSE,
    FALSE,
    FUN,
    FOR,
    IF,
    NIL,
    OR,
    PRINT,
    RETURN,
    SUPER,
    THIS,
    TRUE,
    VAR,
    WHILE,
    EOF,
}

/// The keyword that `text` spells, if any. Keywords are lower case.
pub open spec fn keyword_type(text: Seq<char>) -> Option<TokenType> {
    if text == "and"@ {
        Some(TokenType::AND)
    }     else if text == "class"@ {
        Some(TokenType::CLASS)
    }     else if text == "else"@ {
        Some(TokenType::ELSE)
    }     else if text == "false"@ {
        Some(TokenType::FALSE)
    }     else if text == "fun"@ {
        Some(TokenType::FUN)
    }     else if text == "for"@ {
        Some(TokenType::FOR)
    }     else if text == "if"@ {
        Some(TokenType::IF)
    }     else if text == "nil"@ {
        Some(TokenType::NIL)
    }     else if text == "or"@ {
        Some(TokenType::OR)
    }     else if text == "print"@ {
        Some(TokenType::PRINT)
    }     else if text == "return"@ {
        Some(TokenType::RETURN)
    }     else if text == "super"@ {
        Some(TokenType::SUPER)
    }     else if text == "this"@ {
        Some(TokenType::THIS)
    }     else if text == "true"@ {
        Some(TokenType::TRUE)
    }     else if text == "var"@ {
        Some(TokenType::VAR)
    }     else if text == "while"@ {
        Some(TokenType::WHILE)
    } else {
        None
    }
}

/// The punctuation token that `text` spells, if any.
pub open spec fn symbol_type(text: Seq<char>) -> Option<TokenType> {
    if text == "("@ {
        Some(TokenType::LPAREN)
    }     else if text == ")"@ {
        Some(TokenType::RPAREN)
    }     else if text == "{"@ {
        Some(TokenType::LBRACE)
    }     else if text == "}"@ {
        Some(TokenType::RBRACE)
    }     else if text == ","@ {
        Some(TokenType::COMMA)
    }     else if text == "."@ {
        Some(TokenType::DOT)
    }     else if text == "-"@ {
        Some(TokenType::MINUS)
    }     else if text == "+"@ {
        Some(TokenType::PLUS)
    }     else if text == ";"@ {
        Some(TokenType::SEMICOLON)
    }     else if text == "/"@ {
        Some(TokenType::SLASH)
    }     else if text == "*"@ {
        Some(TokenType::STAR)
    }     else if text == "!"@ {
        Some(TokenType::BANG)
    }     else if text == "?"@ {
        Some(TokenType::QUEST)
    }     else if text == ":"@ {
        Some(TokenType::COLON)
    }     else if text == "!="@ {
        Some(TokenType::BANG_EQUAL)
    }     else if text == "="@ {
        Some(TokenType::EQUAL)
    }     else if text == "=="@ {
        Some(TokenType::EQUAL_EQUAL)
    }     else if text == ">"@ {
        Some(TokenType::GREATER)
    }     else if text == ">="@ {
        Some(TokenType::GREATER_EQUAL)
    }     else if text == "<"@ {
        Some(TokenType::LESS)
    }     else if text == "<="@ {
        Some(TokenType::LESS_EQUAL)
    } else {
        None
    }
}

/// The token type that `text` spells: a punctuation mark, a keyword or `EOF`.
pub open spec fn spelled_type(text: Seq<char>) -> Option<TokenType> {
    if symbol_type(text) is Some {
        symbol_type(text)
    } else if keyword_type(text) is Some {
        keyword_type(text)
    } else if text == "EOF"@ {
        Some(TokenType::EOF)
    } else {
        None
    }
}

/// The name of a token type, as it is written in the source of this enum.
pub open spec fn kind_name(t: TokenType) -> Seq<char> {
    match t {
        TokenType::LPAREN => "LPAREN"@,
        TokenType::RPAREN => "RPAREN"@,
        TokenType::LBRACE => "LBRACE"@,
        TokenType::RBRACE => "RBRACE"@,
        TokenType::COMMA => "COMMA"@,
        TokenType::DOT => "DOT"@,
        TokenType::MINUS => "MINUS"@,
        TokenType::PLUS => "PLUS"@,
        TokenType::SEMICOLON => "SEMICOLON"@,
        TokenType::SLASH => "SLASH"@,
        TokenType::STAR => "STAR"@,
        TokenType::QUEST => "QUEST"@,
        TokenType::COLON => "COLON"@,
        TokenType::BANG => "BANG"@,
        TokenType::BANG_EQUAL => "BANG_EQUAL"@,
        TokenType::EQUAL => "EQUAL"@,
        TokenType::EQUAL_EQUAL => "EQUAL_EQUAL"@,
        TokenType::GREATER => "GREATER"@,
        TokenType::GREATER_EQUAL => "GREATER_EQUAL"@,
        TokenType::LESS => "LESS"@,
        TokenType::LESS_EQUAL => "LESS_EQUAL"@,
        TokenType::IDENTIFIER => "IDENTIFIER"@,
        TokenType::STRING => "STRING"@,
        TokenType::NUMBER => "NUMBER"@,
        TokenType::AND => "AND"@,
        TokenType::CLASS => "CLASS"@,
        TokenType::ELSE => "ELSE"@,
        TokenType::FALSE => "FALSE"@,
        TokenType::FUN => "FUN"@,
        TokenType::FOR => "FOR"@,
        TokenType::IF => "IF"@,
        TokenType::NIL => "NIL"@,
        TokenType::OR => "OR"@,
        TokenType::PRINT => "PRINT"@,
        TokenType::RETURN => "RETURN"@,
        TokenType::SUPER => "SUPER"@,
        TokenType::THIS => "THIS"@,
        TokenType::TRUE => "TRUE"@,
        TokenType::VAR => "VAR"@,
        TokenType::WHILE => "WHILE"@,
        TokenType::EOF => "EOF"@,
    }
}

impl TokenType {
    /// The keyword that `text` spells, if any.
    pub fn keyword(text: &str) -> (r: Option<TokenType>)
        ensures
            r == keyword_type(text@),
    {
        if same_text(text, "and") {
            Some(TokenType::AND)
        }         else if same_text(text, "class") {
            Some(TokenType::CLASS)
        }         else if same_text(text, "else") {
            Some(TokenType::ELSE)
        }         else if same_text(text, "false") {
            Some(TokenType::FALSE)
        }         else if same_text(text, "fun") {
            Some(TokenType::FUN)
        }         else if same_text(text, "for") {
            Some(TokenType::FOR)
        }         else if same_text(text, "if") {
            Some(TokenType::IF)
        }         else if same_text(text, "nil") {
            Some(TokenType::NIL)
        }         else if same_text(text, "or") {
            Some(TokenType::OR)
        }         else if same_text(text, "print") {
            Some(TokenType::PRINT)
        }         else if same_text(text, "return") {
            Some(TokenType::RETURN)
        }         else if same_text(text, "super") {
            Some(TokenType::SUPER)
        }         else if same_text(text, "this") {
            Some(TokenType::THIS)
        }         else if same_text(text, "true") {
            Some(TokenType::TRUE)
        }         else if same_text(text, "var") {
            Some(TokenType::VAR)
        }         else if same_text(text, "while") {
            Some(TokenType::WHILE)
        } else {
            None
        }
    }

    /// The punctuation token that `text` spells, if any.
    pub fn symbol(text: &str) -> (r: Option<TokenType>)
        ensures
            r == symbol_type(text@),
    {
        if same_text(text, "(") {
            Some(TokenType::LPAREN)
        }         else if same_text(text, ")") {
            Some(TokenType::RPAREN)
        }         else if same_text(text, "{") {
            Some(TokenType::LBRACE)
        }         else if same_text(text, "}") {
            Some(TokenType::RBRACE)
        }         else if same_text(text, ",") {
            Some(TokenType::COMMA)
        }         else if same_text(text, ".") {
            Some(TokenType::DOT)
        }         else if same_text(text, "-") {
            Some(TokenType::MINUS)
        }         else if same_text(text, "+") {
            Some(TokenType::PLUS)
        }         else if same_text(text, ";") {
            Some(TokenType::SEMICOLON)
        }         else if same_text(text, "/") {
            Some(TokenType::SLASH)
        }         else if same_text(text, "*") {
            Some(TokenType::STAR)
        }         else if same_text(text, "!") {
            Some(TokenType::BANG)
        }         else if same_text(text, "?") {
            Some(TokenType::QUEST)
        }         else if same_text(text, ":") {
            Some(TokenType::COLON)
        }         else if same_text(text, "!=") {
            Some(TokenType::BANG_EQUAL)
        }         else if same_text(text, "=") {
            Some(TokenType::EQUAL)
        }         else if same_text(text, "==") {
            Some(TokenType::EQUAL_EQUAL)
        }         else if same_text(text, ">") {
            Some(TokenType::GREATER)
        }         else if same_text(text, ">=") {
            Some(TokenType::GREATER_EQUAL)
        }         else if same_text(text, "<") {
            Some(TokenType::LESS)
        }         else if same_text(text, "<=") {
            Some(TokenType::LESS_EQUAL)
        } else {
            None
        }
    }

    /// Reads a token type from its spelling; `Err` for any other text.
    pub fn from_str(s: &str) -> (r: Result<TokenType, ()>)
        ensures
            r == match spelled_type(s@) {
                Some(t) => Ok::<TokenType, ()>(t),
                None => Err::<TokenType, ()>(()),
            },
    {
        match TokenType::symbol(s) {
            Some(t) => Ok(t),
            None => match TokenType::keyword(s) {
                Some(t) => Ok(t),
                None => if same_text(s, "EOF") {
                    Ok(TokenType::EOF)
                } else {
                    Err(())
                },
            },
        }
    }

    /// The name of this token type.
    pub fn name(&self) -> (r: &'static str)
        ensures
            r@ == kind_name(*self),
    {
        match self {
            TokenType::LPAREN => "LPAREN",
            TokenType::RPAREN => "RPAREN",
            TokenType::LBRACE => "LBRACE",
            TokenType::RBRACE => "RBRACE",
            TokenType::COMMA => "COMMA",
            TokenType::DOT => "DOT",
            TokenType::MINUS => "MINUS",
            TokenType::PLUS => "PLUS",
            TokenType::SEMICOLON => "SEMICOLON",
            TokenType::SLASH => "SLASH",
            TokenType::STAR => "STAR",
            TokenType::QUEST => "QUEST",
            TokenType::COLON => "COLON",
            TokenType::BANG => "BANG",
            TokenType::BANG_EQUAL => "BANG_EQUAL",
            TokenType::EQUAL => "EQUAL",
            TokenType::EQUAL_EQUAL => "EQUAL_EQUAL",
            TokenType::GREATER => "GREATER",
            TokenType::GREATER_EQUAL => "GREATER_EQUAL",
            TokenType::LESS => "LESS",
            TokenType::LESS_EQUAL => "LESS_EQUAL",
            TokenType::IDENTIFIER => "IDENTIFIER",
            TokenType::STRING => "STRING",
            TokenType::NUMBER => "NUMBER",
            TokenType::AND => "AND",
            TokenType::CLASS => "CLASS",
            TokenType::ELSE => "ELSE",
            TokenType::FALSE => "FALSE",
            TokenType::FUN => "FUN",
            TokenType::FOR => "FOR",
            TokenType::IF => "IF",
            TokenType::NIL => "NIL",
            TokenType::OR => "OR",
            TokenType::PRINT => "PRINT",
            TokenType::RETURN => "RETURN",
            TokenType::SUPER => "SUPER",
            TokenType::THIS => "THIS",
            TokenType::TRUE => "TRUE",
            TokenType::VAR => "VAR",
            TokenType::WHILE => "WHILE",
            TokenType::EOF => "EOF",
        }
    }
}

/// A token as plain mathematical data.
pub struct TokenView {
    pub token_type: TokenType,
    pub lexeme: Seq<char>,
    pub line: usize,
    pub literal: Option<Seq<char>>,
}

/// One token of the source text.
#[derive(Debug)]
pub struct Token {
    pub token_type: TokenType,
    pub lexeme: String,
    pub line: usize,
    pub literal: Option<String>,
}

impl View for Token {
    type V = TokenView;

    open spec fn view(&self) -> TokenView {
        TokenView {
            token_type: self.token_type,
            lexeme: self.lexeme@,
            line: self.line,
            literal: match self.literal {
                Some(text) => Some(text@),
                None => None,
            },
        }
    }
}

impl Clone for Token {
    fn clone(&self) -> (res: Self)
        ensures
            res == *self,
    {
        let literal = match &self.literal {
            Some(text) => Some(text.clone()),
            None => None,
        };
        Token { token_type: self.token_type, lexeme: self.lexeme.clone(), line: self.line, literal }
    }
}

/// A list of tokens as plain mathematical data.
pub open spec fn tokens_of(tokens: Seq<Token>) -> Seq<TokenView> {
    Seq::new(tokens.len(), |i: int| tokens[i]@)
}

/// What `Token::to_string` writes: the type's name, the lexeme and the literal
/// (nothing for a token without one), separated by single spaces.
pub open spec fn token_text(t: TokenView) -> Seq<char> {
    kind_name(t.token_type) + seq![' '] + t.lexeme + seq![' '] + match t.literal {
        Some(text) => text,
        None => Seq::<char>::empty(),
    }
}

impl Token {
    /// A token with these parts.
    pub fn new(token_type: TokenType, lexeme: String, line: usize, literal: Option<String>) -> (t:
        Self)
        ensures
            t == (Token { token_type, lexeme, line, literal }),
    {
        Token { token_type, lexeme, line, literal }
    }

    /// The type of the token, its lexeme and its literal, for a person to read.
    pub fn to_string(&self) -> (s: String)
        ensures
            s@ == token_text(self@),
    {
        let mut s = String::from_str(self.token_type.name());
        s.append(" ");
        s.append(self.lexeme.as_str());
        s.append(" ");
        match &self.literal {
            Some(text) => {
                s.append(text.as_str());
            },
            None => {
                assert(s@ + Seq::<char>::empty() =~= s@);
            },
        }
        proof {
            reveal_strlit(" ");
            assert(" "@ =~= seq![' ']);
        }
        s
    }
}

} // verus!
