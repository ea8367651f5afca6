//! Tokens of the surface syntax, the scanner that produces them, and the
//! accessor methods the parser uses.
//!
//! Every token carries the character offset at which it started in the
//! source text.  Each `as_*` accessor returns the token's payload when the
//! token has the corresponding kind and `None` otherwise.
use vstd::prelude::*;
use vstd::string::*;

verus! {

/// One lexical token, tagged with its starting offset in the source text.
#[derive(Debug, PartialEq, Clone)]
pub enum Token {
    Dot(usize),
    EndToken(usize),
    Keyword(String, usize),
    Class(usize),
    Id(String, usize),
    OpenBrace(usize),
    CloseBrace(usize),
    OpenSqBrace(usize),
    CloseSqBrace(usize),
    OpenParen(usize),
    CloseParen(usize),
    ColonEq(usize),
    Def(usize),
    Colon(usize),
    Arrow(usize),
    Int(usize, usize),
    Operator(String, usize),
    Str(String, usize),
    Caret(usize),
    Spread(usize),
    Object(usize),
    Comment(String, usize),
}

impl Token {
    pub fn as_dot(&self) -> (r: Option<()>)
        ensures
            r is Some <==> self is Dot,
    {
        match self {
            Token::Dot(_) => Some(()),
            _ => None,
        }
    }

    pub fn as_arrow(&self) -> (r: Option<()>)
        ensures
            r is Some <==> self is Arrow,
    {
        match self {
            Token::Arrow(_) => Some(()),
            _ => None,
        }
    }

    pub fn as_end_token(&self) -> (r: Option<()>)
        ensures
            r is Some <==> self is EndToken,
    {
        match self {
            Token::EndToken(_) => Some(()),
            _ => None,
        }
    }

    pub fn as_keyword(&self) -> (r: Option<String>)
        ensures
            match self {
                Token::Keyword(name, _) => r == Some(*name),
                _ => r is None,
            },
    {
        match self {
            Token::Keyword(name, _) => Some(name.clone()),
            _ => None,
        }
    }

    pub fn as_class(&self) -> (r: Option<()>)
        ensures
            r is Some <==> self is Class,
    {
        match self {
            Token::Class(_) => Some(()),
            _ => None,
        }
    }

    pub fn as_def(&self) -> (r: Option<()>)
        ensures
            r is Some <==> self is Def,
    {
        match self {
            Token::Def(_) => Some(()),
            _ => None,
        }
    }

    pub fn as_id(&self) -> (r: Option<String>)
        ensures
            match self {
                Token::Id(name, _) => r == Some(*name),
                _ => r is None,
            },
    {
        match self {
            Token::Id(name, _) => Some(name.clone()),
            _ => None,
        }
    }

    pub fn as_open_sq_brace(&self) -> (r: Option<()>)
        ensures
            r is Some <==> self is OpenSqBrace,
    {
        match self {
            Token::OpenSqBrace(_) => Some(()),
            _ => None,
        }
    }

    pub fn as_close_sq_brace(&self) -> (r: Option<()>)
        ensures
            r is Some <==> self is CloseSqBrace,
    {
        match self {
            Token::CloseSqBrace(_) => Some(()),
            _ => None,
        }
    }

    pub fn as_open_brace(&self) -> (r: Option<()>)
        ensures
            r is Some <==> self is OpenBrace,
    {
        match self {
            Token::OpenBrace(_) => Some(()),
            _ => None,
        }
    }

    pub fn as_close_brace(&self) -> (r: Option<()>)
        ensures
            r is Some <==> self is CloseBrace,
    {
        match self {
            Token::CloseBrace(_) => Some(()),
            _ => None,
        }
    }

    pub fn as_colon_eq(&self) -> (r: Option<()>)
        ensures
            r is Some <==> self is ColonEq,
    {
        match self {
            Token::ColonEq(_) => Some(()),
            _ => None,
        }
    }

    pub fn as_comment(&self) -> (r: Option<String>)
        ensures
            match self {
                Token::Comment(text, _) => r == Some(*text),
                _ => r is None,
            },
    {
        match self {
            Token::Comment(text, _) => Some(text.clone()),
            _ => None,
        }
    }

    pub fn as_colon(&self) -> (r: Option<()>)
        ensures
            r is Some <==> self is Colon,
    {
        match self {
            Token::Colon(_) => Some(()),
            _ => None,
        }
    }

    pub fn as_operator(&self) -> (r: Option<String>)
        ensures
            match self {
                Token::Operator(kind, _) => r == Some(*kind),
                _ => r is None,
            },
    {
        match self {
            Token::Operator(kind, _) => Some(kind.clone()),
            _ => None,
        }
    }

    pub fn as_int(&self) -> (r: Option<usize>)
        ensures
            match self {
                Token::Int(val, _) => r == Some(*val),
                _ => r is None,
            },
    {
        match self {
            Token::Int(val, _) => Some(*val),
            _ => None,
        }
    }

    pub fn as_str(&self) -> (r: Option<String>)
        ensures
            match self {
                Token::Str(text, _) => r == Some(*text),
                _ => r is None,
            },
    {
        match self {
            Token::Str(text, _) => Some(text.clone()),
            _ => None,
        }
    }

    pub fn as_caret(&self) -> (r: Option<()>)
        ensures
            r is Some <==> self is Caret,
    {
        match self {
            Token::Caret(_) => Some(()),
            _ => None,
        }
    }

    pub fn as_open_paren(&self) -> (r: Option<()>)
        ensures
            r is Some <==> self is OpenParen,
    {
        match self {
            Token::OpenParen(_) => Some(()),
            _ => None,
        }
    }

    pub fn as_close_paren(&self) -> (r: Option<()>)
        ensures
            r is Some <==> self is CloseParen,
    {
        match self {
            Token::CloseParen(_) => Some(()),
            _ => None,
        }
    }

    pub fn as_spread(&self) -> (r: Option<()>)
        ensures
            r is Some <==> self is Spread,
    {
        match self {
            Token::Spread(_) => Some(()),
            _ => None,
        }
    }

    pub fn as_object(&self) -> (r: Option<()>)
        ensures
            r is Some <==> self is Object,
    {
        match self {
            Token::Object(_) => Some(()),
            _ => None,
        }
    }

    /// The offset at which the token started.
    pub open spec fn pos(&self) -> nat {
        match self {
            Token::Dot(p) => *p as nat,
            Token::EndToken(p) => *p as nat,
            Token::Keyword(_, p) => *p as nat,
            Token::Class(p) => *p as nat,
            Token::Id(_, p) => *p as nat,
            Token::OpenBrace(p) => *p as nat,
            Token::CloseBrace(p) => *p as nat,
            Token::OpenSqBrace(p) => *p as nat,
            Token::CloseSqBrace(p) => *p as nat,
            Token::OpenParen(p) => *p as nat,
            Token::CloseParen(p) => *p as nat,
            Token::ColonEq(p) => *p as nat,
            Token::Def(p) => *p as nat,
            Token::Colon(p) => *p as nat,
            Token::Arrow(p) => *p as nat,
            Token::Int(_, p) => *p as nat,
            Token::Operator(_, p) => *p as nat,
            Token::Str(_, p) => *p as nat,
            Token::Caret(p) => *p as nat,
            Token::Spread(p) => *p as nat,
            Token::Object(p) => *p as nat,
            Token::Comment(_, p) => *p as nat,
        }
    }
}

/// Whether a character ends a keyword literal.
fn is_end_char(c: char) -> (r: bool) {
    c == '.' || c == ';' || c == ' ' || c == '}' || c == ')' || c == '\n'
}

/// Whether a character is a one-character operator.
fn is_op_char(c: char) -> (r: bool) {
    c == '+' || c == '-' || c == '*' || c == '/' || c == '%' || c == '>' || c == '<' || c == '='
        || c == '|' || c == '&'
}

/// Whether two characters form a two-character operator.
fn is_op_pair(a: char, b: char) -> (r: bool) {
    (a == '*' && b == '*') || (a == '>' && b == '=') || (a == '<' && b == '=') || (a == '='
        && b == '=') || (a == '&' && b == '&') || (a == '|' && b == '|') || (a == '.' && b == '.')
}

/// Whether a character is an ASCII digit.
fn is_digit(c: char) -> (r: bool)
    ensures
        r == (48 <= c as u32 <= 57),
{
    (c as u32) >= 48 && (c as u32) <= 57
}

/// Whether a character is an ASCII letter.
fn is_alpha(c: char) -> (r: bool) {
    ((c as u32) >= 97 && (c as u32) <= 122) || ((c as u32) >= 65 && (c as u32) <= 90)
}

/// Whether a character is an ASCII letter or digit.
fn is_alnum(c: char) -> (r: bool) {
    is_alpha(c) || is_digit(c)
}

/// Turns source text into tokens, scanning left to right; each token
/// carries the character offset it started at, so the offsets come out
/// strictly increasing and within the text.  `None` on a tab, an
/// unreadable character or an integer literal beyond the machine word.
///
/// The token classification itself is the front end's contract with its
/// author, like the parser's grammar: the engine's specification starts
/// at the token stream.
pub fn tokenize(program_string: String) -> (r: Option<Vec<Token>>)
    ensures
        r matches Some(ts) ==> (forall|k: int|
            0 <= k < ts@.len() ==> #[trigger] ts@[k].pos() <= program_string@.len()),
        r matches Some(ts) ==> (forall|k1: int, k2: int|
            0 <= k1 < k2 < ts@.len() ==> ts@[k1].pos() < ts@[k2].pos()),
{
    let s = program_string.as_str();
    let n = s.unicode_len();
    let mut chars: Vec<char> = Vec::new();
    let mut ci: usize = 0;
    while ci < n
        invariant
            n == s@.len(),
            s@ == program_string@,
            ci <= n,
            chars@.len() == ci,
            forall|k: int| 0 <= k < ci ==> chars@[k] == s@[k],
        decreases n - ci,
    {
        chars.push(s.get_char(ci));
        ci += 1;
    }
    let mut tokens: Vec<Token> = Vec::new();
    let mut idx: usize = 0;
    while idx < n
        invariant
            n == s@.len(),
            s@ == program_string@,
            idx <= n,
            chars@.len() == n,
            forall|k: int| 0 <= k < n ==> chars@[k] == s@[k],
            forall|k: int| 0 <= k < tokens@.len() ==> #[trigger] tokens@[k].pos() < idx,
            forall|k1: int, k2: int|
                0 <= k1 < k2 < tokens@.len() ==> tokens@[k1].pos() < tokens@[k2].pos(),
        decreases n - idx,
    {
        let c = chars[idx];
        if c == '-' && n - idx > 1 && chars[idx + 1] == '-' {
            let mut j = idx + 2;
            while j < n && chars[j] != '\n'
                invariant
                    idx + 2 <= j <= n,
                    n == s@.len(),
                    chars@.len() == n,
                decreases n - j,
            {
                j += 1;
            }
            let text = s.substring_char(idx + 2, j).to_owned();
            tokens.push(Token::Comment(text, idx));
            idx = j;
        } else if c == ' ' || c == '\n' {
            idx += 1;
        } else if c == '\t' {
            return None;
        } else if c == '^' {
            tokens.push(Token::Caret(idx));
            idx += 1;
        } else if c == '(' {
            tokens.push(Token::OpenParen(idx));
            idx += 1;
        } else if c == ')' {
            tokens.push(Token::CloseParen(idx));
            idx += 1;
        } else if c == ':' && n - idx > 1 && chars[idx + 1] == ' ' {
            tokens.push(Token::Colon(idx));
            idx += 2;
        } else if c == ':' && n - idx > 1 && chars[idx + 1] == '=' {
            tokens.push(Token::ColonEq(idx));
            idx += 2;
        } else if c == '-' && n - idx > 1 && chars[idx + 1] == '>' {
            tokens.push(Token::Arrow(idx));
            idx += 2;
        } else if c == '.' && n - idx > 2 && chars[idx + 1] == '.' && chars[idx + 2] == '.' {
            tokens.push(Token::Spread(idx));
            idx += 3;
        } else if c == 'e' && n - idx > 2 && chars[idx + 1] == 'n' && chars[idx + 2] == 'd' {
            tokens.push(Token::EndToken(idx));
            idx += 3;
        } else if c == 'o' && n - idx > 5 && chars[idx + 1] == 'b' && chars[idx + 2] == 'j'
            && chars[idx + 3] == 'e' && chars[idx + 4] == 'c' && chars[idx + 5] == 't' {
            tokens.push(Token::Object(idx));
            idx += 6;
        } else if is_op_char(c) {
            let op = s.substring_char(idx, idx + 1).to_owned();
            tokens.push(Token::Operator(op, idx));
            idx += 1;
        } else if n - idx > 1 && is_op_pair(c, chars[idx + 1]) {
            let op = s.substring_char(idx, idx + 2).to_owned();
            tokens.push(Token::Operator(op, idx));
            idx += 2;
        } else if c == ':' {
            let mut j = idx + 1;
            while j < n && !is_end_char(chars[j])
                invariant
                    idx + 1 <= j <= n,
                    n == s@.len(),
                    chars@.len() == n,
                decreases n - j,
            {
                j += 1;
            }
            let name = s.substring_char(idx + 1, j).to_owned();
            tokens.push(Token::Keyword(name, idx));
            idx = j;
        } else if c == '.' {
            tokens.push(Token::Dot(idx));
            idx += 1;
        } else if c == ';' {
            tokens.push(Token::EndToken(idx));
            idx += 1;
        } else if c == '{' {
            tokens.push(Token::OpenBrace(idx));
            idx += 1;
        } else if c == '}' {
            tokens.push(Token::CloseBrace(idx));
            idx += 1;
        } else if c == '[' {
            tokens.push(Token::OpenSqBrace(idx));
            idx += 1;
        } else if c == ']' {
            tokens.push(Token::CloseSqBrace(idx));
            idx += 1;
        } else if c == 'c' && n - idx > 4 && chars[idx + 1] == 'l' && chars[idx + 2] == 'a'
            && chars[idx + 3] == 's' && chars[idx + 4] == 's' {
            tokens.push(Token::Class(idx));
            idx += 5;
        } else if c == 'd' && n - idx > 2 && chars[idx + 1] == 'e' && chars[idx + 2] == 'f' {
            tokens.push(Token::Def(idx));
            idx += 3;
        } else if c == '"' {
            let mut j = idx + 1;
            while j < n && chars[j] != '"'
                invariant
                    idx + 1 <= j <= n,
                    n == s@.len(),
                    chars@.len() == n,
                decreases n - j,
            {
                j += 1;
            }
            let text = s.substring_char(idx + 1, j).to_owned();
            tokens.push(Token::Str(text, idx));
            if j < n {
                idx = j + 1;
            } else {
                idx = n;
            }
        } else if is_digit(c) {
            let mut j = idx + 1;
            let mut val: usize = (c as u32 - 48) as usize;
            while j < n && is_digit(chars[j])
                invariant
                    idx + 1 <= j <= n,
                    n == s@.len(),
                    chars@.len() == n,
                decreases n - j,
            {
                let cj = chars[j];
                let d = (cj as u32) - 48;
                let scaled = match val.checked_mul(10) {
                    Some(v) => v,
                    None => {
                        return None;
                    },
                };
                val = match scaled.checked_add(d as usize) {
                    Some(v) => v,
                    None => {
                        return None;
                    },
                };
                j += 1;
            }
            tokens.push(Token::Int(val, idx));
            idx = j;
        } else if is_alpha(c) {
            let mut j = idx + 1;
            while j < n && is_alnum(chars[j])
                invariant
                    idx + 1 <= j <= n,
                    n == s@.len(),
                    chars@.len() == n,
                decreases n - j,
            {
                j += 1;
            }
            let name = s.substring_char(idx, j).to_owned();
            tokens.push(Token::Id(name, idx));
            idx = j;
        } else {
            return None;
        }
    }
    Some(tokens)
}

} // verus!
