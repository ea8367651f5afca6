//! A recursive-descent parser from tokens to the syntax tree.
//!
//! The grammar is the front end's contract with its author; the engine's
//! own specification starts at the token stream it is handed.  What is
//! verified here: parsing terminates on every input, never panics, fails
//! with `None` instead of reading past the end, leaves the token stream
//! untouched, and sorts the fields of record literals and record
//! constructors into canonical (name-ascending) order, so that a
//! record-literal pattern lines up with the canonical field order of the
//! instances it is matched against.
use vstd::prelude::*;

use crate::ast::{props_view, Node};
use crate::canon::{sort_props, sorted_fields};
use crate::lexer::Token;

verus! {

/// The parser: a token list and a cursor into it.
pub struct Parser {
    pub idx: usize,
    pub tokens: Vec<Token>,
}

impl Parser {
    /// The cursor never passes one past the end of the tokens.
    pub open spec fn pos_ok(&self) -> bool {
        self.idx <= self.tokens@.len()
    }

    /// Parses every top-level expression; `None` on any syntax error.
    /// On success the whole token stream has been consumed.
    pub fn parse(&mut self) -> (r: Option<Vec<Node>>)
        requires
            old(self).pos_ok(),
        ensures
            final(self).tokens == old(self).tokens,
            final(self).pos_ok(),
            r is Some ==> final(self).idx == final(self).tokens@.len(),
    {
        let mut ast: Vec<Node> = Vec::new();
        while self.idx < self.tokens.len()
            invariant
                self.pos_ok(),
                self.tokens == old(self).tokens,
            decreases self.tokens@.len() - self.idx,
        {
            match self.parse_expr() {
                Some(n) => ast.push(n),
                None => {
                    return None;
                },
            }
        }
        Some(ast)
    }

    /// Parses one full expression, including the end token that closes it.
    fn parse_expr(&mut self) -> (r: Option<Node>)
        requires
            old(self).pos_ok(),
        ensures
            final(self).tokens == old(self).tokens,
            final(self).pos_ok(),
            r is Some ==> old(self).idx < final(self).idx,
        decreases self.tokens@.len() - self.idx, 4int,
    {
        if self.idx < self.tokens.len() && self.idx + 1 < self.tokens.len() {
            let lead_id = match &self.tokens[self.idx] {
                Token::Id(_, _) => true,
                _ => false,
            };
            let then_assign = match &self.tokens[self.idx + 1] {
                Token::ColonEq(_) => true,
                _ => false,
            };
            if lead_id && then_assign {
                return self.parse_assign();
            }
        }
        if self.idx < self.tokens.len() {
            let is_def = match &self.tokens[self.idx] {
                Token::Def(_) => true,
                _ => false,
            };
            if is_def {
                return self.parse_method();
            }
        }
        let mut expr = match self.parse_single_expr() {
            Some(e) => e,
            None => {
                return None;
            },
        };
        loop
            invariant
                self.pos_ok(),
                self.tokens == old(self).tokens,
                old(self).idx < self.idx,
            decreases self.tokens@.len() - self.idx,
        {
            if self.idx >= self.tokens.len() {
                return None;
            }
            let at_end = match &self.tokens[self.idx] {
                Token::EndToken(_) => true,
                _ => false,
            };
            if at_end {
                self.idx = self.idx + 1;
                return Some(expr);
            }
            let args = match self.parse_call_args() {
                Some(a) => a,
                None => {
                    return None;
                },
            };
            expr = Node::MethodCall(Box::new(expr), args);
            let at_dot = match &self.tokens[self.idx] {
                Token::Dot(_) => true,
                _ => false,
            };
            self.idx = self.idx + 1;
            if !at_dot {
                return Some(expr);
            }
        }
    }

    /// Parses argument expressions up to the next dot or end token.
    fn parse_call_args(&mut self) -> (r: Option<Vec<Node>>)
        requires
            old(self).pos_ok(),
        ensures
            final(self).tokens == old(self).tokens,
            final(self).pos_ok(),
            r is Some ==> ({
                let t = final(self).tokens@[final(self).idx as int];
                &&& old(self).idx <= final(self).idx
                &&& final(self).idx < final(self).tokens@.len()
                &&& (t is Dot || t is EndToken)
            }),
        decreases self.tokens@.len() - self.idx, 3int,
    {
        let mut args: Vec<Node> = Vec::new();
        loop
            invariant
                self.pos_ok(),
                self.tokens == old(self).tokens,
                old(self).idx <= self.idx,
            decreases self.tokens@.len() - self.idx,
        {
            if self.idx >= self.tokens.len() {
                return None;
            }
            let at_delim = match &self.tokens[self.idx] {
                Token::Dot(_) => true,
                Token::EndToken(_) => true,
                _ => false,
            };
            if at_delim {
                return Some(args);
            }
            match self.parse_single_expr() {
                Some(a) => args.push(a),
                None => {
                    return None;
                },
            }
        }
    }

    /// Whether a record constructor starts here: an identifier with an
    /// opening brace immediately after it in the source text.
    fn is_record_constructor(&self) -> (r: bool)
        requires
            self.pos_ok(),
    {
        if self.idx < self.tokens.len() && self.idx + 1 < self.tokens.len() {
            match (&self.tokens[self.idx], &self.tokens[self.idx + 1]) {
                (Token::Id(_, i), Token::OpenBrace(j)) => *j > *i && *j - *i == 1,
                _ => false,
            }
        } else {
            false
        }
    }

    /// Whether a vector constructor starts here: an identifier with an
    /// opening square bracket immediately after it in the source text.
    fn is_vector_constructor(&self) -> (r: bool)
        requires
            self.pos_ok(),
    {
        if self.idx < self.tokens.len() && self.idx + 1 < self.tokens.len() {
            match (&self.tokens[self.idx], &self.tokens[self.idx + 1]) {
                (Token::Id(_, i), Token::OpenSqBrace(j)) => *j > *i && *j - *i == 1,
                _ => false,
            }
        } else {
            false
        }
    }

    /// Parses one expression without trailing applications.
    fn parse_single_expr(&mut self) -> (r: Option<Node>)
        requires
            old(self).pos_ok(),
        ensures
            final(self).tokens == old(self).tokens,
            final(self).pos_ok(),
            r is Some ==> old(self).idx < final(self).idx,
        decreases self.tokens@.len() - self.idx, 2int,
    {
        if self.idx >= self.tokens.len() {
            return None;
        }
        let kind: usize = match &self.tokens[self.idx] {
            Token::Keyword(_, _) => 1,
            Token::Class(_) => 2,
            Token::Object(_) => 3,
            Token::Int(_, _) => 4,
            Token::Operator(_, _) => 5,
            Token::OpenSqBrace(_) => 6,
            Token::OpenBrace(_) => 7,
            Token::Id(_, _) => 8,
            Token::Str(_, _) => 9,
            Token::Caret(_) => 10,
            Token::OpenParen(_) => 11,
            Token::Spread(_) => 12,
            _ => 0,
        };
        if kind == 1 {
            self.parse_keyword()
        } else if kind == 2 {
            self.parse_class()
        } else if kind == 3 {
            self.parse_object()
        } else if kind == 4 {
            self.parse_int()
        } else if kind == 5 {
            self.parse_operator()
        } else if kind == 6 {
            self.parse_list_literal()
        } else if kind == 8 && self.is_vector_constructor() {
            self.parse_vector_constructor()
        } else if kind == 7 {
            self.parse_record_literal()
        } else if kind == 8 && self.is_record_constructor() {
            self.parse_record_constructor()
        } else if kind == 8 {
            self.parse_id()
        } else if kind == 9 {
            self.parse_str()
        } else if kind == 10 {
            self.parse_caret()
        } else if kind == 11 {
            self.parse_paren_expr()
        } else if kind == 12 {
            self.parse_spread()
        } else {
            None
        }
    }

    /// Parses the fields of a record form after its opening brace: each
    /// field is `name: expr` or the shorthand `name;` for `name:
    /// name`, until the closing brace.
    fn parse_record_fields(&mut self) -> (r: Option<Vec<(String, Node)>>)
        requires
            old(self).pos_ok(),
        ensures
            final(self).tokens == old(self).tokens,
            final(self).pos_ok(),
            r is Some ==> old(self).idx < final(self).idx,
        decreases self.tokens@.len() - self.idx, 1int,
    {
        let mut properties: Vec<(String, Node)> = Vec::new();
        loop
            invariant
                self.pos_ok(),
                self.tokens == old(self).tokens,
                old(self).idx <= self.idx,
            decreases self.tokens@.len() - self.idx,
        {
            if self.idx >= self.tokens.len() {
                return None;
            }
            let closing = match &self.tokens[self.idx] {
                Token::CloseBrace(_) => true,
                _ => false,
            };
            if closing {
                self.idx = self.idx + 1;
                return Some(properties);
            }
            let name = match &self.tokens[self.idx] {
                Token::Id(name, _) => name.clone(),
                _ => {
                    return None;
                },
            };
            self.idx = self.idx + 1;
            if self.idx >= self.tokens.len() {
                return None;
            }
            let at_colon = match &self.tokens[self.idx] {
                Token::Colon(_) => true,
                _ => false,
            };
            if at_colon {
                self.idx = self.idx + 1;
                match self.parse_expr() {
                    Some(expr) => properties.push((name, expr)),
                    None => {
                        return None;
                    },
                }
            } else {
                let at_end = match &self.tokens[self.idx] {
                    Token::EndToken(_) => true,
                    _ => false,
                };
                if !at_end {
                    return None;
                }
                self.idx = self.idx + 1;
                let shorthand = Node::IdLookup(name.clone());
                properties.push((name, shorthand));
            }
        }
    }

    /// Parses a record literal `{f: e; ...}`; the fields come out in
    /// canonical (name-ascending) order.
    fn parse_record_literal(&mut self) -> (r: Option<Node>)
        requires
            old(self).pos_ok(),
        ensures
            final(self).tokens == old(self).tokens,
            final(self).pos_ok(),
            r is Some ==> old(self).idx < final(self).idx,
            r matches Some(n) ==> (n matches Node::RecordLiteral(props) && sorted_fields(
                props_view(props@),
            )),
        decreases self.tokens@.len() - self.idx, 1int,
    {
        if self.idx >= self.tokens.len() {
            return None;
        }
        match &self.tokens[self.idx] {
            Token::OpenBrace(_) => (),
            _ => {
                return None;
            },
        }
        self.idx = self.idx + 1;
        match self.parse_record_fields() {
            Some(properties) => {
                let sorted = sort_props(&properties);
                proof {
                    crate::canon::lemma_canon_props(props_view(properties@));
                }
                Some(Node::RecordLiteral(sorted))
            },
            None => None,
        }
    }

    /// Parses a record constructor `Name{f: e; ...}`; the fields come out
    /// in canonical (name-ascending) order.
    fn parse_record_constructor(&mut self) -> (r: Option<Node>)
        requires
            old(self).pos_ok(),
        ensures
            final(self).tokens == old(self).tokens,
            final(self).pos_ok(),
            r is Some ==> old(self).idx < final(self).idx,
            r matches Some(n) ==> (n matches Node::RecordConstructor(_, props) && sorted_fields(
                props_view(props@),
            )),
        decreases self.tokens@.len() - self.idx, 1int,
    {
        if self.idx >= self.tokens.len() {
            return None;
        }
        let name = match &self.tokens[self.idx] {
            Token::Id(name, _) => name.clone(),
            _ => {
                return None;
            },
        };
        self.idx = self.idx + 1;
        if self.idx >= self.tokens.len() {
            return None;
        }
        match &self.tokens[self.idx] {
            Token::OpenBrace(_) => (),
            _ => {
                return None;
            },
        }
        self.idx = self.idx + 1;
        match self.parse_record_fields() {
            Some(properties) => {
                let sorted = sort_props(&properties);
                proof {
                    crate::canon::lemma_canon_props(props_view(properties@));
                }
                Some(Node::RecordConstructor(name, sorted))
            },
            None => None,
        }
    }

    /// Parses a vector constructor `Name[e; ...]`.
    fn parse_vector_constructor(&mut self) -> (r: Option<Node>)
        requires
            old(self).pos_ok(),
        ensures
            final(self).tokens == old(self).tokens,
            final(self).pos_ok(),
            r is Some ==> old(self).idx < final(self).idx,
        decreases self.tokens@.len() - self.idx, 1int,
    {
        if self.idx >= self.tokens.len() {
            return None;
        }
        let name = match &self.tokens[self.idx] {
            Token::Id(name, _) => name.clone(),
            _ => {
                return None;
            },
        };
        self.idx = self.idx + 1;
        if self.idx >= self.tokens.len() {
            return None;
        }
        match &self.tokens[self.idx] {
            Token::OpenSqBrace(_) => (),
            _ => {
                return None;
            },
        }
        self.idx = self.idx + 1;
        let mut exprs: Vec<Node> = Vec::new();
        loop
            invariant
                self.pos_ok(),
                self.tokens == old(self).tokens,
                old(self).idx < self.idx,
            decreases self.tokens@.len() - self.idx,
        {
            if self.idx >= self.tokens.len() {
                return None;
            }
            let closing = match &self.tokens[self.idx] {
                Token::CloseSqBrace(_) => true,
                _ => false,
            };
            if closing {
                self.idx = self.idx + 1;
                return Some(Node::VectorConstructor(name, exprs));
            }
            match self.parse_expr() {
                Some(e) => exprs.push(e),
                None => {
                    return None;
                },
            }
        }
    }

    /// Parses a list literal `[e; ...]`.
    fn parse_list_literal(&mut self) -> (r: Option<Node>)
        requires
            old(self).pos_ok(),
        ensures
            final(self).tokens == old(self).tokens,
            final(self).pos_ok(),
            r is Some ==> old(self).idx < final(self).idx,
        decreases self.tokens@.len() - self.idx, 1int,
    {
        if self.idx >= self.tokens.len() {
            return None;
        }
        match &self.tokens[self.idx] {
            Token::OpenSqBrace(_) => (),
            _ => {
                return None;
            },
        }
        self.idx = self.idx + 1;
        let mut elements: Vec<Node> = Vec::new();
        loop
            invariant
                self.pos_ok(),
                self.tokens == old(self).tokens,
                old(self).idx < self.idx,
            decreases self.tokens@.len() - self.idx,
        {
            if self.idx >= self.tokens.len() {
                return None;
            }
            let closing = match &self.tokens[self.idx] {
                Token::CloseSqBrace(_) => true,
                _ => false,
            };
            if closing {
                self.idx = self.idx + 1;
                return Some(Node::List(elements));
            }
            match self.parse_expr() {
                Some(e) => elements.push(e),
                None => {
                    return None;
                },
            }
        }
    }

    /// Parses a class declaration `class Name <body>`; the body runs to
    /// the next end token, which the enclosing expression consumes.
    fn parse_class(&mut self) -> (r: Option<Node>)
        requires
            old(self).pos_ok(),
        ensures
            final(self).tokens == old(self).tokens,
            final(self).pos_ok(),
            r is Some ==> old(self).idx < final(self).idx,
        decreases self.tokens@.len() - self.idx, 1int,
    {
        if self.idx >= self.tokens.len() {
            return None;
        }
        match &self.tokens[self.idx] {
            Token::Class(_) => (),
            _ => {
                return None;
            },
        }
        self.idx = self.idx + 1;
        if self.idx >= self.tokens.len() {
            return None;
        }
        let name = match &self.tokens[self.idx] {
            Token::Id(name, _) => name.clone(),
            _ => {
                return None;
            },
        };
        self.idx = self.idx + 1;
        let mut methods: Vec<Node> = Vec::new();
        loop
            invariant
                self.pos_ok(),
                self.tokens == old(self).tokens,
                old(self).idx < self.idx,
            decreases self.tokens@.len() - self.idx,
        {
            if self.idx >= self.tokens.len() {
                return None;
            }
            let at_end = match &self.tokens[self.idx] {
                Token::EndToken(_) => true,
                _ => false,
            };
            if at_end {
                return Some(Node::Class(name, methods));
            }
            match self.parse_expr() {
                Some(e) => methods.push(e),
                None => {
                    return None;
                },
            }
        }
    }

    /// Parses an anonymous object literal `object <defs> end`; the body
    /// runs to the next end token, which the enclosing expression
    /// consumes.
    fn parse_object(&mut self) -> (r: Option<Node>)
        requires
            old(self).pos_ok(),
        ensures
            final(self).tokens == old(self).tokens,
            final(self).pos_ok(),
            r is Some ==> old(self).idx < final(self).idx,
        decreases self.tokens@.len() - self.idx, 1int,
    {
        if self.idx >= self.tokens.len() {
            return None;
        }
        match &self.tokens[self.idx] {
            Token::Object(_) => (),
            _ => {
                return None;
            },
        }
        self.idx = self.idx + 1;
        let mut methods: Vec<Node> = Vec::new();
        loop
            invariant
                self.pos_ok(),
                self.tokens == old(self).tokens,
                old(self).idx < self.idx,
            decreases self.tokens@.len() - self.idx,
        {
            if self.idx >= self.tokens.len() {
                return None;
            }
            let at_end = match &self.tokens[self.idx] {
                Token::EndToken(_) => true,
                _ => false,
            };
            if at_end {
                return Some(Node::Object(methods));
            }
            match self.parse_expr() {
                Some(e) => methods.push(e),
                None => {
                    return None;
                },
            }
        }
    }

    /// Parses a method definition `def <patterns> -> body`.
    fn parse_method(&mut self) -> (r: Option<Node>)
        requires
            old(self).pos_ok(),
        ensures
            final(self).tokens == old(self).tokens,
            final(self).pos_ok(),
            r is Some ==> old(self).idx < final(self).idx,
        decreases self.tokens@.len() - self.idx, 1int,
    {
        if self.idx >= self.tokens.len() {
            return None;
        }
        match &self.tokens[self.idx] {
            Token::Def(_) => (),
            _ => {
                return None;
            },
        }
        self.idx = self.idx + 1;
        let mut args: Vec<Node> = Vec::new();
        loop
            invariant
                self.pos_ok(),
                self.tokens == old(self).tokens,
                old(self).idx < self.idx,
            decreases self.tokens@.len() - self.idx,
        {
            if self.idx >= self.tokens.len() {
                return None;
            }
            let at_arrow = match &self.tokens[self.idx] {
                Token::Arrow(_) => true,
                _ => false,
            };
            if at_arrow {
                self.idx = self.idx + 1;
                break;
            }
            match self.parse_single_expr() {
                Some(a) => args.push(a),
                None => {
                    return None;
                },
            }
        }
        match self.parse_expr() {
            Some(body) => Some(Node::Def(args, Box::new(body))),
            None => None,
        }
    }

    /// Parses an assignment `name := expr`.
    fn parse_assign(&mut self) -> (r: Option<Node>)
        requires
            old(self).pos_ok(),
        ensures
            final(self).tokens == old(self).tokens,
            final(self).pos_ok(),
            r is Some ==> old(self).idx < final(self).idx,
        decreases self.tokens@.len() - self.idx, 1int,
    {
        if self.idx >= self.tokens.len() {
            return None;
        }
        let name = match &self.tokens[self.idx] {
            Token::Id(name, _) => name.clone(),
            _ => {
                return None;
            },
        };
        self.idx = self.idx + 1;
        if self.idx >= self.tokens.len() {
            return None;
        }
        match &self.tokens[self.idx] {
            Token::ColonEq(_) => (),
            _ => {
                return None;
            },
        }
        self.idx = self.idx + 1;
        match self.parse_expr() {
            Some(rhs) => Some(Node::Assign(name, Box::new(rhs))),
            None => None,
        }
    }

    /// Parses a parenthesized expression.
    fn parse_paren_expr(&mut self) -> (r: Option<Node>)
        requires
            old(self).pos_ok(),
        ensures
            final(self).tokens == old(self).tokens,
            final(self).pos_ok(),
            r is Some ==> old(self).idx < final(self).idx,
        decreases self.tokens@.len() - self.idx, 1int,
    {
        if self.idx >= self.tokens.len() {
            return None;
        }
        match &self.tokens[self.idx] {
            Token::OpenParen(_) => (),
            _ => {
                return None;
            },
        }
        self.idx = self.idx + 1;
        let inner = match self.parse_expr() {
            Some(e) => e,
            None => {
                return None;
            },
        };
        if self.idx >= self.tokens.len() {
            return None;
        }
        match &self.tokens[self.idx] {
            Token::CloseParen(_) => (),
            _ => {
                return None;
            },
        }
        self.idx = self.idx + 1;
        Some(Node::ParenExpr(Box::new(inner)))
    }

    /// Parses an unquote `^expr`.
    fn parse_caret(&mut self) -> (r: Option<Node>)
        requires
            old(self).pos_ok(),
        ensures
            final(self).tokens == old(self).tokens,
            final(self).pos_ok(),
            r is Some ==> old(self).idx < final(self).idx,
        decreases self.tokens@.len() - self.idx, 1int,
    {
        if self.idx >= self.tokens.len() {
            return None;
        }
        match &self.tokens[self.idx] {
            Token::Caret(_) => (),
            _ => {
                return None;
            },
        }
        self.idx = self.idx + 1;
        match self.parse_single_expr() {
            Some(e) => Some(Node::Unquote(Box::new(e))),
            None => None,
        }
    }

    /// Parses a spread `...expr`.
    fn parse_spread(&mut self) -> (r: Option<Node>)
        requires
            old(self).pos_ok(),
        ensures
            final(self).tokens == old(self).tokens,
            final(self).pos_ok(),
            r is Some ==> old(self).idx < final(self).idx,
        decreases self.tokens@.len() - self.idx, 1int,
    {
        if self.idx >= self.tokens.len() {
            return None;
        }
        match &self.tokens[self.idx] {
            Token::Spread(_) => (),
            _ => {
                return None;
            },
        }
        self.idx = self.idx + 1;
        match self.parse_single_expr() {
            Some(e) => Some(Node::Spread(Box::new(e))),
            None => None,
        }
    }

    /// Parses a string literal.
    fn parse_str(&mut self) -> (r: Option<Node>)
        requires
            old(self).pos_ok(),
        ensures
            final(self).tokens == old(self).tokens,
            final(self).pos_ok(),
            r is Some ==> old(self).idx < final(self).idx,
        decreases self.tokens@.len() - self.idx, 1int,
    {
        if self.idx >= self.tokens.len() {
            return None;
        }
        match &self.tokens[self.idx] {
            Token::Str(text, _) => {
                let node = Node::Str(text.clone());
                self.idx = self.idx + 1;
                Some(node)
            },
            _ => None,
        }
    }

    /// Parses an operator literal.
    fn parse_operator(&mut self) -> (r: Option<Node>)
        requires
            old(self).pos_ok(),
        ensures
            final(self).tokens == old(self).tokens,
            final(self).pos_ok(),
            r is Some ==> old(self).idx < final(self).idx,
        decreases self.tokens@.len() - self.idx, 1int,
    {
        if self.idx >= self.tokens.len() {
            return None;
        }
        match &self.tokens[self.idx] {
            Token::Operator(op, _) => {
                let node = Node::Operator(op.clone());
                self.idx = self.idx + 1;
                Some(node)
            },
            _ => None,
        }
    }

    /// Parses an identifier lookup.
    fn parse_id(&mut self) -> (r: Option<Node>)
        requires
            old(self).pos_ok(),
        ensures
            final(self).tokens == old(self).tokens,
            final(self).pos_ok(),
            r is Some ==> old(self).idx < final(self).idx,
        decreases self.tokens@.len() - self.idx, 1int,
    {
        if self.idx >= self.tokens.len() {
            return None;
        }
        match &self.tokens[self.idx] {
            Token::Id(name, _) => {
                let node = Node::IdLookup(name.clone());
                self.idx = self.idx + 1;
                Some(node)
            },
            _ => None,
        }
    }

    /// Parses an integer literal.
    fn parse_int(&mut self) -> (r: Option<Node>)
        requires
            old(self).pos_ok(),
        ensures
            final(self).tokens == old(self).tokens,
            final(self).pos_ok(),
            r is Some ==> old(self).idx < final(self).idx,
        decreases self.tokens@.len() - self.idx, 1int,
    {
        if self.idx >= self.tokens.len() {
            return None;
        }
        match &self.tokens[self.idx] {
            Token::Int(val, _) => {
                let node = Node::Int(*val);
                self.idx = self.idx + 1;
                Some(node)
            },
            _ => None,
        }
    }

    /// Parses a keyword literal.
    fn parse_keyword(&mut self) -> (r: Option<Node>)
        requires
            old(self).pos_ok(),
        ensures
            final(self).tokens == old(self).tokens,
            final(self).pos_ok(),
            r is Some ==> old(self).idx < final(self).idx,
        decreases self.tokens@.len() - self.idx, 1int,
    {
        if self.idx >= self.tokens.len() {
            return None;
        }
        match &self.tokens[self.idx] {
            Token::Keyword(name, _) => {
                let node = Node::Keyword(name.clone());
                self.idx = self.idx + 1;
                Some(node)
            },
            _ => None,
        }
    }
}

} // verus!
