//! Expressions of `:const` and `:var` lines, parsed by precedence climbing:
//! comparisons bind loosest, then `+ -`, then `* /`; all are left-associative.
use vstd::prelude::*;
use crate::lex::Token;
use crate::lex::tokens_view;
use crate::number::{fits_i64, int_literal_value, parse_int};
use crate::text::chars_of;

verus! {

pub enum Expr {
    Integer(i64),
    CString(String),
    CChar(char),
    Variable(String),
    Unary(UnaryOp, Box<Expr>),
    Binary(Box<Expr>, BinaryOp, Box<Expr>),
}

/// The mathematical form of an expression.
pub enum ExprView {
    Integer(int),
    Str(Seq<char>),
    Chr(char),
    Var(Seq<char>),
    Unary(UnaryOp, Box<ExprView>),
    Binary(Box<ExprView>, BinaryOp, Box<ExprView>),
}

impl Expr {
    pub open spec fn view(&self) -> ExprView
        decreases self,
    {
        match *self {
            Expr::Integer(i) => ExprView::Integer(i as int),
            Expr::CString(s) => ExprView::Str(s@),
            Expr::CChar(c) => ExprView::Chr(c),
            Expr::Variable(n) => ExprView::Var(n@),
            Expr::Unary(op, x) => ExprView::Unary(op, Box::new(x.view())),
            Expr::Binary(l, op, r) => ExprView::Binary(Box::new(l.view()), op, Box::new(r.view())),
        }
    }
}

#[derive(Clone, Copy, Debug, PartialEq, Eq, Structural)]
pub enum UnaryOp {
    Neg,
    Not,
}

#[derive(Clone, Copy, Debug, PartialEq, Eq, Structural)]
pub enum BinaryOp {
    Add,
    Sub,
    Mul,
    Div,
    Eq,
    Ne,
    Lt,
    Le,
    Gt,
    Ge,
}

#[derive(Clone, Copy, Debug, PartialEq, Eq, Structural)]
pub enum ParseError {
    UnexpectedEnd,
    InvalidInteger,
    /// Floating-point literals have no value in this evaluator.
    FloatUnsupported,
    ExpectedRParen,
    UnexpectedToken(Token),
}

/// The binary operator of a token kind, with its precedence.
pub open spec fn binary_op_of(t: Token) -> Option<(BinaryOp, u8)> {
    match t {
        Token::Plus => Some((BinaryOp::Add, 1u8)),
        Token::Minus => Some((BinaryOp::Sub, 1u8)),
        Token::Star => Some((BinaryOp::Mul, 2u8)),
        Token::Slash => Some((BinaryOp::Div, 2u8)),
        Token::EqEq => Some((BinaryOp::Eq, 0u8)),
        Token::BangEq => Some((BinaryOp::Ne, 0u8)),
        Token::Lt => Some((BinaryOp::Lt, 0u8)),
        Token::Le => Some((BinaryOp::Le, 0u8)),
        Token::Gt => Some((BinaryOp::Gt, 0u8)),
        Token::Ge => Some((BinaryOp::Ge, 0u8)),
        _ => None,
    }
}

pub fn binary_op(t: Token) -> (r: Option<(BinaryOp, u8)>)
    ensures
        r == binary_op_of(t),
{
    match t {
        Token::Plus => Some((BinaryOp::Add, 1)),
        Token::Minus => Some((BinaryOp::Sub, 1)),
        Token::Star => Some((BinaryOp::Mul, 2)),
        Token::Slash => Some((BinaryOp::Div, 2)),
        Token::EqEq => Some((BinaryOp::Eq, 0)),
        Token::BangEq => Some((BinaryOp::Ne, 0)),
        Token::Lt => Some((BinaryOp::Lt, 0)),
        Token::Le => Some((BinaryOp::Le, 0)),
        Token::Gt => Some((BinaryOp::Gt, 0)),
        Token::Ge => Some((BinaryOp::Ge, 0)),
        _ => None,
    }
}


/// The expression of a single token that is a literal or a name.
pub open spec fn literal_expr(t: Token, w: Seq<char>) -> Result<ExprView, ParseError> {
    match t {
        Token::CInt => match int_literal_value(w) {
            Some(x) => if fits_i64(x) {
                Ok(ExprView::Integer(x))
            } else {
                Err(ParseError::InvalidInteger)
            },
            None => Err(ParseError::InvalidInteger),
        },
        Token::CFloat => Err(ParseError::FloatUnsupported),
        Token::Id => Ok(ExprView::Var(w)),
        Token::CString => Ok(ExprView::Str(w)),
        Token::CChar => if w.len() == 1 {
            Ok(ExprView::Chr(w[0]))
        } else {
            Err(ParseError::UnexpectedToken(t))
        },
        _ => Err(ParseError::UnexpectedToken(t)),
    }
}

/// A primary expression at `pos`: a literal, a name, a parenthesized
/// expression, or `-` / `!` before a primary. On success, the expression and
/// the position after it.
pub open spec fn primary_at(v: Seq<(Token, Seq<char>)>, pos: int) -> Result<(ExprView, int), ParseError>
    decreases v.len() - pos, 0nat,
{
    if pos < 0 || pos >= v.len() {
        Err(ParseError::UnexpectedEnd)
    } else {
        let (t, w) = v[pos];
        match t {
            Token::LParen => match expr_at(v, pos + 1, 0) {
                Err(e) => Err(e),
                Ok((e, p)) => if 0 <= p < v.len() && v[p].0 == Token::RParen {
                    Ok((e, p + 1))
                } else {
                    Err(ParseError::ExpectedRParen)
                },
            },
            Token::Minus => match primary_at(v, pos + 1) {
                Err(e) => Err(e),
                Ok((e, p)) => Ok((ExprView::Unary(UnaryOp::Neg, Box::new(e)), p)),
            },
            Token::Bang => match primary_at(v, pos + 1) {
                Err(e) => Err(e),
                Ok((e, p)) => Ok((ExprView::Unary(UnaryOp::Not, Box::new(e)), p)),
            },
            _ => match literal_expr(t, w) {
                Ok(e) => Ok((e, pos + 1)),
                Err(e) => Err(e),
            },
        }
    }
}

/// An expression at `pos` whose operators all bind at least as tightly as `min_prec`.
pub open spec fn expr_at(v: Seq<(Token, Seq<char>)>, pos: int, min_prec: int) -> Result<(ExprView, int), ParseError>
    decreases v.len() - pos, 1nat,
{
    match primary_at(v, pos) {
        Err(e) => Err(e),
        Ok((lhs, p)) => if pos < p <= v.len() {
            operators_at(v, lhs, p, min_prec)
        } else {
            Err(ParseError::UnexpectedEnd)
        },
    }
}

/// Continues `lhs` at `pos` with binary operators of precedence at least
/// `min_prec`, each taking the tighter-binding expression to its right.
pub open spec fn operators_at(
    v: Seq<(Token, Seq<char>)>,
    lhs: ExprView,
    pos: int,
    min_prec: int,
) -> Result<(ExprView, int), ParseError>
    decreases v.len() - pos, 2nat,
{
    if pos < 0 || pos >= v.len() {
        Ok((lhs, pos))
    } else {
        match binary_op_of(v[pos].0) {
            None => Ok((lhs, pos)),
            Some((op, prec)) => if (prec as int) < min_prec {
                Ok((lhs, pos))
            } else {
                match expr_at(v, pos + 1, prec + 1) {
                    Err(e) => Err(e),
                    Ok((rhs, p)) => if pos < p <= v.len() {
                        operators_at(v, ExprView::Binary(Box::new(lhs), op, Box::new(rhs)), p, min_prec)
                    } else {
                        Err(ParseError::UnexpectedEnd)
                    },
                }
            },
        }
    }
}

/// The expression at the start of the tokens, and the position after it.
pub open spec fn parse_spec(v: Seq<(Token, Seq<char>)>) -> Result<(ExprView, int), ParseError> {
    expr_at(v, 0, 0)
}

pub open spec fn view_parse(r: Result<Expr, ParseError>, pos: int) -> Result<(ExprView, int), ParseError> {
    match r {
        Ok(e) => Ok((e@, pos)),
        Err(e) => Err(e),
    }
}

fn binary_expr(l: Expr, op: BinaryOp, r: Expr) -> (e: Expr)
    ensures
        e@ == ExprView::Binary(Box::new(l@), op, Box::new(r@)),
{
    Expr::Binary(Box::new(l), op, Box::new(r))
}

fn char_expr(c: char) -> (e: Expr)
    ensures
        e@ == ExprView::Chr(c),
{
    Expr::CChar(c)
}

/// The expression of a literal or name token.
fn literal(token: Token, text: &String) -> (r: Result<Expr, ParseError>)
    ensures
        r matches Ok(e) ==> literal_expr(token, text@) == Ok::<ExprView, ParseError>(e@),
        r matches Err(e) ==> literal_expr(token, text@) == Err::<ExprView, ParseError>(e),
{
    match token {
        Token::CInt => match parse_int(text.as_str()) {
            Some(x) => Ok(Expr::Integer(x)),
            None => Err(ParseError::InvalidInteger),
        },
        Token::CFloat => Err(ParseError::FloatUnsupported),
        Token::Id => Ok(Expr::Variable(text.clone())),
        Token::CString => Ok(Expr::CString(text.clone())),
        Token::CChar => {
            let cs = chars_of(text.as_str());
            if cs.len() == 1 {
                Ok(char_expr(cs[0]))
            } else {
                Err(ParseError::UnexpectedToken(token))
            }
        },
        _ => Err(ParseError::UnexpectedToken(token)),
    }
}

pub struct Parser {
    tokens: Vec<(Token, String)>,
    pos: usize,
}

impl Parser {
    pub closed spec fn spec_tokens(&self) -> Seq<(Token, String)> {
        self.tokens@
    }

    pub closed spec fn spec_pos(&self) -> int {
        self.pos as int
    }

    pub fn new(tokens: Vec<(Token, String)>) -> (r: Self)
        ensures
            r.spec_tokens() == tokens@,
            r.spec_pos() == 0,
    {
        Self { tokens, pos: 0 }
    }

    fn peek(&self) -> (r: Option<Token>)
        ensures
            self.pos < self.tokens@.len() ==> r == Some(self.tokens@[self.pos as int].0),
            self.pos >= self.tokens@.len() ==> r is None,
    {
        if self.pos < self.tokens.len() {
            Some(self.tokens[self.pos].0)
        } else {
            None
        }
    }

    fn advance(&mut self)
        requires
            old(self).pos < old(self).tokens@.len(),
        ensures
            final(self).pos == old(self).pos + 1,
            final(self).tokens == old(self).tokens,
    {
        let n = self.tokens.len();
        assert(self.pos < n);
        self.pos = self.pos + 1;
    }

    fn parse_primary(&mut self) -> (r: Result<Expr, ParseError>)
        requires
            old(self).pos <= old(self).tokens@.len(),
        ensures
            final(self).tokens == old(self).tokens,
            old(self).pos <= final(self).pos <= final(self).tokens@.len(),
            r is Ok ==> final(self).pos > old(self).pos,
            view_parse(r, final(self).pos as int) == primary_at(
                tokens_view(old(self).tokens@),
                old(self).pos as int,
            ),
        decreases old(self).tokens@.len() - old(self).pos, 0nat,
    {
        if self.pos >= self.tokens.len() {
            return Err(ParseError::UnexpectedEnd);
        }
        let token = self.tokens[self.pos].0;
        let ghost v = tokens_view(self.tokens@);
        let ghost p0 = self.pos as int;
        assert(v[p0] == (token, self.tokens@[p0].1@));
        match token {
            Token::LParen => {
                self.advance();
                let expr = match self.parse_expr(0) {
                    Ok(e) => e,
                    Err(e) => {
                        return Err(e);
                    },
                };
                proof {
                    if self.pos < self.tokens@.len() {
                        assert(v[self.pos as int].0 == self.tokens@[self.pos as int].0);
                    }
                }
                match self.peek() {
                    Some(Token::RParen) => {
                        self.advance();
                        Ok(expr)
                    },
                    _ => Err(ParseError::ExpectedRParen),
                }
            },
            Token::Minus | Token::Bang => {
                self.advance();
                let expr = match self.parse_primary() {
                    Ok(e) => e,
                    Err(e) => {
                        return Err(e);
                    },
                };
                let op = if token == Token::Minus {
                    UnaryOp::Neg
                } else {
                    UnaryOp::Not
                };
                let r = Expr::Unary(op, Box::new(expr));
                assert(r@ == ExprView::Unary(op, Box::new(expr@)));
                Ok(r)
            },
            _ => {
                let r = literal(token, &self.tokens[self.pos].1);
                self.advance();
                r
            },
        }
    }

    fn parse_expr(&mut self, min_prec: u8) -> (r: Result<Expr, ParseError>)
        requires
            old(self).pos <= old(self).tokens@.len(),
            min_prec <= 3,
        ensures
            final(self).tokens == old(self).tokens,
            old(self).pos <= final(self).pos <= final(self).tokens@.len(),
            r is Ok ==> final(self).pos > old(self).pos,
            view_parse(r, final(self).pos as int) == expr_at(
                tokens_view(old(self).tokens@),
                old(self).pos as int,
                min_prec as int,
            ),
        decreases old(self).tokens@.len() - old(self).pos, 1nat,
    {
        let ghost start = self.pos;
        let ghost v = tokens_view(self.tokens@);
        let mut lhs = match self.parse_primary() {
            Ok(e) => e,
            Err(e) => {
                return Err(e);
            },
        };
        loop
            invariant
                self.tokens == old(self).tokens,
                v == tokens_view(self.tokens@),
                start == old(self).pos,
                start < self.pos <= self.tokens@.len(),
                min_prec <= 3,
                expr_at(v, start as int, min_prec as int) == operators_at(
                    v,
                    lhs@,
                    self.pos as int,
                    min_prec as int,
                ),
            ensures
                self.tokens == old(self).tokens,
                start < self.pos <= self.tokens@.len(),
                expr_at(v, start as int, min_prec as int) == Ok::<(ExprView, int), ParseError>(
                    (lhs@, self.pos as int),
                ),
            decreases self.tokens@.len() - self.pos,
        {
            proof {
                if self.pos < self.tokens@.len() {
                    assert(v[self.pos as int].0 == self.tokens@[self.pos as int].0);
                }
            }
            let (op, prec) = match self.peek() {
                Some(t) => match binary_op(t) {
                    Some(p) => p,
                    None => {
                        break ;
                    },
                },
                None => {
                    break ;
                },
            };
            if prec < min_prec {
                break ;
            }
            self.advance();
            let rhs = match self.parse_expr(prec + 1) {
                Ok(e) => e,
                Err(e) => {
                    return Err(e);
                },
            };
            lhs = binary_expr(lhs, op, rhs);
        }
        Ok(lhs)
    }

    /// Parses one expression from the current position.
    pub fn parse(&mut self) -> (r: Result<Expr, ParseError>)
        requires
            old(self).spec_pos() <= old(self).spec_tokens().len(),
        ensures
            final(self).spec_tokens() == old(self).spec_tokens(),
            old(self).spec_pos() <= final(self).spec_pos() <= final(self).spec_tokens().len(),
            r is Ok ==> final(self).spec_pos() > old(self).spec_pos(),
            view_parse(r, final(self).spec_pos()) == expr_at(
                tokens_view(old(self).spec_tokens()),
                old(self).spec_pos(),
                0,
            ),
    {
        self.parse_expr(0)
    }
}

} // verus!
