//! The recursive-descent parser, with one token of lookahead.
use vstd::prelude::*;
use crate::ast::{Ast, SpecAst};
use crate::lexer::{
    LexError, Lexer, lemma_digits_end, lemma_whitespace_end, lemma_word_end, spec_next_token,
    whitespace_end, digits_end, word_end, is_digit, alphabetic, symbol_token,
};
use crate::token::{Op, SpecToken, Token, spec_into_op};

verus! {

/// A grammar violation.
#[derive(Clone, Copy, Debug, PartialEq, Eq, Structural)]
pub enum SyntaxError {
    /// A token that cannot start a factor.
    UnexpectedToken,
    MissingRParen,
    MissingThen,
    MissingElse,
    MissingLBrace,
    MissingRBrace,
    /// `=` after something other than a bare identifier.
    InvalidAssignment,
}

/// A fault of the parse: one of the lexer, or one of the grammar.
#[derive(Clone, Copy, Debug, PartialEq, Eq, Structural)]
pub enum ParseError {
    Lex(LexError),
    Syntax(SyntaxError),
}

/// Where a parse stands: the lexer's position and the lookahead token.
pub struct PState {
    pub pos: int,
    pub cur: SpecToken,
}

pub type PResult = Result<(SpecAst, PState), ParseError>;

pub open spec fn valid(s: Seq<char>, st: PState) -> bool {
    0 <= st.pos <= s.len()
}

/// Input left to read, counting the lookahead unless it is `EOF`.
pub open spec fn measure(s: Seq<char>, st: PState) -> int {
    (s.len() - st.pos) + if st.cur is EOF {
        0int
    } else {
        1int
    }
}

/// The state after the lookahead is consumed.
pub open spec fn spec_advance(s: Seq<char>, st: PState) -> Result<PState, ParseError> {
    let (r, q) = spec_next_token(s, st.pos);
    match r {
        Ok(t) => Ok(PState { pos: q, cur: t }),
        Err(e) => Err(ParseError::Lex(e)),
    }
}

/// The error for a missing expected token.
pub open spec fn missing_error(t: SpecToken) -> SyntaxError {
    match t {
        SpecToken::RParen => SyntaxError::MissingRParen,
        SpecToken::Then => SyntaxError::MissingThen,
        SpecToken::Else => SyntaxError::MissingElse,
        SpecToken::LBrace => SyntaxError::MissingLBrace,
        SpecToken::RBrace => SyntaxError::MissingRBrace,
        _ => SyntaxError::UnexpectedToken,
    }
}

/// Consumes the lookahead if it is `t`.
pub open spec fn spec_eat(s: Seq<char>, st: PState, t: SpecToken) -> Result<PState, ParseError> {
    if st.cur == t {
        spec_advance(s, st)
    } else {
        Err(ParseError::Syntax(missing_error(t)))
    }
}

pub proof fn lemma_next_token_progress(s: Seq<char>, p: int)
    requires
        0 <= p <= s.len(),
    ensures
        ({
            let (r, q) = spec_next_token(s, p);
            r is Ok ==> (p <= q <= s.len() && (!(r->Ok_0 is EOF) ==> p < q))
        }),
{
    lemma_whitespace_end(s, p);
    let q = whitespace_end(s, p);
    if q < s.len() {
        if is_digit(s[q]) {
            lemma_digits_end(s, q + 1);
        } else if symbol_token(s[q]) is None && alphabetic(s[q]) {
            lemma_word_end(s, q + 1);
        }
    }
}

/// Consuming the lookahead keeps the state valid and lowers the measure by
/// one, unless the lookahead was `EOF`.
pub proof fn lemma_advance(s: Seq<char>, st: PState)
    requires
        valid(s, st),
    ensures
        spec_advance(s, st) is Ok ==> {
            let n = spec_advance(s, st)->Ok_0;
            &&& valid(s, n)
            &&& measure(s, n) + (if st.cur is EOF { 0int } else { 1int }) <= measure(s, st)
        },
{
    lemma_next_token_progress(s, st.pos);
}

/// `factor := NUMBER | IDENT | '(' expression ')' | 'print' expression`
pub open spec fn parse_factor(s: Seq<char>, st: PState) -> PResult
    decreases measure(s, st), 0int,
    when valid(s, st)
{
    proof {
        lemma_advance(s, st);
    }
    match st.cur {
        SpecToken::Number(v) => match spec_advance(s, st) {
            Ok(st1) => Ok((SpecAst::Num(v), st1)),
            Err(e) => Err(e),
        },
        SpecToken::Ident(n) => match spec_advance(s, st) {
            Ok(st1) => Ok((SpecAst::Identifier(n), st1)),
            Err(e) => Err(e),
        },
        SpecToken::LParen => match spec_advance(s, st) {
            Ok(st1) => match parse_expr(s, st1) {
                Ok((a, st2)) => match spec_eat(s, st2, SpecToken::RParen) {
                    Ok(st3) => Ok((a, st3)),
                    Err(e) => Err(e),
                },
                Err(e) => Err(e),
            },
            Err(e) => Err(e),
        },
        SpecToken::Print => match spec_advance(s, st) {
            Ok(st1) => match parse_expr(s, st1) {
                Ok((a, st2)) => Ok((SpecAst::KeywordPrint(Box::new(a)), st2)),
                Err(e) => Err(e),
            },
            Err(e) => Err(e),
        },
        _ => Err(ParseError::Syntax(SyntaxError::UnexpectedToken)),
    }
}

/// Whether a parse from `st` that reached `st2` consumed input, so that
/// recursion on `st2` is well founded. Parsing always does (the parser's
/// methods prove it); the test only makes termination evident.
pub open spec fn progressed(s: Seq<char>, st: PState, st2: PState) -> bool {
    valid(s, st2) && measure(s, st2) < measure(s, st)
}

pub open spec fn kept(s: Seq<char>, st: PState, st2: PState) -> bool {
    valid(s, st2) && measure(s, st2) <= measure(s, st)
}

/// `( ('*'|'/') factor )*`, folded to the left onto `left`.
pub open spec fn parse_term_tail(s: Seq<char>, st: PState, left: SpecAst) -> PResult
    decreases measure(s, st), 1int,
    when valid(s, st)
{
    proof {
        lemma_advance(s, st);
    }
    if spec_into_op(st.cur) == Some(Op::Mul) || spec_into_op(st.cur) == Some(Op::Div) {
        let op = spec_into_op(st.cur)->0;
        match spec_advance(s, st) {
            Ok(st1) => match parse_factor(s, st1) {
                Ok((r, st2)) => if progressed(s, st, st2) {
                    parse_term_tail(
                        s,
                        st2,
                        SpecAst::BinOp { op, left: Box::new(left), right: Box::new(r) },
                    )
                } else {
                    Ok((left, st))
                },
                Err(e) => Err(e),
            },
            Err(e) => Err(e),
        }
    } else {
        Ok((left, st))
    }
}

/// `term := factor ( ('*'|'/') factor )*`
pub open spec fn parse_term(s: Seq<char>, st: PState) -> PResult
    decreases measure(s, st), 2int,
    when valid(s, st)
{
    match parse_factor(s, st) {
        Ok((f, st1)) => if kept(s, st, st1) {
            parse_term_tail(s, st1, f)
        } else {
            Ok((f, st1))
        },
        Err(e) => Err(e),
    }
}

/// `( ('+'|'-'|'>'|'<') term )*`, folded to the left onto `left`.
pub open spec fn parse_lowest(s: Seq<char>, st: PState, left: SpecAst) -> PResult
    decreases measure(s, st), 3int,
    when valid(s, st)
{
    proof {
        lemma_advance(s, st);
    }
    let op = spec_into_op(st.cur);
    if op == Some(Op::Add) || op == Some(Op::Sub) || op == Some(Op::Gt) || op == Some(Op::Lt) {
        match spec_advance(s, st) {
            Ok(st1) => match parse_term(s, st1) {
                Ok((r, st2)) => if progressed(s, st, st2) {
                    parse_lowest(
                        s,
                        st2,
                        SpecAst::BinOp { op: op->0, left: Box::new(left), right: Box::new(r) },
                    )
                } else {
                    Ok((left, st))
                },
                Err(e) => Err(e),
            },
            Err(e) => Err(e),
        }
    } else {
        Ok((left, st))
    }
}

/// `'while' expression '{' expression '}'`
pub open spec fn parse_while(s: Seq<char>, st: PState) -> PResult
    decreases measure(s, st), 3int,
    when valid(s, st)
{
    proof {
        lemma_advance(s, st);
    }
    match spec_eat(s, st, SpecToken::While) {
        Ok(st1) => match parse_expr(s, st1) {
            Ok((c, st2)) => match spec_eat(s, st2, SpecToken::LBrace) {
                Ok(st3) => if progressed(s, st, st3) {
                    match parse_expr(s, st3) {
                        Ok((b, st4)) => match spec_eat(s, st4, SpecToken::RBrace) {
                            Ok(st5) => Ok(
                                (
                                    SpecAst::WhileLoop {
                                        condition: Box::new(c),
                                        body: Box::new(b),
                                    },
                                    st5,
                                ),
                            ),
                            Err(e) => Err(e),
                        },
                        Err(e) => Err(e),
                    }
                } else {
                    Err(ParseError::Syntax(SyntaxError::MissingLBrace))
                },
                Err(e) => Err(e),
            },
            Err(e) => Err(e),
        },
        Err(e) => Err(e),
    }
}

/// `'if' expression 'then' expression 'else' expression`
pub open spec fn parse_if(s: Seq<char>, st: PState) -> PResult
    decreases measure(s, st), 3int,
    when valid(s, st)
{
    proof {
        lemma_advance(s, st);
    }
    match spec_eat(s, st, SpecToken::If) {
        Ok(st1) => match parse_expr(s, st1) {
            Ok((c, st2)) => match spec_eat(s, st2, SpecToken::Then) {
                Ok(st3) => if progressed(s, st, st3) {
                    match parse_expr(s, st3) {
                        Ok((t, st4)) => match spec_eat(s, st4, SpecToken::Else) {
                            Ok(st5) => if progressed(s, st, st5) {
                                match parse_expr(s, st5) {
                                    Ok((e, st6)) => Ok(
                                        (
                                            SpecAst::IfThenElse {
                                                condition: Box::new(c),
                                                then_branch: Box::new(t),
                                                else_branch: Box::new(e),
                                            },
                                            st6,
                                        ),
                                    ),
                                    Err(err) => Err(err),
                                }
                            } else {
                                Err(ParseError::Syntax(SyntaxError::MissingElse))
                            },
                            Err(e) => Err(e),
                        },
                        Err(e) => Err(e),
                    }
                } else {
                    Err(ParseError::Syntax(SyntaxError::MissingThen))
                },
                Err(e) => Err(e),
            },
            Err(e) => Err(e),
        },
        Err(e) => Err(e),
    }
}

/// `( ('*'|'/') factor | 'while' ... )*` after the first term; a `while`
/// replaces what was built so far.
pub open spec fn parse_expr_tail(s: Seq<char>, st: PState, left: SpecAst) -> PResult
    decreases measure(s, st), 4int,
    when valid(s, st)
{
    proof {
        lemma_advance(s, st);
    }
    if spec_into_op(st.cur) == Some(Op::Mul) || spec_into_op(st.cur) == Some(Op::Div) {
        let op = spec_into_op(st.cur)->0;
        match spec_advance(s, st) {
            Ok(st1) => match parse_factor(s, st1) {
                Ok((r, st2)) => if progressed(s, st, st2) {
                    parse_expr_tail(
                        s,
                        st2,
                        SpecAst::BinOp { op, left: Box::new(left), right: Box::new(r) },
                    )
                } else {
                    Ok((left, st))
                },
                Err(e) => Err(e),
            },
            Err(e) => Err(e),
        }
    } else if st.cur is While {
        match parse_while(s, st) {
            Ok((w, st1)) => if progressed(s, st, st1) {
                parse_expr_tail(s, st1, w)
            } else {
                Ok((w, st1))
            },
            Err(e) => Err(e),
        }
    } else {
        Ok((left, st))
    }
}

/// `expression`: a term and its multiplicative or `while` tail; then either
/// an assignment to a bare identifier, or the additive and comparison tail,
/// after which a trailing `if` replaces the whole with a conditional.
pub open spec fn parse_expr(s: Seq<char>, st: PState) -> PResult
    decreases measure(s, st), 5int,
    when valid(s, st)
{
    match parse_term(s, st) {
        Ok((t, st1)) => if kept(s, st, st1) {
            match parse_expr_tail(s, st1, t) {
                Ok((a, st2)) => if kept(s, st, st2) {
                    proof {
                        lemma_advance(s, st2);
                    }
                    if st2.cur is Assign {
                        match a {
                            SpecAst::Identifier(name) => match spec_advance(s, st2) {
                                Ok(st3) => match parse_expr(s, st3) {
                                    Ok((v, st4)) => Ok(
                                        (
                                            SpecAst::Assignment {
                                                identifier: name,
                                                value: Box::new(v),
                                            },
                                            st4,
                                        ),
                                    ),
                                    Err(e) => Err(e),
                                },
                                Err(e) => Err(e),
                            },
                            _ => Err(ParseError::Syntax(SyntaxError::InvalidAssignment)),
                        }
                    } else {
                        match parse_lowest(s, st2, a) {
                            Ok((l, st3)) => if st3.cur is If && kept(s, st, st3) {
                                parse_if(s, st3)
                            } else {
                                Ok((l, st3))
                            },
                            Err(e) => Err(e),
                        }
                    }
                } else {
                    Ok((a, st2))
                },
                Err(e) => Err(e),
            }
        } else {
            Ok((t, st1))
        },
        Err(e) => Err(e),
    }
}

/// Whether an executable result `r`, with the parser left at `after`, is
/// the one that `spec` describes.
pub open spec fn parsed(r: Result<Ast, ParseError>, after: PState, spec: PResult) -> bool {
    match spec {
        Ok((a, st)) => r is Ok && r->Ok_0@ == a && after == st,
        Err(e) => r == Err::<Ast, ParseError>(e),
    }
}

/// A parser over a lexer, holding one token of lookahead.
pub struct Parser {
    lexer: Lexer,
    current_token: Token,
}

impl Parser {
    pub closed spec fn wf(&self) -> bool {
        self.lexer.wf()
    }

    /// The characters being parsed.
    pub closed spec fn text(&self) -> Seq<char> {
        self.lexer.text()
    }

    /// The lexer's position and the lookahead.
    pub closed spec fn state(&self) -> PState {
        PState { pos: self.lexer.pos(), cur: self.current_token@ }
    }

    pub proof fn lemma_wf(&self)
        requires
            self.wf(),
        ensures
            valid(self.text(), self.state()),
    {
        self.lexer.lemma_wf();
    }

    /// A parser whose lookahead is the lexer's first token.
    pub fn new(lexer: Lexer) -> (r: Result<Parser, ParseError>)
        requires
            lexer.wf(),
        ensures
            match spec_advance(lexer.text(), PState { pos: lexer.pos(), cur: SpecToken::EOF }) {
                Ok(st) => r is Ok && r->Ok_0.wf() && r->Ok_0.text() == lexer.text()
                    && r->Ok_0.state() == st,
                Err(e) => r == Err::<Parser, ParseError>(e),
            },
    {
        let mut parser = Parser { lexer, current_token: Token::EOF };
        match parser.advance() {
            Ok(()) => Ok(parser),
            Err(e) => Err(e),
        }
    }

    /// Consumes the lookahead, reading the next token.
    pub fn advance(&mut self) -> (r: Result<(), ParseError>)
        requires
            old(self).wf(),
        ensures
            final(self).wf(),
            final(self).text() == old(self).text(),
            match spec_advance(old(self).text(), old(self).state()) {
                Ok(st) => r is Ok && final(self).state() == st,
                Err(e) => r == Err::<(), ParseError>(e),
            },
    {
        match self.lexer.next_token() {
            Ok(t) => {
                self.current_token = t;
                Ok(())
            },
            Err(e) => Err(ParseError::Lex(e)),
        }
    }

    /// Consumes the lookahead if it is `token`, and fails otherwise.
    pub fn eat(&mut self, token: Token) -> (r: Result<(), ParseError>)
        requires
            old(self).wf(),
        ensures
            final(self).wf(),
            final(self).text() == old(self).text(),
            match spec_eat(old(self).text(), old(self).state(), token@) {
                Ok(st) => r is Ok && final(self).state() == st,
                Err(e) => r == Err::<(), ParseError>(e),
            },
    {
        if !self.current_token.same_as(&token) {
            let e = match token {
                Token::RParen => SyntaxError::MissingRParen,
                Token::Then => SyntaxError::MissingThen,
                Token::Else => SyntaxError::MissingElse,
                Token::LBrace => SyntaxError::MissingLBrace,
                Token::RBrace => SyntaxError::MissingRBrace,
                _ => SyntaxError::UnexpectedToken,
            };
            return Err(ParseError::Syntax(e));
        }
        self.advance()
    }

    /// Parses a factor.
    pub fn factor(&mut self) -> (r: Result<Ast, ParseError>)
        requires
            old(self).wf(),
        ensures
            final(self).wf(),
            final(self).text() == old(self).text(),
            parsed(r, final(self).state(), parse_factor(old(self).text(), old(self).state())),
            r is Ok ==> measure(final(self).text(), final(self).state()) < measure(
                old(self).text(),
                old(self).state(),
            ),
        decreases measure(old(self).text(), old(self).state()), 0int,
    {
        proof {
            self.lemma_wf();
            lemma_advance(self.text(), self.state());
        }
        match &self.current_token {
            Token::Number(v) => {
                let v = *v;
                match self.advance() {
                    Ok(()) => Ok(Ast::Num(v)),
                    Err(e) => Err(e),
                }
            },
            Token::Ident(name) => {
                let name = name.clone();
                match self.advance() {
                    Ok(()) => Ok(Ast::Identifier(name)),
                    Err(e) => Err(e),
                }
            },
            Token::LParen => {
                match self.advance() {
                    Ok(()) => {},
                    Err(e) => return Err(e),
                }
                proof {
                    self.lemma_wf();
                }
                let a = match self.expr() {
                    Ok(a) => a,
                    Err(e) => return Err(e),
                };
                proof {
                    self.lemma_wf();
                    lemma_advance(self.text(), self.state());
                }
                match self.eat(Token::RParen) {
                    Ok(()) => Ok(a),
                    Err(e) => Err(e),
                }
            },
            Token::Print => {
                match self.advance() {
                    Ok(()) => {},
                    Err(e) => return Err(e),
                }
                match self.expr() {
                    Ok(a) => Ok(Ast::KeywordPrint(Box::new(a))),
                    Err(e) => Err(e),
                }
            },
            _ => Err(ParseError::Syntax(SyntaxError::UnexpectedToken)),
        }
    }

    /// Parses the multiplicative tail of a term onto `left`.
    fn term_tail(&mut self, left: Ast) -> (r: Result<Ast, ParseError>)
        requires
            old(self).wf(),
        ensures
            final(self).wf(),
            final(self).text() == old(self).text(),
            parsed(r, final(self).state(), parse_term_tail(old(self).text(), old(self).state(), left@)),
            r is Ok ==> measure(final(self).text(), final(self).state()) <= measure(
                old(self).text(),
                old(self).state(),
            ),
        decreases measure(old(self).text(), old(self).state()), 1int,
    {
        let ghost s = self.text();
        let ghost st0 = self.state();
        let mut result = left;
        loop
            invariant
                self.wf(),
                self.text() == s,
                s == old(self).text(),
                st0 == old(self).state(),
                measure(s, self.state()) <= measure(s, st0),
                parse_term_tail(s, self.state(), result@) == parse_term_tail(s, st0, left@),
            decreases measure(s, self.state()),
        {
            proof {
                self.lemma_wf();
                lemma_advance(s, self.state());
            }
            let ghost st = self.state();
            let op = self.current_token.into_op();
            let op = match op {
                Some(Op::Mul) => Op::Mul,
                Some(Op::Div) => Op::Div,
                _ => return Ok(result),
            };
            match self.advance() {
                Ok(()) => {},
                Err(e) => return Err(e),
            }
            proof {
                self.lemma_wf();
            }
            let f = match self.factor() {
                Ok(f) => f,
                Err(e) => return Err(e),
            };
            proof {
                self.lemma_wf();
            }
            result = Ast::BinOp { op, left: Box::new(result), right: Box::new(f) };
        }
    }

    /// Parses a term: a factor and its multiplicative tail.
    pub fn term(&mut self) -> (r: Result<Ast, ParseError>)
        requires
            old(self).wf(),
        ensures
            final(self).wf(),
            final(self).text() == old(self).text(),
            parsed(r, final(self).state(), parse_term(old(self).text(), old(self).state())),
            r is Ok ==> measure(final(self).text(), final(self).state()) <= measure(
                old(self).text(),
                old(self).state(),
            ),
        decreases measure(old(self).text(), old(self).state()), 2int,
    {
        proof {
            self.lemma_wf();
        }
        let f = match self.factor() {
            Ok(f) => f,
            Err(e) => return Err(e),
        };
        proof {
            self.lemma_wf();
        }
        self.term_tail(f)
    }

    /// Parses the additive and comparison tail onto `left`.
    pub fn lowest_precedence(&mut self, left: Ast) -> (r: Result<Ast, ParseError>)
        requires
            old(self).wf(),
        ensures
            final(self).wf(),
            final(self).text() == old(self).text(),
            parsed(r, final(self).state(), parse_lowest(old(self).text(), old(self).state(), left@)),
            r is Ok ==> measure(final(self).text(), final(self).state()) <= measure(
                old(self).text(),
                old(self).state(),
            ),
        decreases measure(old(self).text(), old(self).state()), 3int,
    {
        let ghost s = self.text();
        let ghost st0 = self.state();
        let mut result = left;
        loop
            invariant
                self.wf(),
                self.text() == s,
                s == old(self).text(),
                st0 == old(self).state(),
                measure(s, self.state()) <= measure(s, st0),
                parse_lowest(s, self.state(), result@) == parse_lowest(s, st0, left@),
            decreases measure(s, self.state()),
        {
            proof {
                self.lemma_wf();
                lemma_advance(s, self.state());
            }
            let op = self.current_token.into_op();
            let op = match op {
                Some(Op::Add) => Op::Add,
                Some(Op::Sub) => Op::Sub,
                Some(Op::Gt) => Op::Gt,
                Some(Op::Lt) => Op::Lt,
                _ => return Ok(result),
            };
            match self.advance() {
                Ok(()) => {},
                Err(e) => return Err(e),
            }
            proof {
                self.lemma_wf();
            }
            let t = match self.term() {
                Ok(t) => t,
                Err(e) => return Err(e),
            };
            proof {
                self.lemma_wf();
            }
            result = Ast::BinOp { op, left: Box::new(result), right: Box::new(t) };
        }
    }

    /// Parses `while condition { body }`.
    pub fn while_expr(&mut self) -> (r: Result<Ast, ParseError>)
        requires
            old(self).wf(),
        ensures
            final(self).wf(),
            final(self).text() == old(self).text(),
            parsed(r, final(self).state(), parse_while(old(self).text(), old(self).state())),
            r is Ok ==> measure(final(self).text(), final(self).state()) < measure(
                old(self).text(),
                old(self).state(),
            ),
        decreases measure(old(self).text(), old(self).state()), 3int,
    {
        let ghost s = self.text();
        proof {
            self.lemma_wf();
            lemma_advance(s, self.state());
        }
        match self.eat(Token::While) {
            Ok(()) => {},
            Err(e) => return Err(e),
        }
        proof {
            self.lemma_wf();
        }
        let condition = match self.expr() {
            Ok(c) => c,
            Err(e) => return Err(e),
        };
        proof {
            self.lemma_wf();
            lemma_advance(s, self.state());
        }
        match self.eat(Token::LBrace) {
            Ok(()) => {},
            Err(e) => return Err(e),
        }
        proof {
            self.lemma_wf();
        }
        let body = match self.expr() {
            Ok(b) => b,
            Err(e) => return Err(e),
        };
        proof {
            self.lemma_wf();
            lemma_advance(s, self.state());
        }
        match self.eat(Token::RBrace) {
            Ok(()) => {},
            Err(e) => return Err(e),
        }
        Ok(Ast::WhileLoop { condition: Box::new(condition), body: Box::new(body) })
    }

    /// Parses `if condition then expression else expression`.
    pub fn if_then_else(&mut self) -> (r: Result<Ast, ParseError>)
        requires
            old(self).wf(),
        ensures
            final(self).wf(),
            final(self).text() == old(self).text(),
            parsed(r, final(self).state(), parse_if(old(self).text(), old(self).state())),
            r is Ok ==> measure(final(self).text(), final(self).state()) < measure(
                old(self).text(),
                old(self).state(),
            ),
        decreases measure(old(self).text(), old(self).state()), 3int,
    {
        let ghost s = self.text();
        proof {
            self.lemma_wf();
            lemma_advance(s, self.state());
        }
        match self.eat(Token::If) {
            Ok(()) => {},
            Err(e) => return Err(e),
        }
        proof {
            self.lemma_wf();
        }
        let condition = match self.expr() {
            Ok(c) => c,
            Err(e) => return Err(e),
        };
        proof {
            self.lemma_wf();
            lemma_advance(s, self.state());
        }
        match self.eat(Token::Then) {
            Ok(()) => {},
            Err(e) => return Err(e),
        }
        proof {
            self.lemma_wf();
        }
        let then_branch = match self.expr() {
            Ok(t) => t,
            Err(e) => return Err(e),
        };
        proof {
            self.lemma_wf();
            lemma_advance(s, self.state());
        }
        match self.eat(Token::Else) {
            Ok(()) => {},
            Err(e) => return Err(e),
        }
        proof {
            self.lemma_wf();
        }
        let else_branch = match self.expr() {
            Ok(e) => e,
            Err(e) => return Err(e),
        };
        Ok(
            Ast::IfThenElse {
                condition: Box::new(condition),
                then_branch: Box::new(then_branch),
                else_branch: Box::new(else_branch),
            },
        )
    }

    /// Parses the tail of `*`, `/` and `while` that follows the first term.
    fn expr_tail(&mut self, left: Ast) -> (r: Result<Ast, ParseError>)
        requires
            old(self).wf(),
        ensures
            final(self).wf(),
            final(self).text() == old(self).text(),
            parsed(r, final(self).state(), parse_expr_tail(old(self).text(), old(self).state(), left@)),
            r is Ok ==> measure(final(self).text(), final(self).state()) <= measure(
                old(self).text(),
                old(self).state(),
            ),
        decreases measure(old(self).text(), old(self).state()), 4int,
    {
        let ghost s = self.text();
        let ghost st0 = self.state();
        let mut result = left;
        loop
            invariant
                self.wf(),
                self.text() == s,
                s == old(self).text(),
                st0 == old(self).state(),
                measure(s, self.state()) <= measure(s, st0),
                parse_expr_tail(s, self.state(), result@) == parse_expr_tail(s, st0, left@),
            decreases measure(s, self.state()),
        {
            proof {
                self.lemma_wf();
                lemma_advance(s, self.state());
            }
            let op = self.current_token.into_op();
            let mul = match op {
                Some(Op::Mul) => Some(Op::Mul),
                Some(Op::Div) => Some(Op::Div),
                _ => None,
            };
            if let Some(op) = mul {
                match self.advance() {
                    Ok(()) => {},
                    Err(e) => return Err(e),
                }
                proof {
                    self.lemma_wf();
                }
                let f = match self.factor() {
                    Ok(f) => f,
                    Err(e) => return Err(e),
                };
                proof {
                    self.lemma_wf();
                }
                result = Ast::BinOp { op, left: Box::new(result), right: Box::new(f) };
            } else if let Token::While = self.current_token {
                result = match self.while_expr() {
                    Ok(w) => w,
                    Err(e) => return Err(e),
                };
                proof {
                    self.lemma_wf();
                }
            } else {
                return Ok(result);
            }
        }
    }

    /// Parses one expression from the lookahead on.
    pub fn expr(&mut self) -> (r: Result<Ast, ParseError>)
        requires
            old(self).wf(),
        ensures
            final(self).wf(),
            final(self).text() == old(self).text(),
            parsed(r, final(self).state(), parse_expr(old(self).text(), old(self).state())),
            r is Ok ==> measure(final(self).text(), final(self).state()) <= measure(
                old(self).text(),
                old(self).state(),
            ),
        decreases measure(old(self).text(), old(self).state()), 5int,
    {
        let ghost s = self.text();
        proof {
            self.lemma_wf();
        }
        let t = match self.term() {
            Ok(t) => t,
            Err(e) => return Err(e),
        };
        proof {
            self.lemma_wf();
        }
        let result = match self.expr_tail(t) {
            Ok(a) => a,
            Err(e) => return Err(e),
        };
        proof {
            self.lemma_wf();
            lemma_advance(s, self.state());
        }
        if let Token::Assign = self.current_token {
            return match result {
                Ast::Identifier(var) => {
                    match self.advance() {
                        Ok(()) => {},
                        Err(e) => return Err(e),
                    }
                    proof {
                        self.lemma_wf();
                    }
                    match self.expr() {
                        Ok(v) => Ok(Ast::Assignment { identifier: var, value: Box::new(v) }),
                        Err(e) => Err(e),
                    }
                },
                _ => Err(ParseError::Syntax(SyntaxError::InvalidAssignment)),
            };
        }
        let low = match self.lowest_precedence(result) {
            Ok(l) => l,
            Err(e) => return Err(e),
        };
        proof {
            self.lemma_wf();
        }
        if let Token::If = self.current_token {
            self.if_then_else()
        } else {
            Ok(low)
        }
    }
}

} // verus!
