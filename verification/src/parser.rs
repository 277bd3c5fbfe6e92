//! The precedence-climbing expression parser.
//!
//! The mathematical model is given by `spec_primary`, `spec_expr` and
//! `spec_climb`: a precedence-climbing recursion over the token
//! sequence, defined through a fuel parameter (the fueled functions
//! `primary_fuel`, `expr_fuel`, `climb_fuel` are monotone in the fuel,
//! so the fuel-free functions below are well defined wherever any fuel
//! suffices, and the executable parser is proved to land exactly there).

use vstd::prelude::*;

use crate::ast::{BinaryOperator, ExprV, Expression, Token, TokenV};
use crate::error::ParseError;
use crate::tokenizer::{Tokenizer, spec_tokenize};

verus! {

/// The binding power of a token: additive operators bind at 1,
/// multiplicative at 2, and every other token at 0, so it ends an
/// expression.
pub open spec fn prec_of(t: TokenV) -> int {
    match t {
        TokenV::Plus => 1,
        TokenV::Minus => 1,
        TokenV::Multiply => 2,
        TokenV::Divide => 2,
        _ => 0,
    }
}

/// The operator an arithmetic token stands for (meaningful only for
/// tokens of positive precedence).
pub open spec fn op_of(t: TokenV) -> BinaryOperator {
    match t {
        TokenV::Plus => BinaryOperator::Plus,
        TokenV::Minus => BinaryOperator::Minus,
        TokenV::Multiply => BinaryOperator::Multiply,
        _ => BinaryOperator::Divide,
    }
}

/// The token at position `i`, extended past the end by the sentinel.
pub open spec fn tok_at(ts: Seq<TokenV>, i: int) -> TokenV {
    if 0 <= i < ts.len() {
        ts[i]
    } else {
        TokenV::Eof
    }
}

/// The outcome of a parsing step: a tree together with the position of
/// the first token after it, a parse failure, or fuel exhaustion.
pub enum ParseOut {
    OutOfFuel,
    Fail,
    Done(ExprV, int),
}

/// A primary expression at `i`: a number, an identifier, or a
/// parenthesized subexpression that must be closed.
pub open spec fn primary_fuel(ts: Seq<TokenV>, i: int, fuel: nat) -> ParseOut
    decreases fuel,
{
    if fuel == 0 {
        ParseOut::OutOfFuel
    } else {
        match tok_at(ts, i) {
            TokenV::Number(n) => ParseOut::Done(ExprV::Number(n), i + 1),
            TokenV::Identifier(name) => ParseOut::Done(ExprV::Identifier(name), i + 1),
            TokenV::LeftParentheses => match expr_fuel(ts, i + 1, 0, (fuel - 1) as nat) {
                ParseOut::Done(e, j) => if tok_at(ts, j) is RightParentheses {
                    ParseOut::Done(e, j + 1)
                } else {
                    ParseOut::Fail
                },
                ParseOut::Fail => ParseOut::Fail,
                ParseOut::OutOfFuel => ParseOut::OutOfFuel,
            },
            _ => ParseOut::Fail,
        }
    }
}

/// An expression at `i` with binding-power floor `min_prec`: a primary
/// followed by the climbing loop.
pub open spec fn expr_fuel(ts: Seq<TokenV>, i: int, min_prec: int, fuel: nat) -> ParseOut
    decreases fuel,
{
    if fuel == 0 {
        ParseOut::OutOfFuel
    } else {
        match primary_fuel(ts, i, (fuel - 1) as nat) {
            ParseOut::Done(left, j) => climb_fuel(ts, left, j, min_prec, (fuel - 1) as nat),
            ParseOut::Fail => ParseOut::Fail,
            ParseOut::OutOfFuel => ParseOut::OutOfFuel,
        }
    }
}

/// The climbing loop: while the current token binds more tightly than
/// the floor, consume it, parse the right operand at the consumed
/// operator's precedence, and fold it into the accumulated left side.
pub open spec fn climb_fuel(
    ts: Seq<TokenV>,
    left: ExprV,
    j: int,
    min_prec: int,
    fuel: nat,
) -> ParseOut
    decreases fuel,
{
    if fuel == 0 {
        ParseOut::OutOfFuel
    } else {
        let p = prec_of(tok_at(ts, j));
        if p <= min_prec {
            ParseOut::Done(left, j)
        } else {
            match expr_fuel(ts, j + 1, p, (fuel - 1) as nat) {
                ParseOut::Done(right, k) => climb_fuel(
                    ts,
                    ExprV::BinaryOperation {
                        left_operand: Box::new(left),
                        operator: op_of(tok_at(ts, j)),
                        right_operand: Box::new(right),
                    },
                    k,
                    min_prec,
                    (fuel - 1) as nat,
                ),
                ParseOut::Fail => ParseOut::Fail,
                ParseOut::OutOfFuel => ParseOut::OutOfFuel,
            }
        }
    }
}

// ---------------------------------------------------------------------------
// Fuel monotonicity: once the fuel suffices, the outcome is fixed.
// ---------------------------------------------------------------------------

pub proof fn lemma_mono_primary(ts: Seq<TokenV>, i: int, f1: nat, f2: nat)
    requires
        f1 <= f2,
        !(primary_fuel(ts, i, f1) is OutOfFuel),
    ensures
        primary_fuel(ts, i, f2) == primary_fuel(ts, i, f1),
    decreases f1,
{
    if tok_at(ts, i) is LeftParentheses {
        let inner = expr_fuel(ts, i + 1, 0, (f1 - 1) as nat);
        if inner is OutOfFuel {
            assert(false);
        } else {
            lemma_mono_expr(ts, i + 1, 0, (f1 - 1) as nat, (f2 - 1) as nat);
        }
    }
}

pub proof fn lemma_mono_expr(ts: Seq<TokenV>, i: int, min_prec: int, f1: nat, f2: nat)
    requires
        f1 <= f2,
        !(expr_fuel(ts, i, min_prec, f1) is OutOfFuel),
    ensures
        expr_fuel(ts, i, min_prec, f2) == expr_fuel(ts, i, min_prec, f1),
    decreases f1,
{
    match primary_fuel(ts, i, (f1 - 1) as nat) {
        ParseOut::Done(left, j) => {
            lemma_mono_primary(ts, i, (f1 - 1) as nat, (f2 - 1) as nat);
            if climb_fuel(ts, left, j, min_prec, (f1 - 1) as nat) is OutOfFuel {
                assert(false);
            } else {
                lemma_mono_climb(ts, left, j, min_prec, (f1 - 1) as nat, (f2 - 1) as nat);
            }
        },
        ParseOut::Fail => {
            lemma_mono_primary(ts, i, (f1 - 1) as nat, (f2 - 1) as nat);
        },
        ParseOut::OutOfFuel => {
            assert(false);
        },
    }
}

pub proof fn lemma_mono_climb(
    ts: Seq<TokenV>,
    left: ExprV,
    j: int,
    min_prec: int,
    f1: nat,
    f2: nat,
)
    requires
        f1 <= f2,
        !(climb_fuel(ts, left, j, min_prec, f1) is OutOfFuel),
    ensures
        climb_fuel(ts, left, j, min_prec, f2) == climb_fuel(ts, left, j, min_prec, f1),
    decreases f1,
{
    let p = prec_of(tok_at(ts, j));
    if p <= min_prec {
    } else {
        match expr_fuel(ts, j + 1, p, (f1 - 1) as nat) {
            ParseOut::Done(right, k) => {
                lemma_mono_expr(ts, j + 1, p, (f1 - 1) as nat, (f2 - 1) as nat);
                let folded = ExprV::BinaryOperation {
                    left_operand: Box::new(left),
                    operator: op_of(tok_at(ts, j)),
                    right_operand: Box::new(right),
                };
                if climb_fuel(ts, folded, k, min_prec, (f1 - 1) as nat) is OutOfFuel {
                    assert(false);
                } else {
                    lemma_mono_climb(ts, folded, k, min_prec, (f1 - 1) as nat, (f2 - 1) as nat);
                }
            },
            ParseOut::Fail => {
                lemma_mono_expr(ts, j + 1, p, (f1 - 1) as nat, (f2 - 1) as nat);
            },
            ParseOut::OutOfFuel => {
                assert(false);
            },
        }
    }
}

// ---------------------------------------------------------------------------
// The fuel-free model: the common value of all sufficient fuels.
// ---------------------------------------------------------------------------

pub open spec fn primary_halts(ts: Seq<TokenV>, i: int) -> bool {
    exists|f: nat| !(#[trigger] primary_fuel(ts, i, f) is OutOfFuel)
}

/// What parsing a primary expression at `i` yields.
pub open spec fn spec_primary(ts: Seq<TokenV>, i: int) -> ParseOut {
    if primary_halts(ts, i) {
        primary_fuel(ts, i, choose|f: nat| !(#[trigger] primary_fuel(ts, i, f) is OutOfFuel))
    } else {
        ParseOut::OutOfFuel
    }
}

pub open spec fn expr_halts(ts: Seq<TokenV>, i: int, min_prec: int) -> bool {
    exists|f: nat| !(#[trigger] expr_fuel(ts, i, min_prec, f) is OutOfFuel)
}

/// What parsing an expression at `i` with floor `min_prec` yields.
pub open spec fn spec_expr(ts: Seq<TokenV>, i: int, min_prec: int) -> ParseOut {
    if expr_halts(ts, i, min_prec) {
        expr_fuel(
            ts,
            i,
            min_prec,
            choose|f: nat| !(#[trigger] expr_fuel(ts, i, min_prec, f) is OutOfFuel),
        )
    } else {
        ParseOut::OutOfFuel
    }
}

pub open spec fn climb_halts(ts: Seq<TokenV>, left: ExprV, j: int, min_prec: int) -> bool {
    exists|f: nat| !(#[trigger] climb_fuel(ts, left, j, min_prec, f) is OutOfFuel)
}

/// What the climbing loop yields from accumulated left side `left` at `j`.
pub open spec fn spec_climb(ts: Seq<TokenV>, left: ExprV, j: int, min_prec: int) -> ParseOut {
    if climb_halts(ts, left, j, min_prec) {
        climb_fuel(
            ts,
            left,
            j,
            min_prec,
            choose|f: nat| !(#[trigger] climb_fuel(ts, left, j, min_prec, f) is OutOfFuel),
        )
    } else {
        ParseOut::OutOfFuel
    }
}

/// Any sufficient fuel computes `spec_primary`.
pub proof fn lemma_spec_primary(ts: Seq<TokenV>, i: int, f: nat)
    requires
        !(primary_fuel(ts, i, f) is OutOfFuel),
    ensures
        spec_primary(ts, i) == primary_fuel(ts, i, f),
{
    assert(primary_halts(ts, i));
    let f0 = choose|g: nat| !(#[trigger] primary_fuel(ts, i, g) is OutOfFuel);
    if f0 <= f {
        lemma_mono_primary(ts, i, f0, f);
    } else {
        lemma_mono_primary(ts, i, f, f0);
    }
}

/// Any sufficient fuel computes `spec_expr`.
pub proof fn lemma_spec_expr(ts: Seq<TokenV>, i: int, min_prec: int, f: nat)
    requires
        !(expr_fuel(ts, i, min_prec, f) is OutOfFuel),
    ensures
        spec_expr(ts, i, min_prec) == expr_fuel(ts, i, min_prec, f),
{
    assert(expr_halts(ts, i, min_prec));
    let f0 = choose|g: nat| !(#[trigger] expr_fuel(ts, i, min_prec, g) is OutOfFuel);
    if f0 <= f {
        lemma_mono_expr(ts, i, min_prec, f0, f);
    } else {
        lemma_mono_expr(ts, i, min_prec, f, f0);
    }
}

/// Any sufficient fuel computes `spec_climb`.
pub proof fn lemma_spec_climb(ts: Seq<TokenV>, left: ExprV, j: int, min_prec: int, f: nat)
    requires
        !(climb_fuel(ts, left, j, min_prec, f) is OutOfFuel),
    ensures
        spec_climb(ts, left, j, min_prec) == climb_fuel(ts, left, j, min_prec, f),
{
    assert(climb_halts(ts, left, j, min_prec));
    let f0 = choose|g: nat| !(#[trigger] climb_fuel(ts, left, j, min_prec, g) is OutOfFuel);
    if f0 <= f {
        lemma_mono_climb(ts, left, j, min_prec, f0, f);
    } else {
        lemma_mono_climb(ts, left, j, min_prec, f, f0);
    }
}

} // verus!

verus! {

/// The expression parser: owns a tokenizer whose cursor it moves
/// forward one token at a time, never revisiting earlier tokens.
pub struct PrattParser {
    pub tokenizer: Tokenizer,
    pub current_token: Option<Token>,
}

impl PrattParser {
    /// The token sequence being parsed.
    pub open spec fn ts(&self) -> Seq<TokenV> {
        self.tokenizer.toks()
    }

    /// The index of the current token within `ts()`.
    pub open spec fn idx(&self) -> int {
        self.tokenizer.cursor - 1
    }

    /// Well-formed: the tokenizer is fully tokenized, the cursor sits
    /// just past the current token, and the sequence ends with the
    /// sentinel, so the parser can never run off its end.
    pub open spec fn wf(&self) -> bool {
        &&& self.tokenizer.wf()
        &&& 1 <= self.tokenizer.cursor <= self.ts().len()
        &&& (self.current_token matches Some(t) && t@ == self.ts()[self.idx()])
        &&& self.ts().last() == TokenV::Eof
    }

    /// Builds a parser over the token sequence of `input`, positioned
    /// at the sequence's first token.
    pub fn new(input: &str) -> (p: PrattParser)
        ensures
            p.wf(),
            p.ts() == spec_tokenize(input@, 0),
            p.idx() == 0,
    {
        let mut tokenizer = Tokenizer::new(input);
        proof {
            crate::tokenizer::lemma_tokenize_shape(input@, 0);
        }
        let first_token = tokenizer.next();
        PrattParser { tokenizer, current_token: first_token }
    }

    /// Moves to the next token. Never called on the sentinel, so the
    /// cursor stays within the recorded sequence.
    fn advance(&mut self) -> (r: Result<(), ParseError>)
        requires
            old(self).wf(),
            !(old(self).ts()[old(self).idx()] is Eof),
        ensures
            final(self).wf(),
            final(self).ts() == old(self).ts(),
            final(self).idx() == old(self).idx() + 1,
            r is Ok,
    {
        proof {
            // The current token is not the sentinel, which is last, so
            // there is a recorded token after it.
            assert(old(self).idx() < old(self).ts().len() - 1);
        }
        self.current_token = self.tokenizer.next();
        Ok(())
    }

    /// The binding power of a token.
    fn get_precedence(&self, token: &Token) -> (p: u8)
        ensures
            p as int == prec_of(token@),
    {
        match token {
            Token::Plus | Token::Minus => 1,
            Token::Multiply | Token::Divide => 2,
            _ => 0,
        }
    }

    /// Parses a primary expression: a number, an identifier, or a
    /// parenthesized subexpression followed by its closing parenthesis.
    fn parse_primary(&mut self) -> (r: Result<Expression, ParseError>)
        requires
            old(self).wf(),
        ensures
            final(self).wf(),
            final(self).ts() == old(self).ts(),
            old(self).idx() <= final(self).idx(),
            match r {
                Ok(e) => spec_primary(old(self).ts(), old(self).idx()) == ParseOut::Done(
                    e@,
                    final(self).idx(),
                ),
                Err(err) => spec_primary(old(self).ts(), old(self).idx()) == ParseOut::Fail
                    && err is InvalidInput,
            },
        decreases self.ts().len() - self.idx(), 0int,
    {
        let ghost ts = self.ts();
        let ghost i0 = self.idx();
        match &self.current_token {
            Some(Token::Number(n)) => {
                let v = *n;
                self.advance()?;
                proof {
                    assert(primary_fuel(ts, i0, 1) == ParseOut::Done(ExprV::Number(v), i0 + 1));
                    lemma_spec_primary(ts, i0, 1);
                }
                Ok(Expression::Number(v))
            },
            Some(Token::Identifier(s)) => {
                let name = s.clone();
                self.advance()?;
                proof {
                    assert(primary_fuel(ts, i0, 1) == ParseOut::Done(
                        ExprV::Identifier(name@),
                        i0 + 1,
                    ));
                    lemma_spec_primary(ts, i0, 1);
                }
                Ok(Expression::Identifier(name))
            },
            Some(Token::LeftParentheses) => {
                self.advance()?;
                let expr = match self.parse_expression(0) {
                    Ok(e) => e,
                    Err(err) => {
                        proof {
                            let fe = choose|g: nat|
                                !(#[trigger] expr_fuel(ts, i0 + 1, 0, g) is OutOfFuel);
                            assert(expr_fuel(ts, i0 + 1, 0, fe) == ParseOut::Fail);
                            assert(primary_fuel(ts, i0, fe + 1) == ParseOut::Fail);
                            lemma_spec_primary(ts, i0, fe + 1);
                        }
                        return Err(err);
                    },
                };
                let ghost j1 = self.idx();
                match &self.current_token {
                    Some(Token::RightParentheses) => {
                        self.advance()?;
                        proof {
                            let fe = choose|g: nat|
                                !(#[trigger] expr_fuel(ts, i0 + 1, 0, g) is OutOfFuel);
                            assert(expr_fuel(ts, i0 + 1, 0, fe) == ParseOut::Done(expr@, j1));
                            assert(primary_fuel(ts, i0, fe + 1) == ParseOut::Done(expr@, j1 + 1));
                            lemma_spec_primary(ts, i0, fe + 1);
                        }
                        Ok(expr)
                    },
                    _ => {
                        proof {
                            let fe = choose|g: nat|
                                !(#[trigger] expr_fuel(ts, i0 + 1, 0, g) is OutOfFuel);
                            assert(expr_fuel(ts, i0 + 1, 0, fe) == ParseOut::Done(expr@, j1));
                            assert(primary_fuel(ts, i0, fe + 1) == ParseOut::Fail);
                            lemma_spec_primary(ts, i0, fe + 1);
                        }
                        Err(
                            ParseError::InvalidInput(
                                String::from_str("Expected closing parenthesis"),
                            ),
                        )
                    },
                }
            },
            Some(_) => {
                proof {
                    assert(primary_fuel(ts, i0, 1) == ParseOut::Fail);
                    lemma_spec_primary(ts, i0, 1);
                }
                Err(ParseError::InvalidInput(String::from_str("Unexpected token")))
            },
            None => {
                proof {
                    assert(false);
                }
                Err(ParseError::InvalidInput(String::from_str("Unexpected end of input")))
            },
        }
    }

    /// Parses an expression whose operators all bind more tightly than
    /// `precedence`, folding operators left to right.
    fn parse_expression(&mut self, precedence: u8) -> (r: Result<Expression, ParseError>)
        requires
            old(self).wf(),
        ensures
            final(self).wf(),
            final(self).ts() == old(self).ts(),
            old(self).idx() <= final(self).idx(),
            match r {
                Ok(e) => spec_expr(old(self).ts(), old(self).idx(), precedence as int)
                    == ParseOut::Done(e@, final(self).idx()),
                Err(err) => spec_expr(old(self).ts(), old(self).idx(), precedence as int)
                    == ParseOut::Fail && err is InvalidInput,
            },
        decreases self.ts().len() - self.idx(), 1int,
    {
        let ghost ts = self.ts();
        let ghost i0 = self.idx();
        let ghost mp = precedence as int;
        let mut left = match self.parse_primary() {
            Ok(e) => e,
            Err(err) => {
                proof {
                    let fp = choose|g: nat| !(#[trigger] primary_fuel(ts, i0, g) is OutOfFuel);
                    assert(primary_fuel(ts, i0, fp) == ParseOut::Fail);
                    assert(expr_fuel(ts, i0, mp, fp + 1) == ParseOut::Fail);
                    lemma_spec_expr(ts, i0, mp, fp + 1);
                }
                return Err(err);
            },
        };
        proof {
            let j = self.idx();
            assert forall|f: nat|
                !(#[trigger] climb_fuel(ts, left@, j, mp, f) is OutOfFuel) implies spec_expr(
                ts,
                i0,
                mp,
            ) == climb_fuel(ts, left@, j, mp, f) by {
                let fp = choose|g: nat| !(#[trigger] primary_fuel(ts, i0, g) is OutOfFuel);
                assert(primary_fuel(ts, i0, fp) == ParseOut::Done(left@, j));
                let m = if f >= fp {
                    f
                } else {
                    fp
                };
                lemma_mono_primary(ts, i0, fp, m);
                lemma_mono_climb(ts, left@, j, mp, f, m);
                assert(expr_fuel(ts, i0, mp, m + 1) == climb_fuel(ts, left@, j, mp, m));
                lemma_spec_expr(ts, i0, mp, m + 1);
            }
        }
        loop
            invariant
                self.wf(),
                self.ts() == ts,
                ts == old(self).ts(),
                i0 == old(self).idx(),
                mp == precedence as int,
                i0 <= self.idx(),
                forall|f: nat|
                    !(#[trigger] climb_fuel(ts, left@, self.idx(), mp, f) is OutOfFuel)
                        ==> spec_expr(ts, i0, mp) == climb_fuel(ts, left@, self.idx(), mp, f),
            ensures
                self.wf(),
                self.ts() == ts,
                i0 <= self.idx(),
                spec_expr(ts, i0, mp) == ParseOut::Done(left@, self.idx()),
            decreases ts.len() - self.idx(),
        {
            let ghost j0 = self.idx();
            let ghost left0 = left@;
            let token_precedence = match &self.current_token {
                Some(t) => self.get_precedence(t),
                None => {
                    proof {
                        assert(false);
                    }
                    0
                },
            };
            let ghost tp = token_precedence as int;
            if token_precedence <= precedence {
                proof {
                    assert(climb_fuel(ts, left0, j0, mp, 1) == ParseOut::Done(left0, j0));
                }
                break;
            }
            let op = match &self.current_token {
                Some(t) => t.clone(),
                None => {
                    proof {
                        assert(false);
                    }
                    Token::Eof
                },
            };
            self.advance()?;
            let right = match self.parse_expression(token_precedence) {
                Ok(e) => e,
                Err(err) => {
                    proof {
                        let fe = choose|g: nat|
                            !(#[trigger] expr_fuel(ts, j0 + 1, tp, g) is OutOfFuel);
                        assert(expr_fuel(ts, j0 + 1, tp, fe) == ParseOut::Fail);
                        assert(climb_fuel(ts, left0, j0, mp, fe + 1) == ParseOut::Fail);
                    }
                    return Err(err);
                },
            };
            let ghost k = self.idx();
            match op {
                Token::Plus => {
                    left = Expression::BinaryOperation {
                        left_operand: Box::new(left),
                        operator: BinaryOperator::Plus,
                        right_operand: Box::new(right),
                    };
                },
                Token::Minus => {
                    left = Expression::BinaryOperation {
                        left_operand: Box::new(left),
                        operator: BinaryOperator::Minus,
                        right_operand: Box::new(right),
                    };
                },
                Token::Multiply => {
                    left = Expression::BinaryOperation {
                        left_operand: Box::new(left),
                        operator: BinaryOperator::Multiply,
                        right_operand: Box::new(right),
                    };
                },
                Token::Divide => {
                    left = Expression::BinaryOperation {
                        left_operand: Box::new(left),
                        operator: BinaryOperator::Divide,
                        right_operand: Box::new(right),
                    };
                },
                _ => {
                    proof {
                        assert(false);
                    }
                    return Err(ParseError::InvalidInput(String::from_str("Unexpected operator")));
                },
            }
            proof {
                assert(left@ == ExprV::BinaryOperation {
                    left_operand: Box::new(left0),
                    operator: op_of(tok_at(ts, j0)),
                    right_operand: Box::new(right@),
                });
                assert forall|f: nat|
                    !(#[trigger] climb_fuel(ts, left@, k, mp, f) is OutOfFuel) implies spec_expr(
                    ts,
                    i0,
                    mp,
                ) == climb_fuel(ts, left@, k, mp, f) by {
                    let fe = choose|g: nat|
                        !(#[trigger] expr_fuel(ts, j0 + 1, tp, g) is OutOfFuel);
                    assert(expr_fuel(ts, j0 + 1, tp, fe) == ParseOut::Done(right@, k));
                    let m = if f >= fe {
                        f
                    } else {
                        fe
                    };
                    lemma_mono_expr(ts, j0 + 1, tp, fe, m);
                    lemma_mono_climb(ts, left@, k, mp, f, m);
                    assert(climb_fuel(ts, left0, j0, mp, m + 1) == climb_fuel(ts, left@, k, mp, m));
                }
            }
        }
        Ok(left)
    }

    /// Parses one whole expression from the current position, consuming
    /// a prefix of the token stream: the result is exactly what the
    /// model's precedence climbing yields at floor 0.
    pub fn parse(&mut self) -> (r: Result<Expression, ParseError>)
        requires
            old(self).wf(),
        ensures
            final(self).wf(),
            final(self).ts() == old(self).ts(),
            old(self).idx() <= final(self).idx(),
            match r {
                Ok(e) => spec_expr(old(self).ts(), old(self).idx(), 0) == ParseOut::Done(
                    e@,
                    final(self).idx(),
                ),
                Err(err) => spec_expr(old(self).ts(), old(self).idx(), 0) == ParseOut::Fail
                    && err is InvalidInput,
            },
    {
        self.parse_expression(0)
    }
}

} // verus!
