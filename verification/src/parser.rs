//! Statement parsing: turns the token stream into a statement tree.
//!
//! The grammar is `let <identifier> = <literal> (<op> <literal>)* ;` and
//! `exit <literal-or-identifier> ;`, with `+`, `-` and `*` as operators.
//! Chains are built left-associatively: `a op1 b op2 c` nests as
//! `BinOp(BinOp(a, op1, b), op2, c)`. Identifiers inside arithmetic are
//! rejected. [`parse_status`] says exactly which token streams are
//! accepted and with which fault they are rejected; [`stmts_match`] pins
//! the produced tree down.

use vstd::prelude::*;

use crate::lexer::{KeywordType, OperatorType, SpecToken, Token, TokenType, tokens_view};
use crate::CompileError;

verus! {

/// An expression or statement node of the tree.
pub enum NodeExprs {
    /// An integer literal.
    Number(Token),
    /// A binary operation: left operand, operator token, right operand.
    BinOp(Box<NodeExprs>, Token, Box<NodeExprs>),
    /// A binding: name token and bound expression.
    Let(Token, Box<NodeExprs>),
    /// A terminating statement: its operand token.
    Exit(Token),
}

/// One statement of the program.
pub struct NodeStmt {
    pub expr: NodeExprs,
}

/// The parsed program: its statements in source order.
pub struct NodeRoot {
    pub stmts: Vec<NodeStmt>,
}

/// Whether the token is the `let` keyword.
pub open spec fn is_let_kw(t: SpecToken) -> bool {
    t.token_type == TokenType::Keyword && t.keyword_type == Some(KeywordType::Let)
}

/// Whether the token is the `exit` keyword.
pub open spec fn is_exit_kw(t: SpecToken) -> bool {
    t.token_type == TokenType::Keyword && t.keyword_type == Some(KeywordType::Exit)
}

/// Whether the token is the `=` operator.
pub open spec fn is_equals_op(t: SpecToken) -> bool {
    t.token_type == TokenType::Operator && t.op_type == Some(OperatorType::Equals)
}

/// Whether the token is an arithmetic operator: `+`, `-` or `*`.
pub open spec fn is_arith_op(t: SpecToken) -> bool {
    t.token_type == TokenType::Operator && (t.op_type == Some(OperatorType::Plus)
        || t.op_type == Some(OperatorType::Minus) || t.op_type == Some(OperatorType::Multiply))
}

/// The position of the first semicolon token at or after `from`.
pub open spec fn next_semicolon(toks: Seq<SpecToken>, from: int) -> Option<int>
    decreases toks.len() - from,
{
    if from < 0 || from >= toks.len() {
        None
    } else if toks[from].token_type == TokenType::SemiColon {
        Some(from)
    } else {
        next_semicolon(toks, from + 1)
    }
}

/// Whether the tokens in `i..end` form `literal (op literal)*`, reported
/// as the first fault or success; `chain_status` checks the leading
/// literal and [`chain_tail_status`] the operator/literal pairs.
pub open spec fn chain_status(toks: Seq<SpecToken>, i: int, end: int) -> Result<
    (),
    CompileError,
> {
    if i >= end {
        Err(CompileError::ExpectedLiteral)
    } else if toks[i].token_type != TokenType::Number {
        Err(CompileError::ExpectedLiteral)
    } else {
        chain_tail_status(toks, i + 1, end)
    }
}

pub open spec fn chain_tail_status(toks: Seq<SpecToken>, i: int, end: int) -> Result<
    (),
    CompileError,
>
    decreases end - i,
{
    if i >= end {
        Ok(())
    } else if !is_arith_op(toks[i]) {
        Err(CompileError::ExpectedOperator)
    } else if i + 1 >= end || toks[i + 1].token_type != TokenType::Number {
        Err(CompileError::ExpectedLiteral)
    } else {
        chain_tail_status(toks, i + 2, end)
    }
}

/// The position after the statement starting at `i`, or its first fault.
pub open spec fn stmt_status(toks: Seq<SpecToken>, i: int) -> Result<int, CompileError> {
    let t = toks[i];
    if is_let_kw(t) {
        if i + 1 >= toks.len() || toks[i + 1].token_type != TokenType::Identifier {
            Err(CompileError::ExpectedIdentifier)
        } else if i + 2 >= toks.len() || !is_equals_op(toks[i + 2]) {
            Err(CompileError::ExpectedEquals)
        } else {
            match next_semicolon(toks, i + 3) {
                None => Err(CompileError::ExpectedSemicolon),
                Some(sem) => match chain_status(toks, i + 3, sem) {
                    Err(e) => Err(e),
                    Ok(u) => Ok(sem + 1),
                },
            }
        }
    } else if is_exit_kw(t) {
        if i + 1 >= toks.len() || !(toks[i + 1].token_type == TokenType::Number || toks[i
            + 1].token_type == TokenType::Identifier) {
            Err(CompileError::ExpectedOperand)
        } else if i + 2 >= toks.len() || toks[i + 2].token_type != TokenType::SemiColon {
            Err(CompileError::ExpectedSemicolon)
        } else {
            Ok(i + 3)
        }
    } else {
        Err(CompileError::ExpectedStatement)
    }
}

/// Whether the whole token stream from `i` onward parses, or its first
/// fault.
pub open spec fn parse_status(toks: Seq<SpecToken>, i: int) -> Result<(), CompileError>
    decreases toks.len() - i,
{
    if i < 0 || i >= toks.len() {
        Ok(())
    } else {
        match stmt_status(toks, i) {
            Err(e) => Err(e),
            Ok(j) => {
                let k = if j > i {
                    j
                } else {
                    i + 1
                };
                parse_status(toks, if k > toks.len() {
                    toks.len() as int
                } else {
                    k
                })
            },
        }
    }
}

/// The number of tokens an expression chain spans: one per literal leaf,
/// one per operator.
pub open spec fn chain_width(e: NodeExprs) -> int
    decreases e,
{
    match e {
        NodeExprs::Number(_t) => 1,
        NodeExprs::BinOp(l, _op, _r) => chain_width(*l) + 2,
        _ => 0,
    }
}

/// Whether `e` is exactly the left-associative tree of the expression
/// tokens in `i..end`.
pub open spec fn chain_matches(toks: Seq<SpecToken>, i: int, end: int, e: NodeExprs) -> bool
    decreases e,
{
    match e {
        NodeExprs::Number(t) => 0 <= i && end == i + 1 && end <= toks.len() && t@ == toks[i],
        NodeExprs::BinOp(l, op, r) => 0 <= i && end >= i + 3 && end <= toks.len() && op@ == toks[end
            - 2] && is_arith_op(toks[end - 2]) && (match *r {
            NodeExprs::Number(rt) => rt@ == toks[end - 1] && toks[end - 1].token_type
                == TokenType::Number,
            _ => false,
        }) && chain_matches(toks, i, end - 2, *l),
        _ => false,
    }
}

/// Whether `s` is exactly the statement spanned by the tokens in `i..j`.
pub open spec fn stmt_matches(toks: Seq<SpecToken>, i: int, j: int, s: NodeExprs) -> bool {
    match s {
        NodeExprs::Let(name, e) => 0 <= i && i + 5 <= j && j <= toks.len() && is_let_kw(toks[i])
            && name@ == toks[i + 1] && toks[i + 1].token_type == TokenType::Identifier
            && is_equals_op(toks[i + 2]) && chain_matches(toks, i + 3, j - 1, *e) && toks[j
            - 1].token_type == TokenType::SemiColon,
        NodeExprs::Exit(t) => 0 <= i && j == i + 3 && j <= toks.len() && is_exit_kw(toks[i]) && t@
            == toks[i + 1] && (toks[i + 1].token_type == TokenType::Number || toks[i
            + 1].token_type == TokenType::Identifier) && toks[i + 2].token_type
            == TokenType::SemiColon,
        _ => false,
    }
}

/// Whether `stmts` is exactly the statement list spanned by the tokens in
/// `i..j`.
pub open spec fn stmts_match(toks: Seq<SpecToken>, i: int, j: int, stmts: Seq<NodeStmt>) -> bool
    decreases stmts.len(),
{
    if stmts.len() == 0 {
        j == i
    } else {
        match stmts[0].expr {
            NodeExprs::Let(_name, e) => {
                let k = i + 4 + chain_width(*e);
                stmt_matches(toks, i, k, stmts[0].expr) && stmts_match(toks, k, j, stmts.drop_first())
            },
            NodeExprs::Exit(_t) => stmt_matches(toks, i, i + 3, stmts[0].expr) && stmts_match(
                toks,
                i + 3,
                j,
                stmts.drop_first(),
            ),
            _ => false,
        }
    }
}

/// A chain tree spans exactly [`chain_width`] tokens.
pub proof fn lemma_chain_matches_width(toks: Seq<SpecToken>, i: int, end: int, e: NodeExprs)
    requires
        chain_matches(toks, i, end, e),
    ensures
        end == i + chain_width(e),
    decreases e,
{
    match e {
        NodeExprs::Number(_t) => {
        },
        NodeExprs::BinOp(l, _op, _r) => {
            lemma_chain_matches_width(toks, i, end - 2, *l);
        },
        _ => {
        },
    }
}

/// Extending a matched statement list by one further matched statement.
pub proof fn lemma_stmts_match_snoc(
    toks: Seq<SpecToken>,
    i: int,
    j: int,
    k: int,
    stmts: Seq<NodeStmt>,
    s: NodeStmt,
)
    requires
        stmts_match(toks, i, j, stmts),
        stmt_matches(toks, j, k, s.expr),
    ensures
        stmts_match(toks, i, k, stmts.push(s)),
    decreases stmts.len(),
{
    let ext = stmts.push(s);
    if stmts.len() == 0 {
        assert(j == i);
        assert(ext[0] == s);
        assert(ext.drop_first() =~= Seq::<NodeStmt>::empty());
        match s.expr {
            NodeExprs::Let(_name, e) => {
                lemma_chain_matches_width(toks, i + 3, k - 1, *e);
                assert(k == i + 4 + chain_width(*e));
                assert(stmts_match(toks, k, k, ext.drop_first()));
                assert(stmts_match(toks, i, k, ext));
            },
            NodeExprs::Exit(_t) => {
                assert(k == i + 3);
                assert(stmts_match(toks, k, k, ext.drop_first()));
                assert(stmts_match(toks, i, k, ext));
            },
            _ => {
            },
        }
    } else {
        assert(ext.drop_first() =~= stmts.drop_first().push(s));
        assert(ext[0] == stmts[0]);
        match stmts[0].expr {
            NodeExprs::Let(_name, e) => {
                let m = i + 4 + chain_width(*e);
                assert(stmt_matches(toks, i, m, stmts[0].expr));
                assert(stmts_match(toks, m, j, stmts.drop_first()));
                lemma_stmts_match_snoc(toks, m, j, k, stmts.drop_first(), s);
                assert(stmts_match(toks, m, k, ext.drop_first()));
                assert(stmts_match(toks, i, k, ext));
            },
            NodeExprs::Exit(_t) => {
                assert(stmt_matches(toks, i, i + 3, stmts[0].expr));
                assert(stmts_match(toks, i + 3, j, stmts.drop_first()));
                lemma_stmts_match_snoc(toks, i + 3, j, k, stmts.drop_first(), s);
                assert(stmts_match(toks, i + 3, k, ext.drop_first()));
                assert(stmts_match(toks, i, k, ext));
            },
            _ => {
            },
        }
    }
}

/// The statement parser.
pub struct Parser {
    tokens: Vec<Token>,
    index: usize,
}

impl Parser {
    pub fn new() -> (r: Parser) {
        Parser { tokens: Vec::new(), index: 0 }
    }

    /// Parses the token stream into the statement tree. Accepts exactly
    /// the streams that [`parse_status`] accepts, reports the same first
    /// fault, and produces exactly the tree that [`stmts_match`] pins to
    /// the tokens.
    pub fn parse(self, tokens: Vec<Token>) -> (r: Result<NodeRoot, CompileError>)
        ensures
            match r {
                Ok(root) => parse_status(tokens_view(tokens@), 0) == Ok::<(), CompileError>(())
                    && stmts_match(tokens_view(tokens@), 0, tokens@.len() as int, root.stmts@),
                Err(e) => parse_status(tokens_view(tokens@), 0) == Err::<(), CompileError>(e),
            },
    {
        let mut this = self;
        this.tokens = tokens;
        this.index = 0;
        let ghost tv = tokens_view(this.tokens@);
        let mut stmts: Vec<NodeStmt> = Vec::new();
        while this.index < this.tokens.len()
            invariant
                tv == tokens_view(this.tokens@),
                tv == tokens_view(tokens@),
                this.index <= this.tokens@.len(),
                parse_status(tv, 0) == parse_status(tv, this.index as int),
                stmts_match(tv, 0, this.index as int, stmts@),
            decreases this.tokens@.len() - this.index,
        {
            let ghost i0 = this.index as int;
            let node = match this.parse_expr() {
                Ok(n) => n,
                Err(e) => {
                    proof {
                        assert(parse_status(tv, i0) == Err::<(), CompileError>(e));
                    }
                    return Err(e);
                },
            };
            let ghost i1 = this.index as int;
            proof {
                assert(parse_status(tv, i0) == parse_status(tv, i1));
                lemma_stmts_match_snoc(tv, 0, i0, i1, stmts@, NodeStmt { expr: node });
            }
            stmts.push(NodeStmt { expr: node });
        }
        proof {
            assert(parse_status(tv, this.index as int) == Ok::<(), CompileError>(()));
        }
        Ok(NodeRoot { stmts })
    }

    /// Parses one statement starting at the current token, leaving the
    /// index just past its semicolon.
    fn parse_expr(&mut self) -> (r: Result<NodeExprs, CompileError>)
        requires
            old(self).index < old(self).tokens@.len(),
        ensures
            final(self).tokens@ == old(self).tokens@,
            match r {
                Ok(node) => old(self).index < final(self).index && final(self).index <= final(self).tokens@.len()
                    && stmt_status(tokens_view(old(self).tokens@), old(self).index as int)
                    == Ok::<int, CompileError>(final(self).index as int) && stmt_matches(
                    tokens_view(old(self).tokens@),
                    old(self).index as int,
                    final(self).index as int,
                    node,
                ),
                Err(e) => stmt_status(tokens_view(old(self).tokens@), old(self).index as int)
                    == Err::<int, CompileError>(e),
            },
    {
        let ghost tv = tokens_view(old(self).tokens@);
        let ghost i = old(self).index as int;
        let t = self.tokens[self.index].clone();
        let is_let = t.token_type == TokenType::Keyword && (match t.keyword_type {
            Some(KeywordType::Let) => true,
            _ => false,
        });
        let is_exit = t.token_type == TokenType::Keyword && (match t.keyword_type {
            Some(KeywordType::Exit) => true,
            _ => false,
        });
        if is_let {
            let name = match self.consume(1) {
                Some(tok) => tok,
                None => {
                    return Err(CompileError::ExpectedIdentifier);
                },
            };
            if name.token_type != TokenType::Identifier {
                return Err(CompileError::ExpectedIdentifier);
            }
            let eq = match self.consume(1) {
                Some(tok) => tok,
                None => {
                    return Err(CompileError::ExpectedEquals);
                },
            };
            let eq_ok = eq.token_type == TokenType::Operator && (match eq.op_type {
                Some(OperatorType::Equals) => true,
                _ => false,
            });
            if !eq_ok {
                return Err(CompileError::ExpectedEquals);
            }
            let sem = match self.peek_until_semicolon() {
                Some(p) => p,
                None => {
                    return Err(CompileError::ExpectedSemicolon);
                },
            };
            let expr = match self.parse_chain(self.index + 1, sem) {
                Ok(e) => e,
                Err(e) => {
                    return Err(e);
                },
            };
            self.consume_until_semicolon();
            let _advance = self.consume(1);
            proof {
                assert(final(self).index == sem + 1);
                assert(stmt_status(tv, i) == Ok::<int, CompileError>(sem + 1 as int));
            }
            Ok(NodeExprs::Let(name, Box::new(expr)))
        } else if is_exit {
            let operand = match self.consume(1) {
                Some(tok) => tok,
                None => {
                    return Err(CompileError::ExpectedOperand);
                },
            };
            if !(operand.token_type == TokenType::Number || operand.token_type
                == TokenType::Identifier) {
                return Err(CompileError::ExpectedOperand);
            }
            let semi = match self.consume(1) {
                Some(tok) => tok,
                None => {
                    return Err(CompileError::ExpectedSemicolon);
                },
            };
            if semi.token_type != TokenType::SemiColon {
                return Err(CompileError::ExpectedSemicolon);
            }
            let _advance = self.consume(1);
            Ok(NodeExprs::Exit(operand))
        } else {
            Err(CompileError::ExpectedStatement)
        }
    }

    /// Folds the expression tokens in `start..end` into a
    /// left-associative tree.
    fn parse_chain(&self, start: usize, end: usize) -> (r: Result<NodeExprs, CompileError>)
        requires
            end <= self.tokens@.len(),
        ensures
            match r {
                Ok(node) => chain_status(tokens_view(self.tokens@), start as int, end as int)
                    == Ok::<(), CompileError>(()) && chain_matches(
                    tokens_view(self.tokens@),
                    start as int,
                    end as int,
                    node,
                ),
                Err(e) => chain_status(tokens_view(self.tokens@), start as int, end as int)
                    == Err::<(), CompileError>(e),
            },
    {
        let ghost tv = tokens_view(self.tokens@);
        if start >= end {
            return Err(CompileError::ExpectedLiteral);
        }
        let first = self.tokens[start].clone();
        if first.token_type != TokenType::Number {
            return Err(CompileError::ExpectedLiteral);
        }
        let mut acc = NodeExprs::Number(first);
        let mut j = start + 1;
        while j < end
            invariant
                tv == tokens_view(self.tokens@),
                end <= self.tokens@.len(),
                start < j <= end,
                tv[start as int].token_type == TokenType::Number,
                chain_matches(tv, start as int, j as int, acc),
                chain_tail_status(tv, start + 1 as int, end as int) == chain_tail_status(
                    tv,
                    j as int,
                    end as int,
                ),
            decreases end - j,
        {
            let op = self.tokens[j].clone();
            let op_arith = op.token_type == TokenType::Operator && (match op.op_type {
                Some(OperatorType::Plus) => true,
                Some(OperatorType::Minus) => true,
                Some(OperatorType::Multiply) => true,
                _ => false,
            });
            if !op_arith {
                proof {
                    assert(chain_tail_status(tv, j as int, end as int) == Err::<
                        (),
                        CompileError,
                    >(CompileError::ExpectedOperator));
                }
                return Err(CompileError::ExpectedOperator);
            }
            if j + 1 >= end {
                proof {
                    assert(chain_tail_status(tv, j as int, end as int) == Err::<
                        (),
                        CompileError,
                    >(CompileError::ExpectedLiteral));
                }
                return Err(CompileError::ExpectedLiteral);
            }
            let lit = self.tokens[j + 1].clone();
            if lit.token_type != TokenType::Number {
                proof {
                    assert(chain_tail_status(tv, j as int, end as int) == Err::<
                        (),
                        CompileError,
                    >(CompileError::ExpectedLiteral));
                }
                return Err(CompileError::ExpectedLiteral);
            }
            proof {
                assert(chain_tail_status(tv, j as int, end as int) == chain_tail_status(
                    tv,
                    j + 2 as int,
                    end as int,
                ));
            }
            acc = NodeExprs::BinOp(Box::new(acc), op, Box::new(NodeExprs::Number(lit)));
            j = j + 2;
        }
        proof {
            assert(chain_tail_status(tv, j as int, end as int) == Ok::<(), CompileError>(()));
        }
        Ok(acc)
    }

    /// Advances the index by `amount` and returns the token now under it,
    /// if any.
    fn consume(&mut self, amount: usize) -> (r: Option<Token>)
        requires
            old(self).index + amount <= old(self).tokens@.len(),
        ensures
            final(self).tokens@ == old(self).tokens@,
            final(self).index == old(self).index + amount,
            r is Some <==> final(self).index < final(self).tokens@.len(),
            match r {
                Some(t) => t@ == tokens_view(final(self).tokens@)[final(self).index as int],
                None => true,
            },
    {
        let n = self.tokens.len();
        self.index = self.index + amount;
        if self.index < n {
            Some(self.tokens[self.index].clone())
        } else {
            None
        }
    }

    /// The position of the first semicolon after the current token.
    fn peek_until_semicolon(&self) -> (r: Option<usize>)
        requires
            self.index < self.tokens@.len(),
        ensures
            match r {
                Some(p) => next_semicolon(tokens_view(self.tokens@), self.index + 1 as int)
                    == Some(p as int) && self.index < p < self.tokens@.len() && tokens_view(
                    self.tokens@,
                )[p as int].token_type == TokenType::SemiColon,
                None => next_semicolon(tokens_view(self.tokens@), self.index + 1 as int)
                    is None,
            },
    {
        let ghost tv = tokens_view(self.tokens@);
        let n = self.tokens.len();
        let mut j = self.index + 1;
        while j < n
            invariant
                tv == tokens_view(self.tokens@),
                n == self.tokens@.len(),
                self.index < j <= self.tokens@.len(),
                next_semicolon(tv, self.index + 1 as int) == next_semicolon(tv, j as int),
            decreases self.tokens@.len() - j,
        {
            if self.tokens[j].token_type == TokenType::SemiColon {
                proof {
                    assert(next_semicolon(tv, j as int) == Some(j as int));
                }
                return Some(j);
            }
            proof {
                assert(next_semicolon(tv, j as int) == next_semicolon(tv, j + 1 as int));
            }
            j = j + 1;
        }
        proof {
            assert(next_semicolon(tv, j as int) is None);
        }
        None
    }

    /// Advances the index to the first semicolon after the current token,
    /// if there is one.
    fn consume_until_semicolon(&mut self) -> (r: Option<usize>)
        requires
            old(self).index < old(self).tokens@.len(),
        ensures
            final(self).tokens@ == old(self).tokens@,
            match r {
                Some(p) => next_semicolon(
                    tokens_view(old(self).tokens@),
                    old(self).index + 1 as int,
                ) == Some(p as int) && final(self).index == p && p < final(self).tokens@.len(),
                None => next_semicolon(tokens_view(old(self).tokens@), old(self).index + 1 as int)
                    is None && final(self).index == old(self).index,
            },
    {
        match self.peek_until_semicolon() {
            Some(p) => {
                self.index = p;
                Some(p)
            },
            None => None,
        }
    }
}

} // verus!
