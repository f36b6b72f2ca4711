//! The shunting-yard parser: converts the lexer's infix token stream into a
//! postfix program, carrying the ordered variable table.

use crate::lexer::Lexer;
use crate::literals::TokenLiterals;
use crate::token::{
    is_operator, names_model, spec_precedence, toks_model, toks_ok, Token, TokenModel, Tokens,
};
use crate::Error;
use vstd::prelude::*;
use vstd::seq_lib::*;

verus! {

/// Pop operators whose precedence is strictly greater than `p` off the top of
/// the stack: the tokens popped, in pop order, and the stack that remains.
/// Equal precedence stays put, which keeps same-precedence chains
/// left-associative.
pub open spec fn pop_gt(stack: Seq<TokenModel>, p: int) -> (Seq<TokenModel>, Seq<TokenModel>)
    decreases stack.len(),
{
    if stack.len() == 0 {
        (Seq::empty(), stack)
    } else {
        let top = stack.last();
        if is_operator(top) && spec_precedence(top) > p {
            let r = pop_gt(stack.drop_last(), p);
            (seq![top] + r.0, r.1)
        } else {
            (Seq::empty(), stack)
        }
    }
}

/// Pop tokens off the stack until an opening parenthesis is popped and
/// discarded: the tokens popped before it, in pop order, and the stack that
/// remains. Nothing when the stack empties first.
pub open spec fn pop_to_lparen(stack: Seq<TokenModel>) -> Option<
    (Seq<TokenModel>, Seq<TokenModel>),
>
    decreases stack.len(),
{
    if stack.len() == 0 {
        None
    } else {
        let top = stack.last();
        if top is LParen {
            Some((Seq::empty(), stack.drop_last()))
        } else {
            match pop_to_lparen(stack.drop_last()) {
                None => None,
                Some(r) => Some((seq![top] + r.0, r.1)),
            }
        }
    }
}

/// Whether an opening parenthesis is still on the stack.
pub open spec fn contains_lparen(stack: Seq<TokenModel>) -> bool {
    exists|i: int| 0 <= i < stack.len() && stack[i] is LParen
}

/// The shunting-yard algorithm over the remaining input, with the output and
/// operator stack accumulated so far. Nothing marks unbalanced parentheses: a
/// closing parenthesis with no opening one on the stack, or an opening one
/// still there at the end of the input.
pub open spec fn sy_rec(
    input: Seq<TokenModel>,
    out: Seq<TokenModel>,
    stack: Seq<TokenModel>,
) -> Option<Seq<TokenModel>>
    decreases input.len(),
{
    if input.len() == 0 {
        if contains_lparen(stack) {
            None
        } else {
            Some(out + stack.reverse())
        }
    } else {
        let t = input[0];
        match t {
            TokenModel::Lit(_) => sy_rec(input.skip(1), out.push(t), stack),
            TokenModel::Var(_, _) => sy_rec(input.skip(1), out.push(t), stack),
            TokenModel::LParen => sy_rec(input.skip(1), out, stack.push(t)),
            TokenModel::RParen => match pop_to_lparen(stack) {
                None => None,
                Some(r) => sy_rec(input.skip(1), out + r.0, r.1),
            },
            _ => {
                let r = pop_gt(stack, spec_precedence(t));
                sy_rec(input.skip(1), out + r.0, r.1.push(t))
            },
        }
    }
}

/// The postfix program the shunting yard produces from an infix token stream,
/// or nothing when the parentheses do not balance.
pub open spec fn sy(input: Seq<TokenModel>) -> Option<Seq<TokenModel>> {
    sy_rec(input, Seq::empty(), Seq::empty())
}

/// Popping by precedence loses no variable bookkeeping: both parts keep every
/// variable token pointing into the table.
proof fn lemma_pop_gt_ok(stack: Seq<TokenModel>, p: int, table: Seq<Seq<char>>)
    requires
        toks_ok(stack, table),
    ensures
        toks_ok(pop_gt(stack, p).0, table),
        toks_ok(pop_gt(stack, p).1, table),
    decreases stack.len(),
{
    if stack.len() > 0 {
        let top = stack.last();
        if is_operator(top) && spec_precedence(top) > p {
            assert(toks_ok(stack.drop_last(), table));
            lemma_pop_gt_ok(stack.drop_last(), p, table);
        }
    }
}

/// Popping to a parenthesis loses no variable bookkeeping either.
proof fn lemma_pop_to_lparen_ok(stack: Seq<TokenModel>, table: Seq<Seq<char>>)
    requires
        toks_ok(stack, table),
    ensures
        pop_to_lparen(stack) matches Some(r) ==> toks_ok(r.0, table) && toks_ok(r.1, table),
    decreases stack.len(),
{
    if stack.len() > 0 {
        let top = stack.last();
        assert(toks_ok(stack.drop_last(), table));
        if !(top is LParen) {
            lemma_pop_to_lparen_ok(stack.drop_last(), table);
        }
    }
}

/// Every token the shunting yard emits comes from its input, its output so
/// far, or its stack: variable bookkeeping survives parsing.
pub proof fn lemma_sy_rec_ok(
    input: Seq<TokenModel>,
    out: Seq<TokenModel>,
    stack: Seq<TokenModel>,
    table: Seq<Seq<char>>,
)
    requires
        toks_ok(input, table),
        toks_ok(out, table),
        toks_ok(stack, table),
    ensures
        sy_rec(input, out, stack) matches Some(r) ==> toks_ok(r, table),
    decreases input.len(),
{
    if input.len() == 0 {
        if !contains_lparen(stack) {
            assert(toks_ok(stack.reverse(), table));
            assert(toks_ok(out + stack.reverse(), table));
        }
    } else {
        let t = input[0];
        assert(toks_ok(input.skip(1), table));
        match t {
            TokenModel::Lit(_) => {
                lemma_sy_rec_ok(input.skip(1), out.push(t), stack, table);
            },
            TokenModel::Var(_, _) => {
                assert(toks_ok(out.push(t), table));
                lemma_sy_rec_ok(input.skip(1), out.push(t), stack, table);
            },
            TokenModel::LParen => {
                lemma_sy_rec_ok(input.skip(1), out, stack.push(t), table);
            },
            TokenModel::RParen => {
                lemma_pop_to_lparen_ok(stack, table);
                match pop_to_lparen(stack) {
                    None => {},
                    Some(r) => {
                        assert(toks_ok(out + r.0, table));
                        lemma_sy_rec_ok(input.skip(1), out + r.0, r.1, table);
                    },
                }
            },
            _ => {
                lemma_pop_gt_ok(stack, spec_precedence(t), table);
                let r = pop_gt(stack, spec_precedence(t));
                assert(toks_ok(out + r.0, table));
                assert(toks_ok(r.1.push(t), table));
                lemma_sy_rec_ok(input.skip(1), out + r.0, r.1.push(t), table);
            },
        }
    }
}

/// The boolean-expression parser: a lexed token stream waiting to be shunted
/// into postfix form.
#[derive(Debug)]
pub struct Parser {
    lexer: Lexer,
}

impl Parser {
    /// The infix token stream to be parsed.
    pub closed spec fn spec_tokens(&self) -> Seq<TokenModel> {
        self.lexer.spec_tokens()
    }

    /// The interned variable names, by order of first appearance.
    pub closed spec fn spec_vars(&self) -> Seq<Seq<char>> {
        self.lexer.spec_vars()
    }

    /// Well-formedness: every variable token points into the variable table,
    /// at its own name. Lexing always establishes this.
    pub open spec fn wf(&self) -> bool {
        toks_ok(self.spec_tokens(), self.spec_vars())
    }

    /// Lex `input` with the default token spellings, ready for parsing.
    pub fn parse(input: &str) -> (r: Parser)
        ensures
            r.wf(),
            r.spec_tokens() == crate::lexer::lex_rest(
                crate::literals::default_model(),
                input@,
                Seq::empty(),
            ).0,
            r.spec_vars() == crate::lexer::lex_rest(
                crate::literals::default_model(),
                input@,
                Seq::empty(),
            ).1,
    {
        proof {
            crate::literals::lemma_default_wf();
            crate::lexer::lemma_lex_rest_table(
                crate::literals::default_model(),
                input@,
                Seq::empty(),
            );
        }
        Parser { lexer: Lexer::lex(input) }
    }

    /// Lex `input` with the given token spellings, ready for parsing.
    pub fn parse_with_literals(input: &str, literals: TokenLiterals) -> (r: Parser)
        requires
            literals@.wf(),
        ensures
            r.wf(),
            r.spec_tokens() == crate::lexer::lex_rest(literals@, input@, Seq::empty()).0,
            r.spec_vars() == crate::lexer::lex_rest(literals@, input@, Seq::empty()).1,
    {
        proof {
            crate::lexer::lemma_lex_rest_table(literals@, input@, Seq::empty());
        }
        Parser { lexer: Lexer::lex_with_literals(input, literals) }
    }

    /// Run the shunting-yard algorithm on the token stream: the postfix
    /// program with its variable table, or `MismatchedParenthesis` when the
    /// parentheses do not balance.
    #[verifier::loop_isolation(false)]
    pub fn shunting_yard(self) -> (r: Result<Tokens, Error>)
        requires
            self.wf(),
        ensures
            match sy(self.spec_tokens()) {
                Some(program) => r matches Ok(tk) && tk.wf() && tk.spec_tokens() == program
                    && tk.spec_vars() == self.spec_vars(),
                None => r == Err::<Tokens, Error>(Error::MismatchedParenthesis),
            },
    {
        let ghost input = self.spec_tokens();
        let ghost table = self.spec_vars();
        let ghost goal = sy(input);
        let (toks, var_map) = self.lexer.into_parts();
        let n = toks.len();
        let mut out: Vec<Token> = Vec::new();
        let mut stack: Vec<Token> = Vec::new();
        let mut i: usize = 0;
        proof {
            assert(input.skip(0) =~= input);
            assert(toks_model(out@) =~= Seq::<TokenModel>::empty());
            assert(toks_model(stack@) =~= Seq::<TokenModel>::empty());
        }
        while i < n
            invariant
                n == input.len(),
                0 <= i <= n,
                input == toks_model(toks@),
                goal == sy_rec(input.skip(i as int), toks_model(out@), toks_model(stack@)),
            decreases n - i,
        {
            let ghost out0 = toks_model(out@);
            let ghost stack0 = toks_model(stack@);
            let ghost t = input[i as int];
            proof {
                assert(input.skip(i as int)[0] == t);
                assert(input.skip(i as int).skip(1) =~= input.skip(i as int + 1));
            }
            let tok = &toks[i];
            proof {
                assert(tok@ == t);
            }
            match tok {
                Token::Literal(_) => {
                    out.push(tok.clone());
                    proof {
                        assert(toks_model(out@) =~= out0.push(t));
                    }
                },
                Token::Var(_, _) => {
                    out.push(tok.clone());
                    proof {
                        assert(toks_model(out@) =~= out0.push(t));
                    }
                },
                Token::LParen => {
                    stack.push(tok.clone());
                    proof {
                        assert(toks_model(stack@) =~= stack0.push(t));
                    }
                },
                Token::RParen => {
                    // Pop to the matching parenthesis; an empty stack means
                    // the parentheses do not balance.
                    let mut found = false;
                    while !found && stack.len() > 0
                        invariant
                            !found ==> goal == (match pop_to_lparen(toks_model(stack@)) {
                                None => None::<Seq<TokenModel>>,
                                Some(r) => sy_rec(
                                    input.skip(i as int + 1),
                                    toks_model(out@) + r.0,
                                    r.1,
                                ),
                            }),
                            found ==> goal == sy_rec(
                                input.skip(i as int + 1),
                                toks_model(out@),
                                toks_model(stack@),
                            ),
                        decreases stack.len(),
                    {
                        let ghost sk = toks_model(stack@);
                        let ghost ot = toks_model(out@);
                        let popped = stack.pop().unwrap();
                        proof {
                            assert(toks_model(stack@) =~= sk.drop_last());
                            assert(sk.last() == popped@);
                        }
                        match popped {
                            Token::LParen => {
                                found = true;
                                proof {
                                    assert(pop_to_lparen(sk) == Some(
                                        (Seq::<TokenModel>::empty(), sk.drop_last()),
                                    ));
                                    assert(ot + Seq::<TokenModel>::empty() =~= ot);
                                }
                            },
                            other => {
                                out.push(other);
                                proof {
                                    assert(toks_model(out@) =~= ot.push(sk.last()));
                                    match pop_to_lparen(sk.drop_last()) {
                                        None => {},
                                        Some(r) => {
                                            assert(ot + (seq![sk.last()] + r.0) =~= ot.push(
                                                sk.last(),
                                            ) + r.0);
                                        },
                                    }
                                }
                            },
                        }
                    }
                    if !found {
                        proof {
                            assert(toks_model(stack@).len() == 0);
                            assert(pop_to_lparen(toks_model(stack@)) is None);
                        }
                        return Err(Error::MismatchedParenthesis);
                    }
                },
                op => {
                    // An operator: pop strictly tighter-binding operators
                    // first, then take the stack.
                    let p = op.precedence();
                    let ghost pv = spec_precedence(t);
                    while stack.len() > 0 && stack[stack.len() - 1].is_op() && stack[stack.len()
                        - 1].precedence() > p
                        invariant
                            pv == spec_precedence(t),
                            goal == (match pop_gt(toks_model(stack@), pv) {
                                (popped, rest) => sy_rec(
                                    input.skip(i as int + 1),
                                    toks_model(out@) + popped,
                                    rest.push(t),
                                ),
                            }),
                        decreases stack.len(),
                    {
                        let ghost sk = toks_model(stack@);
                        let ghost ot = toks_model(out@);
                        let popped = stack.pop().unwrap();
                        out.push(popped);
                        proof {
                            assert(toks_model(stack@) =~= sk.drop_last());
                            assert(toks_model(out@) =~= ot.push(sk.last()));
                            let r = pop_gt(sk.drop_last(), pv);
                            assert(ot + (seq![sk.last()] + r.0) =~= ot.push(sk.last()) + r.0);
                        }
                    }
                    let ghost pre = toks_model(stack@);
                    proof {
                        if pre.len() > 0 {
                            assert(pre.last() == stack@[stack@.len() - 1]@);
                        }
                        assert(pop_gt(pre, pv).0 =~= Seq::<TokenModel>::empty());
                        assert(pop_gt(pre, pv).1 == pre);
                        assert(toks_model(out@) + Seq::<TokenModel>::empty() =~= toks_model(
                            out@,
                        ));
                    }
                    stack.push(op.clone());
                    proof {
                        assert(toks_model(stack@) =~= pre.push(t));
                    }
                },
            }
            i = i + 1;
        }
        proof {
            assert(input.skip(n as int) =~= Seq::<TokenModel>::empty());
        }
        // Drain the stack; a parenthesis still there means the parentheses do
        // not balance.
        while stack.len() > 0
            invariant
                goal == sy_rec(Seq::empty(), toks_model(out@), toks_model(stack@)),
            decreases stack.len(),
        {
            let ghost sk = toks_model(stack@);
            let ghost ot = toks_model(out@);
            let popped = stack.pop().unwrap();
            proof {
                assert(toks_model(stack@) =~= sk.drop_last());
                assert(sk.last() == popped@);
            }
            match popped {
                Token::LParen => {
                    proof {
                        assert(sk[sk.len() - 1] is LParen);
                        assert(contains_lparen(sk));
                    }
                    return Err(Error::MismatchedParenthesis);
                },
                other => {
                    out.push(other);
                    proof {
                        assert(toks_model(out@) =~= ot.push(sk.last()));
                        if contains_lparen(sk) {
                            let wi = choose|wi: int| 0 <= wi < sk.len() && sk[wi] is LParen;
                            assert(sk.drop_last()[wi] == sk[wi]);
                            assert(contains_lparen(sk.drop_last()));
                        } else {
                            assert(contains_lparen(sk.drop_last()) ==> contains_lparen(sk));
                            assert(ot + sk.reverse() =~= ot.push(sk.last())
                                + sk.drop_last().reverse());
                        }
                    }
                },
            }
        }
        proof {
            assert(toks_model(stack@).len() == 0);
            assert(!contains_lparen(toks_model(stack@)));
            assert(toks_model(out@) + toks_model(stack@).reverse() =~= toks_model(out@));
            assert(goal == Some(toks_model(out@)));
            lemma_sy_rec_ok(input, Seq::empty(), Seq::empty(), table);
        }
        Ok(Tokens::new(out, var_map))
    }
}

} // verus!
