//! The lexical units of a boolean expression and the compiled postfix program.

use vstd::prelude::*;

verus! {

/// The mathematical shape of a [`Token`]: the same variants, with a variable's
/// name abstracted to its character sequence.
pub enum TokenModel {
    /// A constant truth value.
    Lit(bool),
    /// A variable: its name and its interned index.
    Var(Seq<char>, nat),
    /// Negation.
    Not,
    /// Conjunction.
    And,
    /// Exclusive disjunction.
    Xor,
    /// Disjunction.
    Or,
    /// Material implication.
    Implication,
    /// Biconditional.
    Equality,
    /// An opening parenthesis.
    LParen,
    /// A closing parenthesis.
    RParen,
}

/// All the tokens a boolean expression can contain.
#[derive(Debug)]
pub enum Token {
    /// A literal value, whether `true` or `false`.
    Literal(bool),
    /// A variable, with a given name and index. The index is assigned at the
    /// variable's first appearance, in source order; repeated occurrences of
    /// the same name reuse it.
    Var(String, usize),
    /// The NOT operator.
    Not,
    /// The AND operator.
    And,
    /// The exclusive-OR operator.
    Xor,
    /// The OR operator.
    Or,
    /// The IMPLICATION operator.
    Implication,
    /// The EQUALITY operator.
    Equality,
    /// A left parenthesis.
    LParen,
    /// A right parenthesis.
    RParen,
}

impl View for Token {
    type V = TokenModel;

    open spec fn view(&self) -> TokenModel {
        match self {
            Token::Literal(b) => TokenModel::Lit(*b),
            Token::Var(name, idx) => TokenModel::Var(name@, *idx as nat),
            Token::Not => TokenModel::Not,
            Token::And => TokenModel::And,
            Token::Xor => TokenModel::Xor,
            Token::Or => TokenModel::Or,
            Token::Implication => TokenModel::Implication,
            Token::Equality => TokenModel::Equality,
            Token::LParen => TokenModel::LParen,
            Token::RParen => TokenModel::RParen,
        }
    }
}

impl Clone for Token {
    /// A clone carries the same name, index and variant.
    fn clone(&self) -> (r: Self)
        ensures
            r@ == self@,
    {
        match self {
            Token::Literal(b) => Token::Literal(*b),
            Token::Var(name, idx) => Token::Var(name.clone(), *idx),
            Token::Not => Token::Not,
            Token::And => Token::And,
            Token::Xor => Token::Xor,
            Token::Or => Token::Or,
            Token::Implication => Token::Implication,
            Token::Equality => Token::Equality,
            Token::LParen => Token::LParen,
            Token::RParen => Token::RParen,
        }
    }
}

/// Whether every variable token of `toks` points into the table `table`, at
/// its own name.
pub open spec fn toks_ok(toks: Seq<TokenModel>, table: Seq<Seq<char>>) -> bool {
    forall|k: int|
        0 <= k < toks.len() ==> (#[trigger] toks[k] matches TokenModel::Var(name, idx) ==> idx
            < table.len() && table[idx as int] == name)
}

/// Whether a token is one of the six operators, the only tokens that take part
/// in precedence comparisons.
pub open spec fn is_operator(t: TokenModel) -> bool {
    match t {
        TokenModel::Not => true,
        TokenModel::And => true,
        TokenModel::Xor => true,
        TokenModel::Or => true,
        TokenModel::Implication => true,
        TokenModel::Equality => true,
        _ => false,
    }
}

/// Operator precedence: higher binds tighter. Only meaningful on operators.
pub open spec fn spec_precedence(t: TokenModel) -> int {
    match t {
        TokenModel::Not => 5,
        TokenModel::And => 4,
        TokenModel::Xor => 3,
        TokenModel::Or => 2,
        TokenModel::Implication => 1,
        TokenModel::Equality => 0,
        _ => usize::MAX as int,
    }
}

impl Token {
    /// Whether this token is one of the six operators.
    pub fn is_op(&self) -> (r: bool)
        ensures
            r == is_operator(self@),
    {
        match self {
            Token::Not => true,
            Token::And => true,
            Token::Xor => true,
            Token::Or => true,
            Token::Implication => true,
            Token::Equality => true,
            _ => false,
        }
    }

    /// Operator precedence: Not binds tightest at 5, then And 4, Xor 3, Or 2,
    /// Implication 1 and Equality 0. Any token that is not an operator reports
    /// `usize::MAX`; such tokens are never precedence-compared.
    pub fn precedence(&self) -> (r: usize)
        ensures
            r == spec_precedence(self@),
    {
        match self {
            Token::Not => 5,
            Token::And => 4,
            Token::Xor => 3,
            Token::Or => 2,
            Token::Implication => 1,
            Token::Equality => 0,
            _ => usize::MAX,
        }
    }
}

/// A compiled expression: an immutable postfix sequence of tokens plus the
/// table of variable names, ordered by first appearance.
#[derive(Debug)]
pub struct Tokens {
    toks: Vec<Token>,
    var_map: Vec<String>,
    var_count: usize,
}

/// The token sequence of a compiled expression, as token models.
pub open spec fn toks_model(toks: Seq<Token>) -> Seq<TokenModel> {
    toks.map_values(|t: Token| t@)
}

/// A variable-name table as a sequence of character sequences.
pub open spec fn names_model(names: Seq<String>) -> Seq<Seq<char>> {
    names.map_values(|s: String| s@)
}

impl Tokens {
    /// The postfix program, as a sequence of token models.
    pub closed spec fn spec_tokens(&self) -> Seq<TokenModel> {
        toks_model(self.toks@)
    }

    /// The variable table, as a sequence of names.
    pub closed spec fn spec_vars(&self) -> Seq<Seq<char>> {
        names_model(self.var_map@)
    }

    /// The stored variable count.
    pub closed spec fn spec_var_count(&self) -> nat {
        self.var_count as nat
    }

    /// Well-formedness: the stored count equals the table's length and every
    /// variable token's index points into the table, at its own name.
    pub open spec fn wf(&self) -> bool {
        &&& self.spec_var_count() == self.spec_vars().len()
        &&& toks_ok(self.spec_tokens(), self.spec_vars())
    }

    /// Package a postfix program with its variable table.
    pub(crate) fn new(toks: Vec<Token>, var_map: Vec<String>) -> (r: Tokens)
        ensures
            r.spec_tokens() == toks_model(toks@),
            r.spec_vars() == names_model(var_map@),
            r.spec_var_count() == r.spec_vars().len(),
    {
        let var_count = var_map.len();
        Tokens { toks, var_map, var_count }
    }

    /// The number of tokens in the program.
    pub fn len(&self) -> (r: usize)
        ensures
            r == self.spec_tokens().len(),
    {
        self.toks.len()
    }

    /// The token at position `n` of the program.
    pub fn token_at(&self, n: usize) -> (r: &Token)
        requires
            n < self.spec_tokens().len(),
        ensures
            r@ == self.spec_tokens()[n as int],
    {
        &self.toks[n]
    }

    /// The postfix program as a list of tokens.
    pub fn tokens(&self) -> (r: &Vec<Token>)
        ensures
            toks_model(r@) == self.spec_tokens(),
    {
        &self.toks
    }

    /// The name of variable `n`.
    pub fn var_at(&self, n: usize) -> (r: &String)
        requires
            n < self.spec_vars().len(),
        ensures
            r@ == self.spec_vars()[n as int],
    {
        &self.var_map[n]
    }

    /// All the variable names, ordered by first occurrence in the expression.
    pub fn vars(&self) -> (r: &Vec<String>)
        ensures
            names_model(r@) == self.spec_vars(),
    {
        &self.var_map
    }

    /// The number of distinct variables in the expression.
    pub fn var_count(&self) -> (r: usize)
        ensures
            r == self.spec_var_count(),
    {
        self.var_count
    }
}

} // verus!
