//! The configuration that maps each token kind to its accepted spellings, and
//! the prefix matching that drives the lexer.

use crate::token::{names_model, Token, TokenModel};
use vstd::prelude::*;
use vstd::string::StrSliceExecFns;
use vstd::string::StringExecFns;

verus! {

/// The code point of a character with ASCII upper case folded to lower case;
/// all other characters map to themselves.
pub open spec fn lower(c: char) -> int {
    if 65 <= c as u32 <= 90 {
        c as u32 + 32
    } else {
        c as u32 as int
    }
}

/// Case-insensitive character equality: equal up to ASCII case.
pub open spec fn eq_ci(a: char, b: char) -> bool {
    lower(a) == lower(b)
}

/// The whitespace that separates chunks of the input: the ASCII blank
/// characters.
pub open spec fn is_space(c: char) -> bool {
    c == ' ' || c == '\t' || c == '\n' || c == '\r' || c == '\x0c'
}

/// Whether `p` is a case-insensitive prefix of `s`.
pub open spec fn ci_prefix(p: Seq<char>, s: Seq<char>) -> bool {
    p.len() <= s.len() && forall|i: int| 0 <= i < p.len() ==> eq_ci(p[i], s[i])
}

/// The first spelling in `l` that is a case-insensitive prefix of `s`, as the
/// length it matches; nothing when no spelling matches.
pub open spec fn list_match(l: Seq<Seq<char>>, s: Seq<char>) -> Option<nat>
    decreases l.len(),
{
    if l.len() == 0 {
        None
    } else if ci_prefix(l[0], s) {
        Some(l[0].len())
    } else {
        list_match(l.skip(1), s)
    }
}

/// The mathematical shape of a [`TokenLiterals`]: one list of spellings per
/// token kind, each spelling a character sequence.
pub struct LiteralsModel {
    /// Spellings of the literal `true`.
    pub lit_true: Seq<Seq<char>>,
    /// Spellings of the literal `false`.
    pub lit_false: Seq<Seq<char>>,
    /// Spellings of negation.
    pub not: Seq<Seq<char>>,
    /// Spellings of conjunction.
    pub and: Seq<Seq<char>>,
    /// Spellings of exclusive disjunction.
    pub xor: Seq<Seq<char>>,
    /// Spellings of disjunction.
    pub or: Seq<Seq<char>>,
    /// Spellings of implication.
    pub implication: Seq<Seq<char>>,
    /// Spellings of the biconditional.
    pub equality: Seq<Seq<char>>,
    /// Spellings of an opening parenthesis.
    pub left_paren: Seq<Seq<char>>,
    /// Spellings of a closing parenthesis.
    pub right_paren: Seq<Seq<char>>,
}

/// A well-formed spelling list: at least one spelling, and no empty spelling,
/// so that every match consumes input.
pub open spec fn list_wf(l: Seq<Seq<char>>) -> bool {
    l.len() >= 1 && forall|i: int| 0 <= i < l.len() ==> (#[trigger] l[i]).len() >= 1
}

impl LiteralsModel {
    /// Well-formedness: every token kind keeps at least one spelling, and no
    /// spelling is empty.
    pub open spec fn wf(&self) -> bool {
        &&& list_wf(self.lit_true)
        &&& list_wf(self.lit_false)
        &&& list_wf(self.not)
        &&& list_wf(self.and)
        &&& list_wf(self.xor)
        &&& list_wf(self.or)
        &&& list_wf(self.implication)
        &&& list_wf(self.equality)
        &&& list_wf(self.left_paren)
        &&& list_wf(self.right_paren)
    }
}

/// The token kind whose spelling is a case-insensitive prefix of `s`, and the
/// matched spelling's length. Kinds are scanned in a fixed priority order —
/// literal true, literal false, not, and, xor, or, implication, equality, left
/// parenthesis, right parenthesis — and within a kind the first matching
/// spelling of its list wins.
pub open spec fn spec_starts_with(m: LiteralsModel, s: Seq<char>) -> Option<(TokenModel, nat)> {
    if list_match(m.lit_true, s) is Some {
        Some((TokenModel::Lit(true), list_match(m.lit_true, s).unwrap()))
    } else if list_match(m.lit_false, s) is Some {
        Some((TokenModel::Lit(false), list_match(m.lit_false, s).unwrap()))
    } else if list_match(m.not, s) is Some {
        Some((TokenModel::Not, list_match(m.not, s).unwrap()))
    } else if list_match(m.and, s) is Some {
        Some((TokenModel::And, list_match(m.and, s).unwrap()))
    } else if list_match(m.xor, s) is Some {
        Some((TokenModel::Xor, list_match(m.xor, s).unwrap()))
    } else if list_match(m.or, s) is Some {
        Some((TokenModel::Or, list_match(m.or, s).unwrap()))
    } else if list_match(m.implication, s) is Some {
        Some((TokenModel::Implication, list_match(m.implication, s).unwrap()))
    } else if list_match(m.equality, s) is Some {
        Some((TokenModel::Equality, list_match(m.equality, s).unwrap()))
    } else if list_match(m.left_paren, s) is Some {
        Some((TokenModel::LParen, list_match(m.left_paren, s).unwrap()))
    } else if list_match(m.right_paren, s) is Some {
        Some((TokenModel::RParen, list_match(m.right_paren, s).unwrap()))
    } else {
        None
    }
}

/// A matched spelling never reaches past the input it matched against.
pub proof fn lemma_list_match_len(l: Seq<Seq<char>>, s: Seq<char>)
    ensures
        list_match(l, s) matches Some(n) ==> n <= s.len(),
        list_wf(l) ==> (list_match(l, s) matches Some(n) ==> 1 <= n),
    decreases l.len(),
{
    if l.len() > 0 && !ci_prefix(l[0], s) {
        lemma_list_match_len(l.skip(1), s);
    }
}

/// A match under a well-formed configuration consumes at least one character,
/// never reaches past the input, and is never a variable token.
pub proof fn lemma_starts_with_len(m: LiteralsModel, s: Seq<char>)
    requires
        m.wf(),
    ensures
        spec_starts_with(m, s) matches Some(p) ==> 1 <= p.1 <= s.len() && !(p.0 is Var),
{
    lemma_list_match_len(m.lit_true, s);
    lemma_list_match_len(m.lit_false, s);
    lemma_list_match_len(m.not, s);
    lemma_list_match_len(m.and, s);
    lemma_list_match_len(m.xor, s);
    lemma_list_match_len(m.or, s);
    lemma_list_match_len(m.implication, s);
    lemma_list_match_len(m.equality, s);
    lemma_list_match_len(m.left_paren, s);
    lemma_list_match_len(m.right_paren, s);
}

/// Case-insensitive character comparison: equal up to ASCII case.
pub fn char_eq_ci(a: char, b: char) -> (r: bool)
    ensures
        r == eq_ci(a, b),
{
    let x = a as u32;
    let y = b as u32;
    let xl = if 65 <= x && x <= 90 {
        x + 32
    } else {
        x
    };
    let yl = if 65 <= y && y <= 90 {
        y + 32
    } else {
        y
    };
    xl == yl
}

/// Whether `c` is one of the blank characters that separate chunks.
pub fn char_is_space(c: char) -> (r: bool)
    ensures
        r == is_space(c),
{
    c == ' ' || c == '\t' || c == '\n' || c == '\r' || c == '\x0c'
}

/// The first spelling of `l` that is a case-insensitive prefix of `input`,
/// reported as the number of characters it matches.
fn list_prefix(l: &Vec<String>, input: &str) -> (r: Option<usize>)
    ensures
        match list_match(names_model(l@), input@) {
            Some(n) => r matches Some(u) && u == n,
            None => r is None,
        },
{
    let input_len = input.unicode_len();
    let ghost ls = names_model(l@);
    let mut j: usize = 0;
    proof {
        assert(ls.skip(0) =~= ls);
    }
    while j < l.len()
        invariant
            0 <= j <= l.len(),
            ls == names_model(l@),
            input_len == input@.len(),
            list_match(ls, input@) == list_match(ls.skip(j as int), input@),
        decreases l.len() - j,
    {
        let sp: &String = &l[j];
        let sp_len = sp.as_str().unicode_len();
        if sp_len <= input_len {
            let mut k: usize = 0;
            let mut matches = true;
            while k < sp_len
                invariant
                    0 <= k <= sp_len,
                    j < l.len(),
                    sp_len == sp@.len(),
                    sp@ == ls[j as int],
                    input_len == input@.len(),
                    sp_len <= input_len,
                    matches == forall|i: int| 0 <= i < k ==> eq_ci(sp@[i], input@[i]),
                decreases sp_len - k,
            {
                if !char_eq_ci(sp.as_str().get_char(k), input.get_char(k)) {
                    matches = false;
                    k = sp_len;
                } else {
                    k = k + 1;
                }
            }
            if matches {
                proof {
                    assert(ci_prefix(ls.skip(j as int)[0], input@));
                }
                return Some(sp_len);
            }
        }
        proof {
            assert(!ci_prefix(ls.skip(j as int)[0], input@));
            assert(ls.skip(j as int).skip(1) =~= ls.skip(j as int + 1));
        }
        j = j + 1;
    }
    proof {
        assert(ls.skip(j as int).len() == 0);
    }
    None
}

/// The spellings every token kind accepts when nothing else is configured.
pub open spec fn default_model() -> LiteralsModel {
    LiteralsModel {
        lit_true: seq!["true"@],
        lit_false: seq!["false"@],
        not: seq!["¬"@, "not"@, "!"@, "~"@],
        and: seq!["∧"@, "and"@, "&&"@, "&"@, "*"@],
        xor: seq!["⊕"@, "xor"@, "^"@],
        or: seq!["∨"@, "or"@, "||"@, "|"@, "+"@],
        implication: seq!["→"@, "->"@, "=>"@],
        equality: seq!["≡"@, "<=>"@, "=="@, "="@],
        left_paren: seq!["("@, "{"@, "["@],
        right_paren: seq![")"@, "}"@, "]"@],
    }
}

/// The configuration of accepted surface spellings per token kind.
///
/// Every kind keeps a non-empty list of non-empty spellings; matching against
/// input is case-insensitive up to ASCII case and works character by
/// character, so a match never splits a code point.
#[derive(Debug)]
pub struct TokenLiterals {
    lit_true: Vec<String>,
    lit_false: Vec<String>,
    not: Vec<String>,
    and: Vec<String>,
    xor: Vec<String>,
    or: Vec<String>,
    implication: Vec<String>,
    equality: Vec<String>,
    left_paren: Vec<String>,
    right_paren: Vec<String>,
}

impl View for TokenLiterals {
    type V = LiteralsModel;

    closed spec fn view(&self) -> LiteralsModel {
        LiteralsModel {
            lit_true: names_model(self.lit_true@),
            lit_false: names_model(self.lit_false@),
            not: names_model(self.not@),
            and: names_model(self.and@),
            xor: names_model(self.xor@),
            or: names_model(self.or@),
            implication: names_model(self.implication@),
            equality: names_model(self.equality@),
            left_paren: names_model(self.left_paren@),
            right_paren: names_model(self.right_paren@),
        }
    }
}

impl TokenLiterals {
    /// Does the given input begin with one of the configured spellings? If
    /// so, which token does it stand for, and how many characters long is the
    /// match.
    pub fn starts_with(&self, input: &str) -> (r: Option<(Token, usize)>)
        ensures
            match spec_starts_with(self@, input@) {
                Some(p) => r matches Some(q) && q.0@ == p.0 && q.1 == p.1,
                None => r is None,
            },
    {
        if let Some(n) = list_prefix(&self.lit_true, input) {
            return Some((Token::Literal(true), n));
        }
        if let Some(n) = list_prefix(&self.lit_false, input) {
            return Some((Token::Literal(false), n));
        }
        if let Some(n) = list_prefix(&self.not, input) {
            return Some((Token::Not, n));
        }
        if let Some(n) = list_prefix(&self.and, input) {
            return Some((Token::And, n));
        }
        if let Some(n) = list_prefix(&self.xor, input) {
            return Some((Token::Xor, n));
        }
        if let Some(n) = list_prefix(&self.or, input) {
            return Some((Token::Or, n));
        }
        if let Some(n) = list_prefix(&self.implication, input) {
            return Some((Token::Implication, n));
        }
        if let Some(n) = list_prefix(&self.equality, input) {
            return Some((Token::Equality, n));
        }
        if let Some(n) = list_prefix(&self.left_paren, input) {
            return Some((Token::LParen, n));
        }
        if let Some(n) = list_prefix(&self.right_paren, input) {
            return Some((Token::RParen, n));
        }
        None
    }

    /// The spellings of the literal `true`.
    pub fn lit_true(&self) -> (r: &Vec<String>)
        ensures
            names_model(r@) == self@.lit_true,
    {
        &self.lit_true
    }

    /// Replace the spellings of the literal `true`.
    pub fn set_lit_true(&mut self, values: Vec<String>)
        requires
            list_wf(names_model(values@)),
        ensures
            final(self)@ == (LiteralsModel { lit_true: names_model(values@), ..old(self)@ }),
    {
        self.lit_true = values;
    }

    /// The spellings of the literal `false`.
    pub fn lit_false(&self) -> (r: &Vec<String>)
        ensures
            names_model(r@) == self@.lit_false,
    {
        &self.lit_false
    }

    /// Replace the spellings of the literal `false`.
    pub fn set_lit_false(&mut self, values: Vec<String>)
        requires
            list_wf(names_model(values@)),
        ensures
            final(self)@ == (LiteralsModel { lit_false: names_model(values@), ..old(self)@ }),
    {
        self.lit_false = values;
    }

    /// The spellings of negation.
    pub fn not(&self) -> (r: &Vec<String>)
        ensures
            names_model(r@) == self@.not,
    {
        &self.not
    }

    /// Replace the spellings of negation.
    pub fn set_not(&mut self, values: Vec<String>)
        requires
            list_wf(names_model(values@)),
        ensures
            final(self)@ == (LiteralsModel { not: names_model(values@), ..old(self)@ }),
    {
        self.not = values;
    }

    /// The spellings of conjunction.
    pub fn and(&self) -> (r: &Vec<String>)
        ensures
            names_model(r@) == self@.and,
    {
        &self.and
    }

    /// Replace the spellings of conjunction.
    pub fn set_and(&mut self, values: Vec<String>)
        requires
            list_wf(names_model(values@)),
        ensures
            final(self)@ == (LiteralsModel { and: names_model(values@), ..old(self)@ }),
    {
        self.and = values;
    }

    /// The spellings of exclusive disjunction.
    pub fn xor(&self) -> (r: &Vec<String>)
        ensures
            names_model(r@) == self@.xor,
    {
        &self.xor
    }

    /// Replace the spellings of exclusive disjunction.
    pub fn set_xor(&mut self, values: Vec<String>)
        requires
            list_wf(names_model(values@)),
        ensures
            final(self)@ == (LiteralsModel { xor: names_model(values@), ..old(self)@ }),
    {
        self.xor = values;
    }

    /// The spellings of disjunction.
    pub fn or(&self) -> (r: &Vec<String>)
        ensures
            names_model(r@) == self@.or,
    {
        &self.or
    }

    /// Replace the spellings of disjunction.
    pub fn set_or(&mut self, values: Vec<String>)
        requires
            list_wf(names_model(values@)),
        ensures
            final(self)@ == (LiteralsModel { or: names_model(values@), ..old(self)@ }),
    {
        self.or = values;
    }

    /// The spellings of implication.
    pub fn implication(&self) -> (r: &Vec<String>)
        ensures
            names_model(r@) == self@.implication,
    {
        &self.implication
    }

    /// Replace the spellings of implication.
    pub fn set_implication(&mut self, values: Vec<String>)
        requires
            list_wf(names_model(values@)),
        ensures
            final(self)@ == (LiteralsModel { implication: names_model(values@), ..old(self)@ }),
    {
        self.implication = values;
    }

    /// The spellings of the biconditional.
    pub fn equality(&self) -> (r: &Vec<String>)
        ensures
            names_model(r@) == self@.equality,
    {
        &self.equality
    }

    /// Replace the spellings of the biconditional.
    pub fn set_equality(&mut self, values: Vec<String>)
        requires
            list_wf(names_model(values@)),
        ensures
            final(self)@ == (LiteralsModel { equality: names_model(values@), ..old(self)@ }),
    {
        self.equality = values;
    }

    /// The spellings of an opening parenthesis.
    pub fn left_paren(&self) -> (r: &Vec<String>)
        ensures
            names_model(r@) == self@.left_paren,
    {
        &self.left_paren
    }

    /// Replace the spellings of an opening parenthesis.
    pub fn set_left_paren(&mut self, values: Vec<String>)
        requires
            list_wf(names_model(values@)),
        ensures
            final(self)@ == (LiteralsModel { left_paren: names_model(values@), ..old(self)@ }),
    {
        self.left_paren = values;
    }

    /// The spellings of a closing parenthesis.
    pub fn right_paren(&self) -> (r: &Vec<String>)
        ensures
            names_model(r@) == self@.right_paren,
    {
        &self.right_paren
    }

    /// Replace the spellings of a closing parenthesis.
    pub fn set_right_paren(&mut self, values: Vec<String>)
        requires
            list_wf(names_model(values@)),
        ensures
            final(self)@ == (LiteralsModel { right_paren: names_model(values@), ..old(self)@ }),
    {
        self.right_paren = values;
    }
}

/// Build a one-spelling list.
fn list1(a: &str) -> (r: Vec<String>)
    ensures
        names_model(r@) == seq![a@],
{
    let mut v: Vec<String> = Vec::new();
    v.push(String::from_str(a));
    proof {
        assert(names_model(v@) =~= seq![a@]);
    }
    v
}

/// Build a three-spelling list.
fn list3(a: &str, b: &str, c: &str) -> (r: Vec<String>)
    ensures
        names_model(r@) == seq![a@, b@, c@],
{
    let mut v: Vec<String> = Vec::new();
    v.push(String::from_str(a));
    v.push(String::from_str(b));
    v.push(String::from_str(c));
    proof {
        assert(names_model(v@) =~= seq![a@, b@, c@]);
    }
    v
}

/// Build a four-spelling list.
fn list4(a: &str, b: &str, c: &str, d: &str) -> (r: Vec<String>)
    ensures
        names_model(r@) == seq![a@, b@, c@, d@],
{
    let mut v: Vec<String> = Vec::new();
    v.push(String::from_str(a));
    v.push(String::from_str(b));
    v.push(String::from_str(c));
    v.push(String::from_str(d));
    proof {
        assert(names_model(v@) =~= seq![a@, b@, c@, d@]);
    }
    v
}

/// Build a five-spelling list.
fn list5(a: &str, b: &str, c: &str, d: &str, e: &str) -> (r: Vec<String>)
    ensures
        names_model(r@) == seq![a@, b@, c@, d@, e@],
{
    let mut v: Vec<String> = Vec::new();
    v.push(String::from_str(a));
    v.push(String::from_str(b));
    v.push(String::from_str(c));
    v.push(String::from_str(d));
    v.push(String::from_str(e));
    proof {
        assert(names_model(v@) =~= seq![a@, b@, c@, d@, e@]);
    }
    v
}

impl Default for TokenLiterals {
    /// The default spellings of every token kind.
    fn default() -> (r: TokenLiterals)
        ensures
            r@ == default_model(),
    {
        TokenLiterals {
            lit_true: list1("true"),
            lit_false: list1("false"),
            not: list4("¬", "not", "!", "~"),
            and: list5("∧", "and", "&&", "&", "*"),
            xor: list3("⊕", "xor", "^"),
            or: list5("∨", "or", "||", "|", "+"),
            implication: list3("→", "->", "=>"),
            equality: list4("≡", "<=>", "==", "="),
            left_paren: list3("(", "{", "["),
            right_paren: list3(")", "}", "]"),
        }
    }
}

/// The default configuration is well-formed: every kind keeps at least one
/// non-empty spelling.
pub proof fn lemma_default_wf()
    ensures
        default_model().wf(),
{
    reveal_strlit("true");
    reveal_strlit("false");
    reveal_strlit("¬");
    reveal_strlit("not");
    reveal_strlit("!");
    reveal_strlit("~");
    reveal_strlit("∧");
    reveal_strlit("and");
    reveal_strlit("&&");
    reveal_strlit("&");
    reveal_strlit("*");
    reveal_strlit("⊕");
    reveal_strlit("xor");
    reveal_strlit("^");
    reveal_strlit("∨");
    reveal_strlit("or");
    reveal_strlit("||");
    reveal_strlit("|");
    reveal_strlit("+");
    reveal_strlit("→");
    reveal_strlit("->");
    reveal_strlit("=>");
    reveal_strlit("≡");
    reveal_strlit("<=>");
    reveal_strlit("==");
    reveal_strlit("=");
    reveal_strlit("(");
    reveal_strlit("{");
    reveal_strlit("[");
    reveal_strlit(")");
    reveal_strlit("}");
    reveal_strlit("]");
}

} // verus!
