//! The lexer: splits source text on whitespace into chunks, carves each chunk
//! into configured token spellings and variable names, and interns variable
//! names into stable indices in order of first appearance.

use crate::literals::{
    char_is_space, default_model, is_space, lemma_default_wf, lemma_starts_with_len,
    spec_starts_with, LiteralsModel, TokenLiterals,
};
use crate::token::{names_model, toks_model, Token, TokenModel};
use vstd::prelude::*;
use vstd::string::StrSliceExecFns;
use vstd::string::StringExecFns;

verus! {

/// The length of the maximal whitespace-free prefix of `s`: the chunk the
/// lexer works on next.
pub open spec fn chunk_len(s: Seq<char>) -> nat
    decreases s.len(),
{
    if s.len() == 0 || is_space(s[0]) {
        0
    } else {
        1 + chunk_len(s.skip(1))
    }
}

/// The chunk's length never passes the input, covers no whitespace, and ends
/// only at whitespace or at the end of the input.
pub proof fn lemma_chunk_len(s: Seq<char>)
    ensures
        chunk_len(s) <= s.len(),
        forall|i: int| 0 <= i < chunk_len(s) ==> !is_space(s[i]),
        chunk_len(s) < s.len() ==> is_space(s[chunk_len(s) as int]),
    decreases s.len(),
{
    if s.len() > 0 && !is_space(s[0]) {
        lemma_chunk_len(s.skip(1));
        assert forall|i: int| 0 <= i < chunk_len(s) implies !is_space(s[i]) by {
            if i >= 1 {
                assert(s[i] == s.skip(1)[i - 1]);
            }
        }
        if chunk_len(s) < s.len() {
            assert(s[chunk_len(s) as int] == s.skip(1)[chunk_len(s.skip(1)) as int]);
        }
    }
}

/// The earliest offset inside a chunk where some configured spelling matches,
/// together with the token it stands for and the match's length.
pub open spec fn first_match(m: LiteralsModel, c: Seq<char>) -> Option<(nat, TokenModel, nat)>
    decreases c.len(),
{
    if c.len() == 0 {
        None
    } else {
        match spec_starts_with(m, c) {
            Some(p) => Some((0, p.0, p.1)),
            None => match first_match(m, c.skip(1)) {
                Some(q) => Some(((q.0 + 1) as nat, q.1, q.2)),
                None => None,
            },
        }
    }
}

/// What a first match means position by position: a match at the reported
/// offset, none anywhere earlier; and no match at all when nothing is
/// reported.
pub proof fn lemma_first_match(m: LiteralsModel, c: Seq<char>)
    ensures
        first_match(m, c) matches Some(q) ==> q.0 < c.len() && spec_starts_with(m, c.skip(q.0 as int))
            == Some((q.1, q.2)) && (forall|j: int|
            0 <= j < q.0 ==> spec_starts_with(m, c.skip(j)) is None),
        first_match(m, c) is None ==> forall|j: int|
            0 <= j < c.len() ==> spec_starts_with(m, c.skip(j)) is None,
    decreases c.len(),
{
    if c.len() > 0 {
        if spec_starts_with(m, c) is Some {
            assert(c.skip(0) =~= c);
        } else {
            lemma_first_match(m, c.skip(1));
            assert(forall|j: int| 1 <= j <= c.len() ==> c.skip(1).skip(j - 1) =~= #[trigger] c.skip(
                j,
            ));
            assert(c.skip(0) =~= c);
        }
    }
}

/// Under a well-formed configuration a first match lies inside the chunk and
/// consumes at least one and at most the chunk's remaining characters; it is
/// never a variable.
pub proof fn lemma_first_match_bounds(m: LiteralsModel, c: Seq<char>)
    requires
        m.wf(),
    ensures
        first_match(m, c) matches Some(q) ==> q.0 < c.len() && 1 <= q.2 && q.0 + q.2 <= c.len()
            && !(q.1 is Var),
    decreases c.len(),
{
    if c.len() > 0 {
        lemma_starts_with_len(m, c);
        if spec_starts_with(m, c) is None {
            lemma_first_match_bounds(m, c.skip(1));
        }
    }
}

/// The index of `name` in the table, or minus one when absent.
pub open spec fn index_of_name(table: Seq<Seq<char>>, name: Seq<char>) -> int
    decreases table.len(),
{
    if table.len() == 0 {
        -1
    } else if table[0] == name {
        0
    } else {
        let r = index_of_name(table.skip(1), name);
        if r == -1 {
            -1
        } else {
            r + 1
        }
    }
}

/// What the reported index means: the first place the name stands in the
/// table, or its absence from the whole table.
pub proof fn lemma_index_of_name(table: Seq<Seq<char>>, name: Seq<char>)
    ensures
        -1 <= index_of_name(table, name) < table.len(),
        index_of_name(table, name) >= 0 ==> table[index_of_name(table, name)] == name && (
        forall|j: int| 0 <= j < index_of_name(table, name) ==> table[j] != name),
        index_of_name(table, name) == -1 ==> forall|j: int| 0 <= j < table.len() ==> table[j]
            != name,
    decreases table.len(),
{
    if table.len() > 0 && table[0] != name {
        lemma_index_of_name(table.skip(1), name);
        let r = index_of_name(table, name);
        if r >= 0 {
            assert(table[r] == table.skip(1)[r - 1]);
            assert forall|j: int| 0 <= j < r implies table[j] != name by {
                if j >= 1 {
                    assert(table[j] == table.skip(1)[j - 1]);
                }
            }
        } else {
            assert forall|j: int| 0 <= j < table.len() implies table[j] != name by {
                if j >= 1 {
                    assert(table[j] == table.skip(1)[j - 1]);
                }
            }
        }
    }
}

/// Interning a name: the index of its first earlier appearance, or a fresh
/// index at the table's end, extending the table.
pub open spec fn intern(table: Seq<Seq<char>>, name: Seq<char>) -> (nat, Seq<Seq<char>>) {
    let i = index_of_name(table, name);
    if i >= 0 {
        (i as nat, table)
    } else {
        (table.len(), table.push(name))
    }
}

/// The token stream and final variable table that lexing the remaining input
/// `s` produces, starting from an already accumulated table.
///
/// Whitespace is skipped. At the head of a chunk, the earliest offset where a
/// configured spelling matches decides: text before that offset (or the whole
/// chunk when nothing matches) becomes a variable token, interned into the
/// table; a match at the head becomes that token. Unmatched text is always a
/// variable — this layer has no error.
pub open spec fn lex_rest(m: LiteralsModel, s: Seq<char>, table: Seq<Seq<char>>) -> (
    Seq<TokenModel>,
    Seq<Seq<char>>,
)
    decreases s.len(),
    when m.wf()
    via lex_rest_decreases
{
    if s.len() == 0 {
        (Seq::empty(), table)
    } else if is_space(s[0]) {
        lex_rest(m, s.skip(1), table)
    } else {
        let cl = chunk_len(s);
        let chunk = s.take(cl as int);
        match first_match(m, chunk) {
            None => {
                let (idx, t2) = intern(table, chunk);
                let rest = lex_rest(m, s.skip(cl as int), t2);
                (seq![TokenModel::Var(chunk, idx)] + rest.0, rest.1)
            },
            Some(q) => {
                if q.0 == 0 {
                    let rest = lex_rest(m, s.skip(q.2 as int), table);
                    (seq![q.1] + rest.0, rest.1)
                } else {
                    let name = s.take(q.0 as int);
                    let (idx, t2) = intern(table, name);
                    let rest = lex_rest(m, s.skip(q.0 as int), t2);
                    (seq![TokenModel::Var(name, idx)] + rest.0, rest.1)
                }
            },
        }
    }
}

#[via_fn]
proof fn lex_rest_decreases(m: LiteralsModel, s: Seq<char>, table: Seq<Seq<char>>) {
    if s.len() > 0 && !is_space(s[0]) {
        lemma_chunk_len(s);
        let cl = chunk_len(s);
        lemma_first_match_bounds(m, s.take(cl as int));
    }
}

/// Lexing only ever grows the variable table, and every variable token it
/// emits points into the final table, at its own name.
pub proof fn lemma_lex_rest_table(m: LiteralsModel, s: Seq<char>, table: Seq<Seq<char>>)
    requires
        m.wf(),
    ensures
        lex_rest(m, s, table).1.len() >= table.len(),
        forall|i: int| 0 <= i < table.len() ==> lex_rest(m, s, table).1[i] == table[i],
        forall|k: int|
            0 <= k < lex_rest(m, s, table).0.len() ==> (#[trigger] lex_rest(m, s, table).0[k] matches
            TokenModel::Var(name, idx) ==> idx < lex_rest(m, s, table).1.len() && lex_rest(
                m,
                s,
                table,
            ).1[idx as int] == name),
    decreases s.len(),
{
    if s.len() == 0 {
    } else if is_space(s[0]) {
        lemma_lex_rest_table(m, s.skip(1), table);
    } else {
        lemma_chunk_len(s);
        let cl = chunk_len(s);
        let chunk = s.take(cl as int);
        lemma_first_match_bounds(m, chunk);
        match first_match(m, chunk) {
            None => {
                lemma_index_of_name(table, chunk);
                let (idx, t2) = intern(table, chunk);
                lemma_lex_rest_table(m, s.skip(cl as int), t2);
                let rest = lex_rest(m, s.skip(cl as int), t2);
                assert forall|i: int| 0 <= i < table.len() implies rest.1[i] == table[i] by {
                    assert(rest.1[i] == t2[i]);
                }
                let whole = seq![TokenModel::Var(chunk, idx)] + rest.0;
                assert forall|k: int|
                    0 <= k < whole.len() implies (#[trigger] whole[k] matches TokenModel::Var(
                    name,
                    vi,
                ) ==> vi < rest.1.len() && rest.1[vi as int] == name) by {
                    if k == 0 {
                        assert(rest.1[idx as int] == t2[idx as int]);
                    } else {
                        assert(whole[k] == rest.0[k - 1]);
                    }
                }
            },
            Some(q) => {
                if q.0 == 0 {
                    lemma_lex_rest_table(m, s.skip(q.2 as int), table);
                    let rest = lex_rest(m, s.skip(q.2 as int), table);
                    let whole = seq![q.1] + rest.0;
                    assert forall|k: int|
                        0 <= k < whole.len() implies (#[trigger] whole[k] matches TokenModel::Var(
                        name,
                        vi,
                    ) ==> vi < rest.1.len() && rest.1[vi as int] == name) by {
                        if k > 0 {
                            assert(whole[k] == rest.0[k - 1]);
                        }
                    }
                } else {
                    let name = s.take(q.0 as int);
                    lemma_index_of_name(table, name);
                    let (idx, t2) = intern(table, name);
                    lemma_lex_rest_table(m, s.skip(q.0 as int), t2);
                    let rest = lex_rest(m, s.skip(q.0 as int), t2);
                    assert forall|i: int| 0 <= i < table.len() implies rest.1[i] == table[i] by {
                        assert(rest.1[i] == t2[i]);
                    }
                    let whole = seq![TokenModel::Var(name, idx)] + rest.0;
                    assert forall|k: int|
                        0 <= k < whole.len() implies (#[trigger] whole[k] matches TokenModel::Var(
                        nm,
                        vi,
                    ) ==> vi < rest.1.len() && rest.1[vi as int] == nm) by {
                        if k == 0 {
                            assert(rest.1[idx as int] == t2[idx as int]);
                        } else {
                            assert(whole[k] == rest.0[k - 1]);
                        }
                    }
                }
            },
        }
    }
}


/// Intern a variable name into the table: the index of its first earlier
/// appearance, or a fresh index at the table's end.
#[verifier::loop_isolation(false)]
fn intern_name(var_map: &mut Vec<String>, name: String) -> (idx: usize)
    ensures
        idx == intern(names_model(old(var_map)@), name@).0,
        names_model(final(var_map)@) == intern(names_model(old(var_map)@), name@).1,
{
    let ghost table = names_model(var_map@);
    proof {
        lemma_index_of_name(table, name@);
    }
    let mut j: usize = 0;
    while j < var_map.len()
        invariant
            0 <= j <= var_map.len(),
            table == names_model(var_map@),
            forall|k: int| 0 <= k < j ==> table[k] != name@,
        decreases var_map.len() - j,
    {
        if var_map[j] == name {
            proof {
                assert(table[j as int] == name@);
                let r = index_of_name(table, name@);
                if r == -1 {
                    assert(table[j as int] != name@);
                } else if r < j {
                    assert(table[r] != name@);
                    assert(table[r] == name@);
                } else if r > j {
                    assert(table[j as int] != name@);
                }
                assert(r == j);
            }
            return j;
        }
        proof {
            assert(table[j as int] == names_model(var_map@)[j as int]);
        }
        j = j + 1;
    }
    let ghost before = var_map@;
    var_map.push(name);
    proof {
        assert(names_model(var_map@) =~= table.push(names_model(var_map@).last()));
    }
    var_map.len() - 1
}

/// The boolean-expression lexer: one pass over the input produces the full
/// token stream and the interned variable-name table.
#[derive(Debug)]
pub struct Lexer {
    toks: Vec<Token>,
    var_map: Vec<String>,
}

impl Lexer {
    /// The token stream the input lexed to.
    pub closed spec fn spec_tokens(&self) -> Seq<TokenModel> {
        toks_model(self.toks@)
    }

    /// The interned variable names, indexed by order of first appearance.
    pub closed spec fn spec_vars(&self) -> Seq<Seq<char>> {
        names_model(self.var_map@)
    }

    /// Lex the input with the default [`TokenLiterals`].
    pub fn lex(input: &str) -> (r: Lexer)
        ensures
            r.spec_tokens() == lex_rest(default_model(), input@, Seq::empty()).0,
            r.spec_vars() == lex_rest(default_model(), input@, Seq::empty()).1,
    {
        proof {
            lemma_default_wf();
        }
        Self::lex_with_literals(input, TokenLiterals::default())
    }

    /// Lex the input with the given [`TokenLiterals`].
    #[verifier::loop_isolation(false)]
    #[verifier::rlimit(60)]
    pub fn lex_with_literals(input: &str, literals: TokenLiterals) -> (r: Lexer)
        requires
            literals@.wf(),
        ensures
            r.spec_tokens() == lex_rest(literals@, input@, Seq::empty()).0,
            r.spec_vars() == lex_rest(literals@, input@, Seq::empty()).1,
    {
        let ghost m = literals@;
        let ghost full = lex_rest(m, input@, Seq::empty());
        let n = input.unicode_len();
        let mut toks: Vec<Token> = Vec::new();
        let mut var_map: Vec<String> = Vec::new();
        let mut pos: usize = 0;
        proof {
            assert(input@.skip(0) =~= input@);
            assert(toks_model(toks@) =~= Seq::<TokenModel>::empty());
            assert(names_model(var_map@) =~= Seq::<Seq<char>>::empty());
            assert(full.0 =~= Seq::<TokenModel>::empty() + full.0);
        }
        while pos < n
            invariant
                m == literals@,
                m.wf(),
                n == input@.len(),
                0 <= pos <= n,
                full == lex_rest(m, input@, Seq::<Seq<char>>::empty()),
                full.0 =~= toks_model(toks@) + lex_rest(
                    m,
                    input@.skip(pos as int),
                    names_model(var_map@),
                ).0,
                full.1 == lex_rest(m, input@.skip(pos as int), names_model(var_map@)).1,
            decreases n - pos,
        {
            let ghost s = input@.skip(pos as int);
            let ghost table = names_model(var_map@);
            let c = input.get_char(pos);
            if char_is_space(c) {
                proof {
                    assert(s.skip(1) =~= input@.skip(pos as int + 1));
                }
                pos = pos + 1;
            } else {
                // The chunk runs to the next whitespace or the end of input.
                let mut ce = pos + 1;
                while ce < n && !char_is_space(input.get_char(ce))
                    invariant
                        n == input@.len(),
                        pos < ce <= n,
                        forall|i: int| pos <= i < ce ==> !is_space(input@[i]),
                    decreases n - ce,
                {
                    ce = ce + 1;
                }
                proof {
                    lemma_chunk_len(s);
                    assert forall|i: int| 0 <= i < ce - pos implies !is_space(s[i]) by {
                        assert(s[i] == input@[pos + i]);
                    }
                    if ce < n {
                        assert(s[ce - pos] == input@[ce as int]);
                    }
                    // the loop's exit facts pin the chunk length exactly
                    assert(chunk_len(s) == ce - pos);
                }
                let ghost cl = chunk_len(s);
                let ghost chunk = s.take(cl as int);
                // Scan the chunk for the earliest offset where a spelling matches.
                let mut j = pos;
                let mut hit: Option<(Token, usize)> = None;
                while j < ce && hit.is_none()
                    invariant
                        m == literals@,
                        m.wf(),
                        n == input@.len(),
                        pos <= j <= ce <= n,
                        s == input@.skip(pos as int),
                        cl == ce - pos,
                        cl == chunk_len(s),
                        chunk == s.take(cl as int),
                        forall|jj: int|
                            pos <= jj < j ==> spec_starts_with(m, input@.subrange(jj, ce as int)) is None,
                        hit matches Some(p) ==> j < ce && spec_starts_with(
                            m,
                            input@.subrange(j as int, ce as int),
                        ) == Some((p.0@, p.1 as nat)),
                    decreases ce - j, (if hit is None { 1int } else { 0int }),
                {
                    let sub = input.substring_char(j, ce);
                    let sw = literals.starts_with(sub);
                    match sw {
                        Some(p) => {
                            hit = Some(p);
                        },
                        None => {
                            j = j + 1;
                        },
                    }
                }
                proof {
                    lemma_first_match(m, chunk);
                    lemma_first_match_bounds(m, chunk);
                    assert forall|jj: int| 0 <= jj <= cl implies chunk.skip(jj) =~= input@.subrange(
                        pos + jj,
                        ce as int,
                    ) by {}
                    match &hit {
                        None => {
                            match first_match(m, chunk) {
                                Some(q) => {
                                    assert(spec_starts_with(m, chunk.skip(q.0 as int)) is Some);
                                    assert(chunk.skip(q.0 as int) == input@.subrange(
                                        pos + q.0,
                                        ce as int,
                                    ));
                                    assert(false);
                                },
                                None => {},
                            }
                        },
                        Some(p) => {
                            let off = j - pos;
                            assert(chunk.skip(off) == input@.subrange(j as int, ce as int));
                            assert(spec_starts_with(m, chunk.skip(off)) == Some((
                                p.0@,
                                p.1 as nat,
                            )));
                            match first_match(m, chunk) {
                                None => {
                                    assert(spec_starts_with(m, chunk.skip(off)) is None);
                                },
                                Some(q) => {
                                    if q.0 < off {
                                        assert(chunk.skip(q.0 as int) == input@.subrange(
                                            pos + q.0,
                                            ce as int,
                                        ));
                                        assert(spec_starts_with(m, chunk.skip(q.0 as int)) is Some);
                                        assert(spec_starts_with(m, input@.subrange(
                                            pos + q.0,
                                            ce as int,
                                        )) is None);
                                        assert(false);
                                    } else if q.0 > off {
                                        assert(spec_starts_with(m, chunk.skip(off)) is None);
                                        assert(false);
                                    }
                                },
                            }
                        },
                    }
                }
                match hit {
                    None => {
                        // No spelling matches anywhere: the whole chunk is a variable.
                        proof {
                            assert(first_match(m, chunk) is None);
                        }
                        let name_str = input.substring_char(pos, ce);
                        let name = String::from_str(name_str);
                        let tok_name = String::from_str(name_str);
                        proof {
                            assert(name@ =~= chunk);
                        }
                        let idx = intern_name(&mut var_map, name);
                        toks.push(Token::Var(tok_name, idx));
                        proof {
                            assert(s.skip(cl as int) =~= input@.skip(ce as int));
                            assert(toks_model(toks@) =~= toks_model(toks@.drop_last()) + seq![
                                TokenModel::Var(chunk, idx as nat),
                            ]);
                        }
                        pos = ce;
                    },
                    Some((tok, len)) => {
                        proof {
                            assert(first_match(m, chunk) matches Some(q) && q.0 == j - pos && q.1
                                == tok@ && q.2 == len as nat);
                        }
                        if j == pos {
                            // A spelling at the head of the chunk: emit its token.
                            toks.push(tok);
                            proof {
                                assert(s.skip(len as int) =~= input@.skip(pos + len));
                                assert(toks_model(toks@) =~= toks_model(toks@.drop_last())
                                    + seq![toks@.last()@]);
                            }
                            pos = pos + len;
                        } else {
                            // Text before the match: that text is a variable.
                            let name_str = input.substring_char(pos, j);
                            let name = String::from_str(name_str);
                            let tok_name = String::from_str(name_str);
                            proof {
                                assert(name@ =~= s.take(j - pos));
                            }
                            let idx = intern_name(&mut var_map, name);
                            toks.push(Token::Var(tok_name, idx));
                            proof {
                                assert(s.skip(j - pos) =~= input@.skip(j as int));
                                assert(toks_model(toks@) =~= toks_model(toks@.drop_last()) + seq![
                                    TokenModel::Var(s.take(j - pos), idx as nat),
                                ]);
                            }
                            pos = j;
                        }
                    },
                }
            }
        }
        proof {
            assert(input@.skip(n as int) =~= Seq::<char>::empty());
            assert(full.0 =~= toks_model(toks@));
        }
        Lexer { toks, var_map }
    }

    /// The lexed token stream.
    pub fn tokens(&self) -> (r: &Vec<Token>)
        ensures
            toks_model(r@) == self.spec_tokens(),
    {
        &self.toks
    }

    /// Take the token stream and variable table out of the lexer.
    pub fn into_parts(self) -> (r: (Vec<Token>, Vec<String>))
        ensures
            toks_model(r.0@) == self.spec_tokens(),
            names_model(r.1@) == self.spec_vars(),
    {
        (self.toks, self.var_map)
    }

    /// The variable names, indexed by the order in which they first appear in
    /// the expression.
    pub fn var_map(&self) -> (r: &Vec<String>)
        ensures
            names_model(r@) == self.spec_vars(),
    {
        &self.var_map
    }
}

} // verus!
