//! Serialization of a [`TokenLiterals`] configuration for an external store:
//! each of the ten spelling lists becomes one comma-joined row, and rows read
//! back are split on commas with surrounding whitespace trimmed. For a
//! configuration whose spellings hold no comma and no surrounding whitespace
//! — [`literals_persistable`], which the defaults satisfy — the delimiter
//! never collides and [`lemma_literals_roundtrip`] proves the pair loses
//! nothing.

use crate::literals::{char_is_space, is_space, LiteralsModel, TokenLiterals};
use crate::token::names_model;
use crate::Error;
use vstd::prelude::*;
use vstd::string::StrSliceExecFns;
use vstd::string::StringExecFns;

verus! {

/// The spellings of one list joined with a comma between each two.
pub open spec fn join_model(l: Seq<Seq<char>>) -> Seq<char>
    decreases l.len(),
{
    if l.len() == 0 {
        Seq::empty()
    } else if l.len() == 1 {
        l[0]
    } else {
        l[0] + seq![','] + join_model(l.skip(1))
    }
}

/// The position of the first comma in `s`, or minus one when it has none.
pub open spec fn first_comma(s: Seq<char>) -> int
    decreases s.len(),
{
    if s.len() == 0 {
        -1
    } else if s[0] == ',' {
        0
    } else {
        let r = first_comma(s.skip(1));
        if r == -1 {
            -1
        } else {
            r + 1
        }
    }
}

/// What the first comma's position means: a comma there and none earlier, or
/// no comma at all.
pub proof fn lemma_first_comma(s: Seq<char>)
    ensures
        -1 <= first_comma(s) < s.len(),
        first_comma(s) >= 0 ==> s[first_comma(s)] == ',' && (forall|j: int|
            0 <= j < first_comma(s) ==> s[j] != ','),
        first_comma(s) == -1 ==> forall|j: int| 0 <= j < s.len() ==> s[j] != ',',
    decreases s.len(),
{
    if s.len() > 0 && s[0] != ',' {
        lemma_first_comma(s.skip(1));
        let r = first_comma(s);
        if r >= 0 {
            assert(s[r] == s.skip(1)[r - 1]);
            assert forall|j: int| 0 <= j < r implies s[j] != ',' by {
                if j >= 1 {
                    assert(s[j] == s.skip(1)[j - 1]);
                }
            }
        } else {
            assert forall|j: int| 0 <= j < s.len() implies s[j] != ',' by {
                if j >= 1 {
                    assert(s[j] == s.skip(1)[j - 1]);
                }
            }
        }
    }
}

/// The pieces of `s` between its commas, in order.
pub open spec fn split_model(s: Seq<char>) -> Seq<Seq<char>>
    decreases s.len(),
    via split_model_decreases
{
    let p = first_comma(s);
    if p == -1 {
        seq![s]
    } else {
        seq![s.take(p)] + split_model(s.skip(p + 1))
    }
}

#[via_fn]
proof fn split_model_decreases(s: Seq<char>) {
    lemma_first_comma(s);
}

/// `s` without its leading whitespace.
pub open spec fn trim_front(s: Seq<char>) -> Seq<char>
    decreases s.len(),
{
    if s.len() > 0 && is_space(s[0]) {
        trim_front(s.skip(1))
    } else {
        s
    }
}

/// `s` without its trailing whitespace.
pub open spec fn trim_back(s: Seq<char>) -> Seq<char>
    decreases s.len(),
{
    if s.len() > 0 && is_space(s.last()) {
        trim_back(s.drop_last())
    } else {
        s
    }
}

/// `s` without leading and trailing whitespace.
pub open spec fn trim_model(s: Seq<char>) -> Seq<char> {
    trim_back(trim_front(s))
}

/// One row read back: its comma-separated pieces, each trimmed.
pub open spec fn parse_row_model(s: Seq<char>) -> Seq<Seq<char>> {
    split_model(s).map_values(|p: Seq<char>| trim_model(p))
}

/// A spelling that survives the row format: non-empty, free of commas, and
/// not starting or ending in whitespace.
pub open spec fn spelling_persistable(e: Seq<char>) -> bool {
    &&& e.len() >= 1
    &&& (forall|i: int| 0 <= i < e.len() ==> e[i] != ',')
    &&& !is_space(e[0])
    &&& !is_space(e.last())
}

/// A spelling list that survives the row format.
pub open spec fn list_persistable(l: Seq<Seq<char>>) -> bool {
    l.len() >= 1 && (forall|i: int| 0 <= i < l.len() ==> spelling_persistable(#[trigger] l[i]))
}

/// A whole configuration that survives the row format. The default
/// configuration is one.
pub open spec fn literals_persistable(m: LiteralsModel) -> bool {
    &&& list_persistable(m.lit_true)
    &&& list_persistable(m.lit_false)
    &&& list_persistable(m.not)
    &&& list_persistable(m.and)
    &&& list_persistable(m.xor)
    &&& list_persistable(m.or)
    &&& list_persistable(m.implication)
    &&& list_persistable(m.equality)
    &&& list_persistable(m.left_paren)
    &&& list_persistable(m.right_paren)
}

/// Trimming a persistable spelling changes nothing.
proof fn lemma_trim_id(e: Seq<char>)
    requires
        e.len() >= 1,
        !is_space(e[0]),
        !is_space(e.last()),
    ensures
        trim_model(e) == e,
{
}

/// Joining one more spelling appends a comma and the spelling.
proof fn lemma_join_push(l: Seq<Seq<char>>, e: Seq<char>)
    requires
        l.len() >= 1,
    ensures
        join_model(l.push(e)) == join_model(l) + seq![','] + e,
    decreases l.len(),
{
    if l.len() == 1 {
        assert(l.push(e)[0] == l[0]);
        assert(l.push(e).skip(1) =~= seq![e]);
        assert(join_model(seq![e]) == e);
    } else {
        lemma_join_push(l.skip(1), e);
        assert(l.push(e).skip(1) =~= l.skip(1).push(e));
        assert(l.push(e)[0] == l[0]);
        assert(l[0] + seq![','] + (join_model(l.skip(1)) + seq![','] + e) =~= (l[0] + seq![',']
            + join_model(l.skip(1))) + seq![','] + e);
    }
}

/// A joined persistable list splits and trims back to itself: the row format
/// loses nothing.
pub proof fn lemma_row_roundtrip(l: Seq<Seq<char>>)
    requires
        list_persistable(l),
    ensures
        parse_row_model(join_model(l)) == l,
    decreases l.len(),
{
    let s = join_model(l);
    lemma_first_comma(s);
    if l.len() == 1 {
        assert(s == l[0]);
        assert(first_comma(s) == -1) by {
            if first_comma(s) >= 0 {
                assert(s[first_comma(s)] == ',');
            }
        }
        assert(split_model(s) =~= seq![l[0]]);
        lemma_trim_id(l[0]);
        assert(parse_row_model(s) =~= seq![l[0]]);
        assert(parse_row_model(s) =~= l);
    } else {
        let rest = l.skip(1);
        assert(s == l[0] + seq![','] + join_model(rest));
        let k = l[0].len() as int;
        // the first comma of the row stands right after the first spelling
        assert(s[k] == ',');
        assert forall|j: int| 0 <= j < k implies s[j] != ',' by {
            assert(s[j] == l[0][j]);
        }
        assert(first_comma(s) == k) by {
            let p = first_comma(s);
            if p < k {
                assert(s[p] == ',');
            } else if p > k {
                assert(s[k] != ',');
            }
        }
        assert(s.take(k) =~= l[0]);
        assert(s.skip(k + 1) =~= join_model(rest));
        assert(list_persistable(rest)) by {
            assert(forall|i: int|
                0 <= i < rest.len() ==> rest[i] == #[trigger] l[i + 1]
                    && spelling_persistable(l[i + 1]));
        }
        lemma_row_roundtrip(rest);
        lemma_trim_id(l[0]);
        assert(split_model(s) == seq![l[0]] + split_model(join_model(rest)));
        assert(parse_row_model(s) =~= seq![trim_model(l[0])] + parse_row_model(
            join_model(rest),
        ));
        assert(parse_row_model(s) =~= l);
    }
}

/// Each row of a serialized configuration reads back to the list it encodes,
/// so a persistable configuration round-trips losslessly through the
/// serialize / deserialize pair.
pub proof fn lemma_literals_roundtrip(m: LiteralsModel)
    requires
        literals_persistable(m),
    ensures
        parse_row_model(join_model(m.lit_true)) == m.lit_true,
        parse_row_model(join_model(m.lit_false)) == m.lit_false,
        parse_row_model(join_model(m.not)) == m.not,
        parse_row_model(join_model(m.and)) == m.and,
        parse_row_model(join_model(m.xor)) == m.xor,
        parse_row_model(join_model(m.or)) == m.or,
        parse_row_model(join_model(m.implication)) == m.implication,
        parse_row_model(join_model(m.equality)) == m.equality,
        parse_row_model(join_model(m.left_paren)) == m.left_paren,
        parse_row_model(join_model(m.right_paren)) == m.right_paren,
{
    lemma_row_roundtrip(m.lit_true);
    lemma_row_roundtrip(m.lit_false);
    lemma_row_roundtrip(m.not);
    lemma_row_roundtrip(m.and);
    lemma_row_roundtrip(m.xor);
    lemma_row_roundtrip(m.or);
    lemma_row_roundtrip(m.implication);
    lemma_row_roundtrip(m.equality);
    lemma_row_roundtrip(m.left_paren);
    lemma_row_roundtrip(m.right_paren);
}


/// The trimmed pieces of a row all carry at least one character: no token
/// kind came back empty.
pub open spec fn parsed_list_wf(l: Seq<Seq<char>>) -> bool {
    forall|i: int| 0 <= i < l.len() ==> (#[trigger] l[i]).len() >= 1
}

/// Ten rows, one per token kind in priority order, each reading back to
/// non-empty spellings.
pub open spec fn rows_ok(rows: Seq<Seq<char>>) -> bool {
    &&& rows.len() == 10
    &&& forall|k: int| 0 <= k < 10 ==> parsed_list_wf(parse_row_model(#[trigger] rows[k]))
}

/// Dropping a maximal run of leading whitespace is exactly what
/// [`trim_front`] does.
proof fn lemma_trim_front_at(s: Seq<char>, k: int)
    requires
        0 <= k <= s.len(),
        forall|i: int| 0 <= i < k ==> is_space(s[i]),
        k == s.len() || !is_space(s[k]),
    ensures
        trim_front(s) == s.skip(k),
    decreases k,
{
    if k == 0 {
        assert(s.skip(0) =~= s);
    } else {
        lemma_trim_front_at(s.skip(1), k - 1);
        assert(forall|i: int| 0 <= i < k - 1 ==> s.skip(1)[i] == s[i + 1]);
        assert(s.skip(1).skip(k - 1) =~= s.skip(k));
    }
}

/// Dropping a maximal run of trailing whitespace is exactly what
/// [`trim_back`] does.
proof fn lemma_trim_back_at(s: Seq<char>, k: int)
    requires
        0 <= k <= s.len(),
        forall|i: int| k <= i < s.len() ==> is_space(s[i]),
        k == 0 || !is_space(s[k - 1]),
    ensures
        trim_back(s) == s.take(k),
    decreases s.len() - k,
{
    if k == s.len() {
        assert(s.take(k) =~= s);
    } else {
        lemma_trim_back_at(s.drop_last(), k);
        assert(forall|i: int| 0 <= i < s.len() - 1 ==> s.drop_last()[i] == s[i]);
    }
}

/// The piece of `row` between `from` and `to`, trimmed of surrounding
/// whitespace.
#[verifier::loop_isolation(false)]
fn trim_piece(row: &str, from: usize, to: usize) -> (r: String)
    requires
        from <= to <= row@.len(),
    ensures
        r@ == trim_model(row@.subrange(from as int, to as int)),
{
    let ghost piece = row@.subrange(from as int, to as int);
    let mut a = from;
    while a < to && char_is_space(row.get_char(a))
        invariant
            from <= a <= to,
            forall|i: int| from <= i < a ==> is_space(row@[i]),
        decreases to - a,
    {
        a = a + 1;
    }
    let mut b = to;
    while b > a && char_is_space(row.get_char(b - 1))
        invariant
            a <= b <= to,
            forall|i: int| b <= i < to ==> is_space(row@[i]),
        decreases b,
    {
        b = b - 1;
    }
    proof {
        assert(forall|i: int| 0 <= i < a - from ==> piece[i] == row@[from + i]);
        lemma_trim_front_at(piece, a - from);
        let t = piece.skip(a - from);
        assert(forall|i: int| 0 <= i < t.len() ==> t[i] == row@[a + i]);
        lemma_trim_back_at(t, b - a);
        assert(t.take(b - a) =~= row@.subrange(a as int, b as int));
    }
    String::from_str(row.substring_char(a, b))
}

/// One spelling list joined into a row, a comma between each two spellings.
#[verifier::loop_isolation(false)]
fn join_row(l: &Vec<String>) -> (r: String)
    ensures
        r@ == join_model(names_model(l@)),
{
    let ghost ls = names_model(l@);
    if l.len() == 0 {
        proof {
            assert(ls.len() == 0);
        }
        return String::new();
    }
    let mut acc = l[0].clone();
    let mut j: usize = 1;
    proof {
        assert(ls.take(1) =~= seq![ls[0]]);
        assert(join_model(ls.take(1)) == ls[0]);
        reveal_strlit(",");
    }
    while j < l.len()
        invariant
            1 <= j <= l.len(),
            ls == names_model(l@),
            acc@ == join_model(ls.take(j as int)),
        decreases l.len() - j,
    {
        acc.append(",");
        acc.append(l[j].as_str());
        proof {
            lemma_join_push(ls.take(j as int), ls[j as int]);
            assert(ls.take(j as int).push(ls[j as int]) =~= ls.take(j as int + 1));
            assert(","@ =~= seq![',']);
            assert(acc@ =~= join_model(ls.take(j as int)) + seq![','] + ls[j as int]);
        }
        j = j + 1;
    }
    proof {
        assert(ls.take(l.len() as int) =~= ls);
    }
    acc
}

/// One row split on its commas, each piece trimmed.
#[verifier::loop_isolation(false)]
fn parse_row(row: &str) -> (r: Vec<String>)
    ensures
        names_model(r@) == parse_row_model(row@),
{
    let n = row.unicode_len();
    let mut out: Vec<String> = Vec::new();
    let mut start: usize = 0;
    let mut done = false;
    proof {
        assert(row@.skip(0) =~= row@);
        assert(names_model(out@) =~= Seq::<Seq<char>>::empty());
    }
    while !done
        invariant
            0 <= start <= n,
            n == row@.len(),
            !done ==> parse_row_model(row@) =~= names_model(out@) + split_model(
                row@.skip(start as int),
            ).map_values(|p: Seq<char>| trim_model(p)),
            done ==> parse_row_model(row@) =~= names_model(out@),
        decreases n - start, (if done {
            0int
        } else {
            1int
        }),
    {
        let ghost s = row@.skip(start as int);
        let mut j = start;
        while j < n && row.get_char(j) != ','
            invariant
                start <= j <= n,
                forall|i: int| start <= i < j ==> row@[i] != ',',
            decreases n - j,
        {
            j = j + 1;
        }
        proof {
            lemma_first_comma(s);
            assert(forall|i: int| 0 <= i < j - start ==> s[i] == row@[start + i]);
            if j < n {
                assert(s[j - start] == row@[j as int]);
                assert(first_comma(s) == j - start) by {
                    let p = first_comma(s);
                    if p < j - start {
                        assert(s[p] == ',');
                    } else if p > j - start {
                        assert(s[j - start] != ',');
                    }
                }
            } else {
                assert(first_comma(s) == -1) by {
                    if first_comma(s) >= 0 {
                        assert(s[first_comma(s)] == ',');
                    }
                }
            }
        }
        let piece = trim_piece(row, start, j);
        let ghost out0 = names_model(out@);
        out.push(piece);
        proof {
            assert(names_model(out@) =~= out0.push(names_model(out@).last()));
            assert(s.take(j - start) =~= row@.subrange(start as int, j as int));
        }
        if j < n {
            proof {
                assert(s.skip(j - start + 1) =~= row@.skip(j as int + 1));
                let rest = split_model(row@.skip(j as int + 1));
                assert((seq![s.take(j - start)] + rest).map_values(|p: Seq<char>| trim_model(p))
                    =~= seq![trim_model(s.take(j - start))] + rest.map_values(
                    |p: Seq<char>| trim_model(p),
                ));
            }
            start = j + 1;
        } else {
            proof {
                assert(split_model(s) =~= seq![s]);
                assert(seq![s].map_values(|p: Seq<char>| trim_model(p)) =~= seq![trim_model(s)]);
                assert(s.take(j - start) =~= s);
            }
            done = true;
        }
    }
    out
}

impl TokenLiterals {
    /// Serialize the configuration for an external store: ten rows, one per
    /// token kind in priority order, each a comma-joined spelling list.
    pub fn serialize(&self) -> (r: Vec<String>)
        ensures
            r@.len() == 10,
            r@[0]@ == join_model(self@.lit_true),
            r@[1]@ == join_model(self@.lit_false),
            r@[2]@ == join_model(self@.not),
            r@[3]@ == join_model(self@.and),
            r@[4]@ == join_model(self@.xor),
            r@[5]@ == join_model(self@.or),
            r@[6]@ == join_model(self@.implication),
            r@[7]@ == join_model(self@.equality),
            r@[8]@ == join_model(self@.left_paren),
            r@[9]@ == join_model(self@.right_paren),
    {
        let mut r: Vec<String> = Vec::new();
        r.push(join_row(self.lit_true()));
        r.push(join_row(self.lit_false()));
        r.push(join_row(self.not()));
        r.push(join_row(self.and()));
        r.push(join_row(self.xor()));
        r.push(join_row(self.or()));
        r.push(join_row(self.implication()));
        r.push(join_row(self.equality()));
        r.push(join_row(self.left_paren()));
        r.push(join_row(self.right_paren()));
        r
    }

    /// Read a serialized configuration back. Reports `MissingTokenKind` when
    /// a row is missing or a kind comes back with an empty spelling.
    pub fn deserialize(rows: &Vec<String>) -> (r: Result<TokenLiterals, Error>)
        ensures
            !rows_ok(names_model(rows@)) ==> r == Err::<TokenLiterals, Error>(
                Error::MissingTokenKind,
            ),
            rows_ok(names_model(rows@)) ==> (r matches Ok(lits) && lits@.wf()
                && lits@.lit_true == parse_row_model(rows@[0]@) && lits@.lit_false
                == parse_row_model(rows@[1]@) && lits@.not == parse_row_model(rows@[2]@)
                && lits@.and == parse_row_model(rows@[3]@) && lits@.xor == parse_row_model(
                rows@[4]@,
            ) && lits@.or == parse_row_model(rows@[5]@) && lits@.implication == parse_row_model(
                rows@[6]@,
            ) && lits@.equality == parse_row_model(rows@[7]@) && lits@.left_paren
                == parse_row_model(rows@[8]@) && lits@.right_paren == parse_row_model(
                rows@[9]@,
            )),
    {
        if rows.len() != 10 {
            return Err(Error::MissingTokenKind);
        }
        let ghost rs = names_model(rows@);
        let mut lists: Vec<Vec<String>> = Vec::new();
        let mut k: usize = 0;
        #[verifier::loop_isolation(false)]
        while k < 10
            invariant
                0 <= k <= 10,
                rows@.len() == 10,
                rs == names_model(rows@),
                lists@.len() == k,
                forall|i: int|
                    0 <= i < k ==> names_model((#[trigger] lists@[i])@) == parse_row_model(
                        rs[i],
                    ) && parsed_list_wf(parse_row_model(rs[i])),
            decreases 10 - k,
        {
            let parsed = parse_row(rows[k].as_str());
            let mut e: usize = 0;
            #[verifier::loop_isolation(false)]
            while e < parsed.len()
                invariant
                    0 <= e <= parsed.len(),
                    names_model(parsed@) == parse_row_model(rs[k as int]),
                    forall|i: int| 0 <= i < e ==> (#[trigger] names_model(parsed@)[i]).len() >= 1,
                decreases parsed.len() - e,
            {
                if parsed[e].as_str().is_empty() {
                    proof {
                        assert(names_model(parsed@)[e as int].len() == 0);
                        assert(!parsed_list_wf(parse_row_model(rs[k as int])));
                    }
                    return Err(Error::MissingTokenKind);
                }
                e = e + 1;
            }
            lists.push(parsed);
            k = k + 1;
        }
        let mut lits = TokenLiterals::default();
        let mut rest = lists;
        let l9 = rest.pop().unwrap();
        let l8 = rest.pop().unwrap();
        let l7 = rest.pop().unwrap();
        let l6 = rest.pop().unwrap();
        let l5 = rest.pop().unwrap();
        let l4 = rest.pop().unwrap();
        let l3 = rest.pop().unwrap();
        let l2 = rest.pop().unwrap();
        let l1 = rest.pop().unwrap();
        let l0 = rest.pop().unwrap();
        proof {
            lemma_split_nonempty(rs[0]);
            lemma_split_nonempty(rs[1]);
            lemma_split_nonempty(rs[2]);
            lemma_split_nonempty(rs[3]);
            lemma_split_nonempty(rs[4]);
            lemma_split_nonempty(rs[5]);
            lemma_split_nonempty(rs[6]);
            lemma_split_nonempty(rs[7]);
            lemma_split_nonempty(rs[8]);
            lemma_split_nonempty(rs[9]);
        }
        lits.set_lit_true(l0);
        lits.set_lit_false(l1);
        lits.set_not(l2);
        lits.set_and(l3);
        lits.set_xor(l4);
        lits.set_or(l5);
        lits.set_implication(l6);
        lits.set_equality(l7);
        lits.set_left_paren(l8);
        lits.set_right_paren(l9);
        Ok(lits)
    }
}

/// A row always splits into at least one piece.
proof fn lemma_split_nonempty(s: Seq<char>)
    ensures
        parse_row_model(s).len() >= 1,
{
    lemma_first_comma(s);
}

} // verus!\n