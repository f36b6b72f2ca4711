use truth_tester::literals::TokenLiterals;
use truth_tester::Error;
use truth_tester::Tester;
use truth_tester::Token;

#[test]
fn starts_with_matches_in_priority_order() {
    let lits = TokenLiterals::default();
    match lits.starts_with("true or false") {
        Some((Token::Literal(true), len)) => assert_eq!(len, 4),
        other => panic!("unexpected match {:?}", other),
    }
    match lits.starts_with("not A") {
        Some((Token::Not, len)) => assert_eq!(len, 3),
        other => panic!("unexpected match {:?}", other),
    }
    match lits.starts_with("&&rest") {
        Some((Token::And, len)) => assert_eq!(len, 2),
        other => panic!("unexpected match {:?}", other),
    }
    match lits.starts_with("(A") {
        Some((Token::LParen, len)) => assert_eq!(len, 1),
        other => panic!("unexpected match {:?}", other),
    }
    assert!(lits.starts_with("Avocado").is_none());
    assert!(lits.starts_with("").is_none());
}

#[test]
fn starts_with_is_case_insensitive() {
    let lits = TokenLiterals::default();
    match lits.starts_with("TRUE") {
        Some((Token::Literal(true), 4)) => {},
        other => panic!("unexpected match {:?}", other),
    }
    match lits.starts_with("XoR") {
        Some((Token::Xor, 3)) => {},
        other => panic!("unexpected match {:?}", other),
    }
}

#[test]
fn within_a_kind_the_first_spelling_wins() {
    // "&&" stands before "&" in the default list, so the longer match wins
    let lits = TokenLiterals::default();
    match lits.starts_with("&&") {
        Some((Token::And, 2)) => {},
        other => panic!("unexpected match {:?}", other),
    }
    // but list order, not length, decides: "=" lists "<=>" before "=="
    match lits.starts_with("==") {
        Some((Token::Equality, 2)) => {},
        other => panic!("unexpected match {:?}", other),
    }
}

#[test]
fn default_spellings_are_complete() {
    let lits = TokenLiterals::default();
    assert_eq!(lits.lit_true(), &vec!["true".to_string()]);
    assert_eq!(lits.lit_false(), &vec!["false".to_string()]);
    assert_eq!(lits.not().len(), 4);
    assert_eq!(lits.and().len(), 5);
    assert_eq!(lits.xor().len(), 3);
    assert_eq!(lits.or().len(), 5);
    assert_eq!(lits.implication().len(), 3);
    assert_eq!(lits.equality().len(), 4);
    assert_eq!(lits.left_paren().len(), 3);
    assert_eq!(lits.right_paren().len(), 3);
}

#[test]
fn custom_spellings_drive_the_lexer() {
    let mut lits = TokenLiterals::default();
    lits.set_and(vec!["plus".to_string()]);
    lits.set_or(vec!["oder".to_string()]);
    let t = Tester::parse_with_literals("A plus B", lits).unwrap();
    let rows: Vec<(u64, bool)> =
        t.eval().unwrap().into_iter().map(|(s, b)| (s.iteration(), b)).collect();
    assert_eq!(rows, vec![(0, false), (1, false), (2, false), (3, true)]);
}

#[test]
fn replaced_spellings_stop_matching() {
    let mut lits = TokenLiterals::default();
    lits.set_and(vec!["plus".to_string()]);
    // "and" is now ordinary variable text
    let t = Tester::parse_with_literals("A and B", lits).unwrap();
    assert_eq!(t.var_count(), 3);
}

#[test]
fn serialize_joins_each_kind() {
    let lits = TokenLiterals::default();
    let rows = lits.serialize();
    assert_eq!(rows.len(), 10);
    assert_eq!(rows[0], "true");
    assert_eq!(rows[1], "false");
    assert_eq!(rows[2], "¬,not,!,~");
    assert_eq!(rows[3], "∧,and,&&,&,*");
    assert_eq!(rows[9], "),},]");
}

#[test]
fn default_configuration_round_trips() {
    let lits = TokenLiterals::default();
    let rows = lits.serialize();
    let back = TokenLiterals::deserialize(&rows).unwrap();
    assert_eq!(back.lit_true(), lits.lit_true());
    assert_eq!(back.lit_false(), lits.lit_false());
    assert_eq!(back.not(), lits.not());
    assert_eq!(back.and(), lits.and());
    assert_eq!(back.xor(), lits.xor());
    assert_eq!(back.or(), lits.or());
    assert_eq!(back.implication(), lits.implication());
    assert_eq!(back.equality(), lits.equality());
    assert_eq!(back.left_paren(), lits.left_paren());
    assert_eq!(back.right_paren(), lits.right_paren());
}

#[test]
fn custom_configuration_round_trips() {
    let mut lits = TokenLiterals::default();
    lits.set_and(vec!["plus".to_string(), "mit".to_string()]);
    lits.set_not(vec!["nicht".to_string()]);
    let rows = lits.serialize();
    let back = TokenLiterals::deserialize(&rows).unwrap();
    assert_eq!(back.and(), lits.and());
    assert_eq!(back.not(), lits.not());
}

#[test]
fn deserialize_trims_user_spacing() {
    let lits = TokenLiterals::default();
    let mut rows = lits.serialize();
    rows[2] = "non , not".to_string();
    let back = TokenLiterals::deserialize(&rows).unwrap();
    assert_eq!(back.not(), &vec!["non".to_string(), "not".to_string()]);
}

#[test]
fn deserialize_rejects_missing_rows() {
    let rows: Vec<String> = vec!["true".to_string(); 9];
    assert_eq!(TokenLiterals::deserialize(&rows).unwrap_err(), Error::MissingTokenKind);
}

#[test]
fn deserialize_rejects_empty_spellings() {
    let lits = TokenLiterals::default();
    let mut rows = lits.serialize();
    rows[4] = "xor,,^".to_string();
    assert_eq!(TokenLiterals::deserialize(&rows).unwrap_err(), Error::MissingTokenKind);
    let mut rows2 = lits.serialize();
    rows2[7] = "  ".to_string();
    assert_eq!(TokenLiterals::deserialize(&rows2).unwrap_err(), Error::MissingTokenKind);
}
