use truth_tester::Error;
use truth_tester::Tester;

fn table(expr: &str) -> Vec<(u64, bool)> {
    let t = Tester::parse(expr).unwrap();
    t.eval().unwrap().into_iter().map(|(s, b)| (s.iteration(), b)).collect()
}

#[test]
fn and_truth_table() {
    let t = Tester::parse("A and B").unwrap();
    assert_eq!(t.var_count(), 2);
    assert_eq!(t.vars()[0], "A");
    assert_eq!(t.vars()[1], "B");
    assert_eq!(table("A and B"), vec![(0, false), (1, false), (2, false), (3, true)]);
}

#[test]
fn tautology_is_true() {
    let t = Tester::parse("A or not A").unwrap();
    assert_eq!(t.is_true().unwrap(), true);
    assert_eq!(t.is_false().unwrap(), false);
}

#[test]
fn contradiction_is_false() {
    let t = Tester::parse("A and not A").unwrap();
    assert_eq!(t.is_true().unwrap(), false);
    assert_eq!(t.is_false().unwrap(), true);
}

#[test]
fn implication_false_only_at_true_false() {
    // A is bit 0, B is bit 1: the one failing row has A true and B false.
    assert_eq!(table("(A => B)"), vec![(0, true), (1, false), (2, true), (3, true)]);
    let t = Tester::parse("(A => B)").unwrap();
    let fails: Vec<u64> = t.failures().unwrap().into_iter().map(|s| s.iteration()).collect();
    assert_eq!(fails, vec![1]);
}

#[test]
fn unbalanced_parenthesis_is_rejected() {
    match Tester::parse("(A and B") {
        Err(e) => assert_eq!(e, Error::MismatchedParenthesis),
        Ok(_) => panic!("an unbalanced expression parsed"),
    }
}

#[test]
fn stray_closing_parenthesis_is_rejected() {
    match Tester::parse("A and B)") {
        Err(e) => assert_eq!(e, Error::MismatchedParenthesis),
        Ok(_) => panic!("an unbalanced expression parsed"),
    }
}

#[test]
fn xor_truth_table() {
    assert_eq!(table("A xor B"), vec![(0, false), (1, true), (2, true), (3, false)]);
}

#[test]
fn or_truth_table() {
    assert_eq!(table("A or B"), vec![(0, false), (1, true), (2, true), (3, true)]);
}

#[test]
fn equality_truth_table() {
    assert_eq!(table("A = B"), vec![(0, true), (1, false), (2, false), (3, true)]);
}

#[test]
fn precedence_and_binds_tighter_than_or() {
    // A or (B and C), never (A or B) and C.
    let rows = table("A or B and C");
    for (n, v) in rows {
        let a = n & 1 != 0;
        let b = n & 2 != 0;
        let c = n & 4 != 0;
        assert_eq!(v, a || (b && c));
    }
}

#[test]
fn precedence_not_binds_tightest() {
    let rows = table("not A and B");
    for (n, v) in rows {
        let a = n & 1 != 0;
        let b = n & 2 != 0;
        assert_eq!(v, !a && b);
    }
}

#[test]
fn equal_precedence_chains_group_right() {
    // only strictly tighter operators are popped, so a chain of one
    // precedence level nests toward the right: A => (B => C)
    let rows = table("A => B => C");
    for (n, v) in rows {
        let a = n & 1 != 0;
        let b = n & 2 != 0;
        let c = n & 4 != 0;
        assert_eq!(v, !a || (!b || c));
    }
}

#[test]
fn parentheses_override_precedence() {
    let rows = table("( A or B ) and C");
    for (n, v) in rows {
        let a = n & 1 != 0;
        let b = n & 2 != 0;
        let c = n & 4 != 0;
        assert_eq!(v, (a || b) && c);
    }
}

#[test]
fn literal_constants_evaluate() {
    assert_eq!(table("true and false"), vec![(0, false)]);
    assert_eq!(table("true or false"), vec![(0, true)]);
}

#[test]
fn operators_match_case_insensitively() {
    assert_eq!(table("A AND B"), table("A and B"));
    assert_eq!(table("A Or B"), table("A or B"));
    assert_eq!(table("NOT A"), table("not A"));
}

#[test]
fn variable_names_are_case_sensitive() {
    let t = Tester::parse("x or X").unwrap();
    assert_eq!(t.var_count(), 2);
}

#[test]
fn symbol_spellings_match() {
    assert_eq!(table("A && B"), table("A and B"));
    assert_eq!(table("A & B"), table("A and B"));
    assert_eq!(table("A * B"), table("A and B"));
    assert_eq!(table("A || B"), table("A or B"));
    assert_eq!(table("A + B"), table("A or B"));
    assert_eq!(table("! A"), table("not A"));
    assert_eq!(table("~ A"), table("not A"));
    assert_eq!(table("A ^ B"), table("A xor B"));
    assert_eq!(table("A -> B"), table("A => B"));
    assert_eq!(table("A <=> B"), table("A == B"));
}

#[test]
fn unicode_spellings_match() {
    assert_eq!(table("A ∧ B"), table("A and B"));
    assert_eq!(table("A ∨ B"), table("A or B"));
    assert_eq!(table("¬ A"), table("not A"));
    assert_eq!(table("A ⊕ B"), table("A xor B"));
    assert_eq!(table("A → B"), table("A => B"));
    assert_eq!(table("A ≡ B"), table("A == B"));
}

#[test]
fn braces_and_brackets_are_parentheses() {
    assert_eq!(table("{ A or B } and C"), table("( A or B ) and C"));
    assert_eq!(table("[ A or B ] and C"), table("( A or B ) and C"));
}

#[test]
fn tokens_split_without_whitespace() {
    // operators are carved out of a chunk; the text around them is variables
    assert_eq!(table("A&&B"), table("A and B"));
    assert_eq!(table("!A"), table("not A"));
    assert_eq!(table("(A=>B)"), table("A => B"));
}

#[test]
fn variable_interning_reuses_indices() {
    let t = Tester::parse("A and B or A").unwrap();
    assert_eq!(t.var_count(), 2);
    assert_eq!(t.vars()[0], "A");
    assert_eq!(t.vars()[1], "B");
}

#[test]
fn var_vals_aligns_with_vars() {
    let t = Tester::parse("A and B").unwrap();
    let rows = t.eval().unwrap();
    // state 1: A true, B false
    let (s, _) = &rows[1];
    let vals = t.var_vals(s);
    assert_eq!(vals, vec![true, false]);
}

#[test]
fn max_iter_counts_the_state_space() {
    assert_eq!(Tester::parse("A").unwrap().max_iter(), 2);
    assert_eq!(Tester::parse("A and B").unwrap().max_iter(), 4);
    assert_eq!(Tester::parse("A and B and C").unwrap().max_iter(), 8);
    assert_eq!(Tester::parse("true").unwrap().max_iter(), 1);
}

#[test]
fn malformed_program_reports_evaluation_defect() {
    // two values with no operator: the postfix program cannot reduce
    let t = Tester::parse("A B").unwrap();
    assert_eq!(t.eval().unwrap_err(), Error::EvaluationDefect);
    assert_eq!(t.is_true().unwrap_err(), Error::EvaluationDefect);
    assert_eq!(t.successes().unwrap_err(), Error::EvaluationDefect);
}

#[test]
fn empty_input_reports_evaluation_defect() {
    let t = Tester::parse("").unwrap();
    assert_eq!(t.eval().unwrap_err(), Error::EvaluationDefect);
}

#[test]
fn eval_visits_every_state_in_increasing_order() {
    let t = Tester::parse("A or B and C").unwrap();
    let indices: Vec<u64> = t.eval().unwrap().into_iter().map(|(s, _)| s.iteration()).collect();
    assert_eq!(indices, (0..8).collect::<Vec<u64>>());
}

#[test]
fn is_true_agrees_with_failures_being_empty() {
    for expr in ["A or not A", "A and B", "A and not A", "true", "false", "A => A"] {
        let t = Tester::parse(expr).unwrap();
        assert_eq!(t.is_true().unwrap(), t.failures().unwrap().is_empty());
        assert_eq!(t.is_false().unwrap(), t.successes().unwrap().is_empty());
    }
}

#[test]
fn successes_and_failures_partition_the_space() {
    let t = Tester::parse("A == B or C").unwrap();
    let wins: Vec<u64> = t.successes().unwrap().into_iter().map(|s| s.iteration()).collect();
    let losses: Vec<u64> = t.failures().unwrap().into_iter().map(|s| s.iteration()).collect();
    let mut all: Vec<u64> = wins.clone();
    all.extend(losses.iter().copied());
    all.sort();
    assert_eq!(all, (0..8).collect::<Vec<u64>>());
    for w in &wins {
        assert!(!losses.contains(w));
    }
}

#[test]
fn capacity_error_at_word_width_variables() {
    // an expression over 64 distinct variables asks for a 65th bit
    let mut expr = String::new();
    for i in 0..64 {
        if i > 0 {
            expr.push_str(" or ");
        }
        expr.push_str(&format!("v{}", i));
    }
    match Tester::parse(&expr) {
        Err(e) => assert_eq!(e, Error::CapacityError),
        Ok(_) => panic!("64 variables were accepted"),
    }
    // one fewer fits
    let mut expr63 = String::new();
    for i in 0..63 {
        if i > 0 {
            expr63.push_str(" or ");
        }
        expr63.push_str(&format!("v{}", i));
    }
    assert!(Tester::parse(&expr63).is_ok());
}
