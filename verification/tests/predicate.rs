use truth_tester::func;
use truth_tester::state::State;
use truth_tester::Error;
use truth_tester::Tester;

#[test]
fn parallel_matches_sequential() {
    let t = Tester::parse("A == B or not C").unwrap();
    let seq: Vec<(u64, bool)> =
        t.eval().unwrap().into_iter().map(|(s, b)| (s.iteration(), b)).collect();
    let par: Vec<(u64, bool)> =
        t.eval_par().unwrap().into_iter().map(|(s, b)| (s.iteration(), b)).collect();
    assert_eq!(seq, par);
    let seq_wins: Vec<u64> = t.successes().unwrap().into_iter().map(|s| s.iteration()).collect();
    let par_wins: Vec<u64> =
        t.successes_par().unwrap().into_iter().map(|s| s.iteration()).collect();
    assert_eq!(seq_wins, par_wins);
    let seq_losses: Vec<u64> = t.failures().unwrap().into_iter().map(|s| s.iteration()).collect();
    let par_losses: Vec<u64> =
        t.failures_par().unwrap().into_iter().map(|s| s.iteration()).collect();
    assert_eq!(seq_losses, par_losses);
}

#[test]
fn parallel_existence_checks() {
    let taut = Tester::parse("A or not A").unwrap();
    assert_eq!(taut.is_true_par().unwrap(), true);
    assert_eq!(taut.is_false_par().unwrap(), false);
    let contra = Tester::parse("A and not A").unwrap();
    assert_eq!(contra.is_true_par().unwrap(), false);
    assert_eq!(contra.is_false_par().unwrap(), true);
    let mixed = Tester::parse("A and B").unwrap();
    assert_eq!(mixed.is_true_par().unwrap(), false);
    assert_eq!(mixed.is_false_par().unwrap(), false);
}

#[test]
fn parallel_defect_aborts() {
    let t = Tester::parse("A B").unwrap();
    assert_eq!(t.eval_par().unwrap_err(), Error::EvaluationDefect);
    assert_eq!(t.is_true_par().unwrap_err(), Error::EvaluationDefect);
}

#[test]
fn state_packs_bits() {
    let base = State::default(3).unwrap();
    assert_eq!(base.var_count(), 3);
    assert_eq!(base.max_iters(), 8);
    let s = base.iterate(5);
    assert_eq!(s.iteration(), 5);
    assert_eq!(s.var_at(0), true);
    assert_eq!(s.var_at(1), false);
    assert_eq!(s.var_at(2), true);
}

#[test]
fn state_capacity_is_the_word_width() {
    assert_eq!(State::default(64).unwrap_err(), Error::CapacityError);
    assert!(State::default(63).is_ok());
    match func::Tester::new(64, |_s: State| true) {
        Err(e) => assert_eq!(e, Error::CapacityError),
        Ok(_) => panic!("64 variables were accepted"),
    }
}

#[test]
fn predicate_tester_enumerates() {
    let t = func::Tester::new(2, |s: State| s.var_at(0) && s.var_at(1)).unwrap();
    let rows: Vec<(u64, bool)> = t.eval().into_iter().map(|(s, b)| (s.iteration(), b)).collect();
    assert_eq!(rows, vec![(0, false), (1, false), (2, false), (3, true)]);
    let wins: Vec<u64> = t.successes().into_iter().map(|s| s.iteration()).collect();
    assert_eq!(wins, vec![3]);
    let losses: Vec<u64> = t.failures().into_iter().map(|s| s.iteration()).collect();
    assert_eq!(losses, vec![0, 1, 2]);
}

#[test]
fn predicate_tester_existence_checks() {
    let taut = func::Tester::new(1, |s: State| s.var_at(0) || !s.var_at(0)).unwrap();
    assert_eq!(taut.succeeded(), true);
    assert_eq!(taut.failed(), false);
    assert_eq!(func::Tester::passes(1, |s: State| s.var_at(0) || !s.var_at(0)).unwrap(), true);
    assert_eq!(func::Tester::fails(1, |s: State| s.var_at(0) && !s.var_at(0)).unwrap(), true);
    assert_eq!(func::Tester::passes(2, |s: State| s.var_at(0)).unwrap(), false);
    assert_eq!(func::Tester::fails(2, |s: State| s.var_at(0)).unwrap(), false);
}

fn agreement_case(pred: fn(State) -> bool) {
    let t = func::Tester::new(2, pred).unwrap();
    assert_eq!(t.succeeded(), t.failures().is_empty());
    assert_eq!(t.failed(), t.successes().is_empty());
    assert_eq!(t.successes().len() + t.failures().len(), 4);
}

#[test]
fn predicate_checks_agree_with_listings() {
    agreement_case(|s: State| s.var_at(0) || !s.var_at(0));
    agreement_case(|s: State| s.var_at(0));
    agreement_case(|s: State| s.var_at(1) && !s.var_at(1));
}

#[test]
fn resumable_scan_walks_the_space() {
    // accepted exactly at assignments 1 and 3
    let mut t = func::Tester::new(2, |s: State| s.var_at(0)).unwrap();
    assert_eq!(t.test_sucess(), true);
    assert_eq!(t.test_sucess(), true);
    assert_eq!(t.test_sucess(), false);
    t.reset();
    assert_eq!(t.test_fail(), true);
    assert_eq!(t.test_fail(), true);
    assert_eq!(t.test_fail(), false);
    t.reset();
    assert_eq!(t.test(), Some(false));
    assert_eq!(t.test(), Some(true));
    assert_eq!(t.test(), Some(false));
    assert_eq!(t.test(), Some(true));
    assert_eq!(t.test(), None);
}
