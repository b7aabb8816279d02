use cairo_mutants::error::{Error, ErrorKind};
use cairo_mutants::mutant::{Mutation, MutationResult, MutationType, Verdict};
use cairo_mutants::runner::{catalog, sandbox_path, Action, Event, Orchestrator, Phase, VerdictBoard};

fn candidates(n: usize) -> Vec<Mutation> {
    (0..n)
        .map(|i| {
            Mutation::new(
                MutationType::Equal,
                MutationType::NotEqual,
                format!("src/f{}.cairo", i),
                "a == b".to_string(),
                i,
            )
        })
        .collect()
}

fn shape(results: &Vec<MutationResult>) -> Vec<(String, Verdict)> {
    results.iter().map(|r| (r.mutation().file_name().clone(), r.verdict())).collect()
}

#[test]
fn the_catalog_lists_the_operators_in_their_order() {
    assert_eq!(
        catalog(),
        vec![
            MutationType::Equal,
            MutationType::NotEqual,
            MutationType::GreaterThan,
            MutationType::GreaterThanOrEqual,
            MutationType::LessThan,
            MutationType::LessThanOrEqual,
            MutationType::Assert,
            MutationType::IsZero,
            MutationType::IsNonZero,
            MutationType::And,
            MutationType::Or,
        ]
    );
}

#[test]
fn each_candidate_has_a_sandbox_of_its_own() {
    assert_eq!(sandbox_path("/tmp/run/cli/17", 0), "/tmp/run/cli/17/0");
    assert_eq!(sandbox_path("/tmp/run/cli/17", 12), "/tmp/run/cli/17/12");
    assert_eq!(sandbox_path("", 3), "/3");
    let mut seen = std::collections::HashSet::new();
    for i in 0..200 {
        assert!(seen.insert(sandbox_path("root", i)));
    }
}

#[test]
fn a_new_board_has_every_slot_empty() {
    let board = VerdictBoard::new(candidates(3));
    assert_eq!(board.len(), 3);
    assert!(!board.is_complete());
    assert!(board.results().is_none());
    for i in 0..3 {
        assert_eq!(board.verdict(i), None);
        assert_eq!(board.candidate(i).unwrap().pos(), i);
    }
    assert!(board.candidate(3).is_none());
    assert_eq!(board.verdict(3), None);
}

#[test]
fn a_board_without_candidates_is_complete() {
    let board = VerdictBoard::new(vec![]);
    assert!(board.is_complete());
    assert_eq!(board.results().unwrap().len(), 0);
}

#[test]
fn verdicts_that_arrive_out_of_order_are_reported_in_candidate_order() {
    let mut board = VerdictBoard::new(candidates(4));
    assert!(board.record(2, Verdict::Survived));
    assert!(board.record(0, Verdict::Killed));
    assert!(!board.is_complete());
    assert!(board.results().is_none());
    assert!(board.record(3, Verdict::BuildBroken));
    assert!(board.record(1, Verdict::Killed));
    assert!(board.is_complete());
    assert_eq!(
        shape(&board.results().unwrap()),
        vec![
            ("src/f0.cairo".to_string(), Verdict::Killed),
            ("src/f1.cairo".to_string(), Verdict::Killed),
            ("src/f2.cairo".to_string(), Verdict::Survived),
            ("src/f3.cairo".to_string(), Verdict::BuildBroken),
        ]
    );
}

#[test]
fn every_order_of_arrival_gives_the_same_report() {
    let verdicts = [Verdict::Killed, Verdict::Survived, Verdict::BuildBroken, Verdict::Killed];
    let orders: [[usize; 4]; 5] =
        [[0, 1, 2, 3], [3, 2, 1, 0], [1, 3, 0, 2], [2, 0, 3, 1], [3, 0, 1, 2]];
    let mut reports = vec![];
    for order in orders {
        let mut board = VerdictBoard::new(candidates(4));
        for i in order {
            assert!(board.record(i, verdicts[i]));
        }
        reports.push(shape(&board.results().unwrap()));
    }
    for report in &reports {
        assert_eq!(report, &reports[0]);
    }
    assert_eq!(reports[0][1], ("src/f1.cairo".to_string(), Verdict::Survived));
}

#[test]
fn a_slot_is_written_once() {
    let mut board = VerdictBoard::new(candidates(2));
    assert!(board.record(1, Verdict::Killed));
    assert!(!board.record(1, Verdict::Survived));
    assert_eq!(board.verdict(1), Some(Verdict::Killed));
    assert!(!board.record(2, Verdict::Killed));
    assert!(!board.record(usize::MAX, Verdict::Killed));
    assert_eq!(board.verdict(0), None);
    assert_eq!(board.len(), 2);
}

#[test]
fn a_run_goes_through_its_phases() {
    let mut run = Orchestrator::new();
    assert_eq!(run.phase(), Phase::Idle);
    assert!(matches!(run.step(Event::Start), Action::CheckPreconditions));
    assert_eq!(run.phase(), Phase::PreconditionCheck);
    assert!(matches!(run.step(Event::PreconditionsMet), Action::Scan));
    assert_eq!(run.phase(), Phase::Scanning);
    assert!(matches!(run.step(Event::Scanned(candidates(3))), Action::Dispatch));
    assert_eq!(run.phase(), Phase::Dispatching);
    assert_eq!(run.board().len(), 3);
    assert!(matches!(run.step(Event::Dispatched), Action::Collect));
    assert_eq!(run.phase(), Phase::Aggregating);
    assert!(matches!(run.step(Event::VerdictReady(2, Verdict::Survived)), Action::Collect));
    assert!(matches!(run.step(Event::VerdictReady(0, Verdict::Killed)), Action::Collect));
    assert_eq!(run.phase(), Phase::Aggregating);
    assert!(matches!(
        run.step(Event::VerdictReady(1, Verdict::BuildBroken)),
        Action::RemoveBatchRoot
    ));
    assert_eq!(run.phase(), Phase::Reporting);
    match run.step(Event::BatchRootRemoved) {
        Action::Report(results) => assert_eq!(
            shape(&results),
            vec![
                ("src/f0.cairo".to_string(), Verdict::Killed),
                ("src/f1.cairo".to_string(), Verdict::BuildBroken),
                ("src/f2.cairo".to_string(), Verdict::Survived),
            ]
        ),
        other => panic!("unexpected action: {:?}", other),
    }
    assert_eq!(run.phase(), Phase::Done);
    assert!(matches!(run.step(Event::Start), Action::Ignore));
    assert_eq!(run.phase(), Phase::Done);
}

#[test]
fn a_scan_that_finds_nothing_ends_the_run() {
    let mut run = Orchestrator::new();
    run.step(Event::Start);
    run.step(Event::PreconditionsMet);
    assert!(matches!(run.step(Event::Scanned(vec![])), Action::NothingToMutate));
    assert_eq!(run.phase(), Phase::Done);
    assert_eq!(run.board().len(), 0);
}

#[test]
fn a_failing_baseline_aborts_before_any_candidate() {
    let mut run = Orchestrator::new();
    run.step(Event::Start);
    let red = cairo_mutants::cli::Baseline { builds: true, tests_pass: false };
    let failure = cairo_mutants::cli::check_baseline(&red).unwrap_err();
    assert_eq!(failure.kind(), ErrorKind::PreconditionFailure);
    match run.step(Event::Failed(failure)) {
        Action::Abort { error, remove_batch_root } => {
            assert_eq!(error, Error::Precondition("Tests aren't passing".to_string()));
            assert!(!remove_batch_root);
        }
        other => panic!("unexpected action: {:?}", other),
    }
    assert_eq!(run.phase(), Phase::Aborted);
    assert_eq!(run.board().len(), 0);
    assert!(matches!(run.step(Event::PreconditionsMet), Action::Ignore));
    assert!(matches!(run.step(Event::Scanned(candidates(2))), Action::Ignore));
    assert_eq!(run.phase(), Phase::Aborted);
    assert_eq!(run.board().len(), 0);
}

#[test]
fn a_failure_in_flight_asks_for_the_clean_up() {
    for verdicts_before in 0..2 {
        let mut run = Orchestrator::new();
        run.step(Event::Start);
        run.step(Event::PreconditionsMet);
        run.step(Event::Scanned(candidates(2)));
        if verdicts_before > 0 {
            run.step(Event::Dispatched);
            run.step(Event::VerdictReady(0, Verdict::Killed));
        }
        match run.step(Event::Failed(Error::Tool("scarb could not be started".to_string()))) {
            Action::Abort { error, remove_batch_root } => {
                assert_eq!(error.kind(), ErrorKind::ToolInvocationFailure);
                assert!(remove_batch_root);
            }
            other => panic!("unexpected action: {:?}", other),
        }
        assert_eq!(run.phase(), Phase::Aborted);
        assert!(matches!(run.step(Event::VerdictReady(1, Verdict::Killed)), Action::Ignore));
        assert!(matches!(run.step(Event::BatchRootRemoved), Action::Ignore));
    }
}

#[test]
fn events_out_of_turn_change_nothing() {
    let mut run = Orchestrator::new();
    assert!(matches!(run.step(Event::PreconditionsMet), Action::Ignore));
    assert!(matches!(run.step(Event::Scanned(candidates(1))), Action::Ignore));
    assert!(matches!(run.step(Event::VerdictReady(0, Verdict::Killed)), Action::Ignore));
    assert!(matches!(run.step(Event::BatchRootRemoved), Action::Ignore));
    assert_eq!(run.phase(), Phase::Idle);
    run.step(Event::Start);
    run.step(Event::PreconditionsMet);
    run.step(Event::Scanned(candidates(2)));
    assert!(matches!(run.step(Event::VerdictReady(0, Verdict::Killed)), Action::Ignore));
    assert_eq!(run.board().verdict(0), None);
    run.step(Event::Dispatched);
    assert!(matches!(run.step(Event::VerdictReady(5, Verdict::Killed)), Action::Ignore));
    assert!(matches!(run.step(Event::VerdictReady(0, Verdict::Killed)), Action::Collect));
    assert!(matches!(run.step(Event::VerdictReady(0, Verdict::Survived)), Action::Ignore));
    assert_eq!(run.board().verdict(0), Some(Verdict::Killed));
    assert!(matches!(run.step(Event::BatchRootRemoved), Action::Ignore));
    assert_eq!(run.phase(), Phase::Aggregating);
}
