use cairo_mutants::cli::print_result;
use cairo_mutants::mutant::{markers, Mutation, MutationResult, MutationType, Verdict};

/// The override of `colored` is one switch for the whole process, so what
/// depends on it is tried in one test, one setting after the other.
#[test]
fn markers_follow_the_colour_switch() {
    let m = Mutation::new(
        MutationType::Equal,
        MutationType::NotEqual,
        "src/lib.cairo".to_string(),
        "a == b".to_string(),
        0,
    );
    let results = vec![MutationResult::new(m.clone(), Verdict::Survived)];

    colored::control::set_override(true);
    let (arrow, bar) = markers();
    assert_eq!(arrow, "\u{1b}[34m-->\u{1b}[0m");
    assert_eq!(bar, "\u{1b}[34m |\u{1b}[0m");
    assert_eq!(
        m.to_string(),
        "\u{1b}[34m-->\u{1b}[0m src/lib.cairo:1\n\u{1b}[34m |\u{1b}[0m \"==\" updated to \"!=\"\n"
    );

    colored::control::set_override(false);
    let (arrow, bar) = markers();
    assert_eq!(arrow, "-->");
    assert_eq!(bar, " |");
    assert_eq!(m.to_string(), "--> src/lib.cairo:1\n | \"==\" updated to \"!=\"\n");
    assert_eq!(
        print_result(&results),
        "Found 1 mutation:\n\t0 successful\n\t0 build failures\n\t1 failures\n\nFailures:\n--> src/lib.cairo:1\n | \"==\" updated to \"!=\"\n\n\n"
    );

    colored::control::unset_override();
}
