use cairo_mutants::cli::{
    check_baseline, check_file, check_layout, check_path, check_preconditions, next_inquiry,
    outcome, render_result, s_or_nothing, summarize, Args, Baseline, Command, FileProbe, Findings,
    Group, Inquiry, PathProbe, Project, Summary,
};
use cairo_mutants::error::{Error, ErrorKind};
use cairo_mutants::mutant::{Mutation, MutationResult, MutationType, Verdict};

/// The fixture tree that the path checks are tried on, as the file system
/// would describe it: folders, and files below them.
const FOLDERS: [&str; 5] = [
    "/work/test_data",
    "/work/test_data/assert",
    "/work/test_data/assert/src",
    "/work/test_data/equal",
    "/work/test_data/equal/src",
];
const FILES: [&str; 4] = [
    "/work/test_data/assert/Scarb.toml",
    "/work/test_data/assert/src/lib.cairo",
    "/work/test_data/equal/Scarb.toml",
    "/work/test_data/equal/src/lib.cairo",
];

fn canonicalize(path: &str) -> Option<String> {
    let trimmed = path.trim_start_matches("./").trim_end_matches('/');
    let absolute = format!("/work/{}", trimmed);
    if FOLDERS.contains(&absolute.as_str()) || FILES.contains(&absolute.as_str()) {
        Some(absolute)
    } else {
        None
    }
}

fn probe_path(path: &str) -> PathProbe {
    let canonical = canonicalize(path);
    let is_file = matches!(&canonical, Some(p) if FILES.contains(&p.as_str()));
    let has_manifest =
        matches!(&canonical, Some(p) if FILES.contains(&format!("{}/Scarb.toml", p).as_str()));
    PathProbe { canonical, is_file, has_manifest }
}

/// The toolchain's word on the fixture projects: each builds and passes.
fn green() -> Baseline {
    Baseline { builds: true, tests_pass: true }
}

fn probe_file(path: &str) -> FileProbe {
    let canonical = canonicalize(path);
    let is_dir = matches!(&canonical, Some(p) if FOLDERS.contains(&p.as_str()));
    FileProbe { canonical, is_dir }
}

#[test]
fn test_s_or_nothing() {
    let arr = vec![1, 2, 3];
    assert_eq!(s_or_nothing(&arr), "s");

    let arr = vec![1];
    assert_eq!(s_or_nothing(&arr), "");
}

#[test]
fn test_check_path() {
    let path = "./test_data/assert/".to_string();
    assert!(check_path(&path, &probe_path(&path), &green()).is_ok());

    let path = "./doesnotexist".to_string();
    assert_eq!(
        check_path(&path, &probe_path(&path), &green()).unwrap_err(),
        Error::FsInvalidPath { path }
    );

    let path = "./test_data/assert/Scarb.toml".to_string();
    assert!(check_path(&path, &probe_path(&path), &green())
        .unwrap_err()
        .to_string()
        .contains("Path should be a folder file"));
}

#[test]
fn test_check_file() {
    let dst = canonicalize("./test_data/assert").unwrap();
    let path = "./test_data/assert/src/lib.cairo".to_string();
    assert!(check_file(None, &dst, &probe_file("")).is_ok());
    assert!(check_file(Some(path.clone()), &dst, &probe_file(&path)).is_ok());

    let path = "./test_data".to_string();
    assert!(check_file(Some(path.clone()), &dst, &probe_file(&path))
        .unwrap_err()
        .to_string()
        .contains("should be a file"));

    let path = "./test_data/equal/Scarb.toml".to_string();
    assert!(check_file(Some(path.clone()), &dst, &probe_file(&path))
        .unwrap_err()
        .to_string()
        .contains("File should be within the path folder"));

    let path = "./test_data/assert/Scarb.toml".to_string();
    assert!(check_file(Some(path.clone()), &dst, &probe_file(&path))
        .unwrap_err()
        .to_string()
        .contains("File extension should be .cairo"));
}

#[test]
fn s_or_nothing_of_an_empty_list_is_nothing() {
    let arr: Vec<u8> = vec![];
    assert_eq!(s_or_nothing(&arr), "");
    let arr = vec![1, 2];
    assert_eq!(s_or_nothing(&arr), "s");
}

#[test]
fn check_path_gives_the_absolute_path() {
    let path = "./test_data/assert/".to_string();
    assert_eq!(
        check_path(&path, &probe_path(&path), &green()),
        Ok("/work/test_data/assert".to_string())
    );
    assert_eq!(
        check_layout(&path, &probe_path(&path)),
        Ok("/work/test_data/assert".to_string())
    );
}

#[test]
fn check_path_wants_a_project_that_builds_and_passes() {
    let path = "./test_data/assert/".to_string();
    let probe = probe_path(&path);
    assert_eq!(
        check_path(&path, &probe, &Baseline { builds: false, tests_pass: true }),
        Err(Error::Precondition("Project isn't building".to_string()))
    );
    assert_eq!(
        check_path(&path, &probe, &Baseline { builds: false, tests_pass: false }),
        Err(Error::Precondition("Project isn't building".to_string()))
    );
    assert_eq!(
        check_path(&path, &probe, &Baseline { builds: true, tests_pass: false }),
        Err(Error::Precondition("Tests aren't passing".to_string()))
    );
    assert_eq!(check_layout(&path, &probe), Ok("/work/test_data/assert".to_string()));
}

#[test]
fn check_path_names_the_layout_before_the_baseline() {
    let red = Baseline { builds: false, tests_pass: false };
    let path = "./doesnotexist".to_string();
    assert_eq!(
        check_path(&path, &probe_path(&path), &red),
        Err(Error::FsInvalidPath { path })
    );
    let path = "./test_data".to_string();
    assert_eq!(
        check_path(&path, &probe_path(&path), &red),
        Err(Error::Precondition("Scarb.toml file not found".to_string()))
    );
}

#[test]
fn check_path_wants_the_manifest() {
    let path = "./test_data".to_string();
    let error = check_path(&path, &probe_path(&path), &green()).unwrap_err();
    assert_eq!(error, Error::Precondition("Scarb.toml file not found".to_string()));
    assert_eq!(error.kind(), ErrorKind::PreconditionFailure);
}

#[test]
fn check_path_names_a_file_before_it_misses_the_manifest() {
    let probe = PathProbe { canonical: Some("/x".to_string()), is_file: true, has_manifest: false };
    assert_eq!(
        check_path(&"x".to_string(), &probe, &green()),
        Err(Error::Precondition("Path should be a folder file".to_string()))
    );
}

#[test]
fn check_baseline_wants_the_build_and_the_tests() {
    assert_eq!(check_baseline(&green()), Ok(()));
    let error = check_baseline(&Baseline { builds: true, tests_pass: false }).unwrap_err();
    assert_eq!(error, Error::Precondition("Tests aren't passing".to_string()));
    assert_eq!(error.kind(), ErrorKind::PreconditionFailure);
    let error = check_baseline(&Baseline { builds: false, tests_pass: true }).unwrap_err();
    assert_eq!(error, Error::Precondition("Project isn't building".to_string()));
    assert_eq!(error.kind(), ErrorKind::PreconditionFailure);
    assert_eq!(
        check_baseline(&Baseline { builds: false, tests_pass: false }),
        Err(Error::Precondition("Project isn't building".to_string()))
    );
}

#[test]
fn check_preconditions_goes_path_then_baseline_then_file() {
    let path = "./test_data/assert".to_string();
    let file = "./test_data/assert/src/lib.cairo".to_string();
    let project = Project {
        root: "/work/test_data/assert".to_string(),
        file: Some("/work/test_data/assert/src/lib.cairo".to_string()),
    };
    assert_eq!(
        check_preconditions(&path, &probe_path(&path), &green(), Some(file.clone()), &probe_file(&file)),
        Ok(project)
    );
    assert_eq!(
        check_preconditions(&path, &probe_path(&path), &green(), None, &probe_file("")),
        Ok(Project { root: "/work/test_data/assert".to_string(), file: None })
    );

    // Everything is wrong at once: the path is named first.
    let red = Baseline { builds: false, tests_pass: false };
    let outside = "./test_data/equal/Scarb.toml".to_string();
    let nowhere = "./doesnotexist".to_string();
    assert_eq!(
        check_preconditions(&nowhere, &probe_path(&nowhere), &red, Some(outside.clone()), &probe_file(&outside)),
        Err(Error::FsInvalidPath { path: nowhere })
    );
    // The layout is right: the baseline is named before the file.
    assert_eq!(
        check_preconditions(&path, &probe_path(&path), &red, Some(outside.clone()), &probe_file(&outside)),
        Err(Error::Precondition("Project isn't building".to_string()))
    );
    let failing = Baseline { builds: true, tests_pass: false };
    assert_eq!(
        check_preconditions(&path, &probe_path(&path), &failing, Some(outside.clone()), &probe_file(&outside)),
        Err(Error::Precondition("Tests aren't passing".to_string()))
    );
    // Only the file is wrong.
    assert_eq!(
        check_preconditions(&path, &probe_path(&path), &green(), Some(outside.clone()), &probe_file(&outside)),
        Err(Error::Precondition("File should be within the path folder".to_string()))
    );
}

/// Answers the inquiries from the fixture tree and a baseline, and tells
/// what was asked for and how the checks were settled.
fn inquire(path: &str, file: Option<&str>, baseline: Baseline) -> (Vec<&'static str>, Result<Project, Error>) {
    let path = path.to_string();
    let file = file.map(|f| f.to_string());
    let mut findings = Findings::new();
    let mut asked = vec![];
    loop {
        match next_inquiry(&path, &file, &findings) {
            Inquiry::ProbePath => {
                assert!(findings.path_probe.is_none());
                asked.push("path");
                findings.path_probe = Some(probe_path(&path));
            }
            Inquiry::RunBuild { root } => {
                assert!(findings.builds.is_none());
                assert_eq!(Some(root), canonicalize(&path));
                asked.push("build");
                findings.builds = Some(baseline.builds);
            }
            Inquiry::RunTests { root } => {
                assert!(findings.tests_pass.is_none());
                assert_eq!(Some(root), canonicalize(&path));
                asked.push("tests");
                findings.tests_pass = Some(baseline.tests_pass);
            }
            Inquiry::ProbeFile => {
                assert!(findings.file_probe.is_none());
                asked.push("file");
                findings.file_probe = Some(probe_file(file.as_deref().unwrap()));
            }
            Inquiry::Settled(answer) => return (asked, answer),
        }
    }
}

#[test]
fn the_inquiry_asks_in_order_and_stops_at_the_first_error() {
    let path = "./test_data/assert";
    let file = "./test_data/assert/src/lib.cairo";
    let (asked, answer) = inquire(path, Some(file), green());
    assert_eq!(asked, vec!["path", "build", "tests", "file"]);
    assert_eq!(
        answer,
        Ok(Project {
            root: "/work/test_data/assert".to_string(),
            file: Some("/work/test_data/assert/src/lib.cairo".to_string()),
        })
    );

    let (asked, answer) = inquire(path, None, green());
    assert_eq!(asked, vec!["path", "build", "tests"]);
    assert_eq!(answer, Ok(Project { root: "/work/test_data/assert".to_string(), file: None }));

    let (asked, answer) = inquire("./doesnotexist", Some(file), green());
    assert_eq!(asked, vec!["path"]);
    assert_eq!(answer, Err(Error::FsInvalidPath { path: "./doesnotexist".to_string() }));

    let (asked, answer) = inquire("./test_data", Some(file), green());
    assert_eq!(asked, vec!["path"]);
    assert_eq!(answer, Err(Error::Precondition("Scarb.toml file not found".to_string())));

    let (asked, answer) = inquire(path, Some(file), Baseline { builds: false, tests_pass: true });
    assert_eq!(asked, vec!["path", "build"]);
    assert_eq!(answer, Err(Error::Precondition("Project isn't building".to_string())));

    let (asked, answer) = inquire(path, Some(file), Baseline { builds: true, tests_pass: false });
    assert_eq!(asked, vec!["path", "build", "tests"]);
    assert_eq!(answer, Err(Error::Precondition("Tests aren't passing".to_string())));

    let (asked, answer) = inquire(path, Some("./test_data/assert/Scarb.toml"), green());
    assert_eq!(asked, vec!["path", "build", "tests", "file"]);
    assert_eq!(answer, Err(Error::Precondition("File extension should be .cairo".to_string())));
}

#[test]
fn the_inquiry_settles_as_the_checks_taken_together() {
    let file = "./test_data/assert/src/lib.cairo";
    for path in ["./test_data/assert", "./test_data", "./doesnotexist", "./test_data/assert/Scarb.toml"] {
        for builds in [true, false] {
            for tests_pass in [true, false] {
                for given in [None, Some(file), Some("./test_data/equal/Scarb.toml"), Some("./nowhere")] {
                    let baseline = Baseline { builds, tests_pass };
                    let (_, settled) = inquire(path, given, baseline);
                    let together = check_preconditions(
                        &path.to_string(),
                        &probe_path(path),
                        &baseline,
                        given.map(|f| f.to_string()),
                        &probe_file(given.unwrap_or("")),
                    );
                    assert_eq!(settled, together);
                }
            }
        }
    }
}

#[test]
fn check_file_gives_the_absolute_path() {
    let dst = "/work/test_data/assert".to_string();
    let path = "./test_data/assert/src/lib.cairo".to_string();
    assert_eq!(
        check_file(Some(path.clone()), &dst, &probe_file(&path)),
        Ok(Some("/work/test_data/assert/src/lib.cairo".to_string()))
    );
    assert_eq!(check_file(None, &dst, &probe_file(&path)), Ok(None));
}

#[test]
fn check_file_rejects_what_does_not_exist() {
    let dst = "/work/test_data/assert".to_string();
    let path = "./nowhere.cairo".to_string();
    assert_eq!(
        check_file(Some(path.clone()), &dst, &probe_file(&path)),
        Err(Error::FsInvalidPath { path })
    );
}

#[test]
fn check_file_names_the_folder_it_was_given() {
    let dst = "/work/test_data/assert".to_string();
    let path = "./test_data/assert/src".to_string();
    assert_eq!(
        check_file(Some(path.clone()), &dst, &probe_file(&path)),
        Err(Error::Precondition(
            "\"/work/test_data/assert/src\" should be a file".to_string()
        ))
    );
}

#[test]
fn check_file_compares_whole_components() {
    let dst = "/work/test_data/ass".to_string();
    let probe = FileProbe {
        canonical: Some("/work/test_data/assert/src/lib.cairo".to_string()),
        is_dir: false,
    };
    assert_eq!(
        check_file(Some("lib.cairo".to_string()), &dst, &probe),
        Err(Error::Precondition("File should be within the path folder".to_string()))
    );
}

#[test]
fn check_file_rejects_a_file_without_extension() {
    let dst = "/work".to_string();
    let probe = FileProbe { canonical: Some("/work/src/Makefile".to_string()), is_dir: false };
    assert_eq!(
        check_file(Some("Makefile".to_string()), &dst, &probe),
        Err(Error::Precondition("File extension should be .cairo".to_string()))
    );
    let probe = FileProbe { canonical: Some("/work/src/.cairo".to_string()), is_dir: false };
    assert_eq!(
        check_file(Some(".cairo".to_string()), &dst, &probe),
        Err(Error::Precondition("File extension should be .cairo".to_string()))
    );
}

#[test]
fn command_is_the_clean_up_or_the_run() {
    let clean = Args { group: Group { path: None, clean: true }, file: None };
    assert!(matches!(clean.command(), Ok(Command::Clean)));

    let run = Args {
        group: Group { path: Some("./project".to_string()), clean: false },
        file: Some("./project/src/lib.cairo".to_string()),
    };
    match run.command() {
        Ok(Command::Mutate { path, file }) => {
            assert_eq!(path, "./project");
            assert_eq!(file, Some("./project/src/lib.cairo".to_string()));
        }
        other => panic!("unexpected command: {:?}", other),
    }

    let nothing = Args { group: Group { path: None, clean: false }, file: None };
    assert_eq!(
        nothing.command().unwrap_err(),
        Error::Custom("Either a path or the clean flag is required".to_string())
    );
}

fn candidate(from: MutationType, to: MutationType, pos: usize) -> Mutation {
    Mutation::new(from, to, "src/lib.cairo".to_string(), "if a == b {".to_string(), pos)
}

fn results() -> Vec<MutationResult> {
    vec![
        MutationResult::new(candidate(MutationType::Equal, MutationType::NotEqual, 0), Verdict::Killed),
        MutationResult::new(candidate(MutationType::Equal, MutationType::NotEqual, 4), Verdict::Survived),
        MutationResult::new(
            candidate(MutationType::LessThan, MutationType::GreaterThan, 7),
            Verdict::BuildBroken,
        ),
        MutationResult::new(candidate(MutationType::And, MutationType::Or, 9), Verdict::Survived),
        MutationResult::new(candidate(MutationType::IsZero, MutationType::IsNonZero, 11), Verdict::Killed),
    ]
}

#[test]
fn summarize_counts_each_verdict() {
    assert_eq!(
        summarize(&results()),
        Summary { total: 5, killed: 2, build_broken: 1, survived: 2 }
    );
    assert_eq!(
        summarize(&vec![]),
        Summary { total: 0, killed: 0, build_broken: 0, survived: 0 }
    );
}

#[test]
fn render_result_lists_the_survivors_in_order() {
    let text = render_result(&results(), "-->", " |");
    let expected = "Found 5 mutations:\n\
                    \t2 successful\n\
                    \t1 build failures\n\
                    \t2 failures\n\
                    \nFailures:\n\
                    --> src/lib.cairo:5\n |\u{20}\"==\" updated to \"!=\"\n\n\n\
                    --> src/lib.cairo:10\n |\u{20}\" && \" updated to \" || \"\n\n\n";
    assert_eq!(text, expected);
}

#[test]
fn render_result_without_survivors_says_so() {
    let killed = vec![MutationResult::new(
        candidate(MutationType::Equal, MutationType::NotEqual, 0),
        Verdict::Killed,
    )];
    assert_eq!(
        render_result(&killed, "-->", " |"),
        "Found 1 mutation:\n\t1 successful\n\t0 build failures\n\t0 failures\nAll mutation tests passed\n"
    );
    assert_eq!(
        render_result(&vec![], "-->", " |"),
        "Found 0 mutation:\n\t0 successful\n\t0 build failures\n\t0 failures\nAll mutation tests passed\n"
    );
}

#[test]
fn outcome_fails_exactly_on_survivors() {
    assert_eq!(
        outcome(&results()),
        Err(Error::Custom("Some mutation tests failed".to_string()))
    );
    let broken = vec![MutationResult::new(
        candidate(MutationType::Equal, MutationType::NotEqual, 0),
        Verdict::BuildBroken,
    )];
    assert_eq!(outcome(&broken), Ok(()));
    assert_eq!(outcome(&vec![]), Ok(()));
}
