//! What the command line asks for, the checks on its paths, and the text
//! that closes a run.

use crate::error::{Error, ErrorView};
use crate::file_manager::{
    has_extension, is_within, path_has_extension, path_is_within, source_extension,
};
use crate::mutant::{
    arrow, bar, markers, painted_blue, MutationResult, MutationResultView, Verdict,
};
use crate::text::{decimal, to_decimal};
use vstd::prelude::*;
use vstd::string::*;

verus! {

/// The two things a call can be for: a run on a project, or the removal of
/// what an interrupted run left behind. A call names exactly one of them.
#[derive(Debug, Clone)]
pub struct Group {
    /// Path to the folder containing the root manifest.
    pub path: Option<String>,
    /// Whether to clean the files that an interrupted run left behind.
    pub clean: bool,
}

/// The arguments of a call.
#[derive(Debug, Clone)]
pub struct Args {
    pub group: Group,
    /// Path to the one source file to mutate, where the run is limited to one.
    pub file: Option<String>,
}

/// What a call asks for.
#[derive(Debug, Clone)]
pub enum Command {
    /// Remove what an interrupted run left behind.
    Clean,
    /// Run on the project at `path`, on all its source files or on `file` only.
    Mutate { path: String, file: Option<String> },
}

/// What a `Command` stands for.
pub enum CommandView {
    Clean,
    Mutate { path: Seq<char>, file: Option<Seq<char>> },
}

impl View for Command {
    type V = CommandView;

    open spec fn view(&self) -> CommandView {
        match *self {
            Command::Clean => CommandView::Clean,
            Command::Mutate { path, file } => CommandView::Mutate {
                path: path@,
                file: text_of(file),
            },
        }
    }
}

/// The message for a call that names neither a project nor a clean-up.
pub open spec fn nothing_asked_message() -> Seq<char> {
    "Either a path or the clean flag is required"@
}

impl Args {
    /// What the call asks for: the clean-up where it is asked for, else the
    /// run on the project named. A call that names neither is an error.
    pub fn command(&self) -> (r: Result<Command, Error>)
        ensures
            match r {
                Ok(c) => if self.group.clean {
                    c@ == CommandView::Clean
                } else {
                    self.group.path matches Some(p) && c@ == (CommandView::Mutate {
                        path: p@,
                        file: text_of(self.file),
                    })
                },
                Err(e) => !self.group.clean && self.group.path is None && e@
                    == ErrorView::Custom(nothing_asked_message()),
            },
    {
        if self.group.clean {
            return Ok(Command::Clean);
        }
        match &self.group.path {
            Some(p) => Ok(Command::Mutate { path: p.clone(), file: self.file.clone() }),
            None => Err(
                Error::Custom(String::from_str("Either a path or the clean flag is required")),
            ),
        }
    }
}

/// What the file system says of the path given as project folder.
#[derive(Debug, Clone)]
pub struct PathProbe {
    /// The absolute form of the path; `None` where the path names nothing
    /// that exists.
    pub canonical: Option<String>,
    /// Whether the path names a file, not a folder.
    pub is_file: bool,
    /// Whether the folder holds the manifest.
    pub has_manifest: bool,
}

/// What the file system says of the path given as the one file to mutate.
#[derive(Debug, Clone)]
pub struct FileProbe {
    /// The absolute form of the path; `None` where the path names nothing
    /// that exists.
    pub canonical: Option<String>,
    /// Whether the path names a folder, not a file.
    pub is_dir: bool,
}

/// The message for a project path that names a file.
pub open spec fn not_a_folder_message() -> Seq<char> {
    "Path should be a folder file"@
}

/// The message for a project folder without manifest.
pub open spec fn no_manifest_message() -> Seq<char> {
    "Scarb.toml file not found"@
}

/// The message for a project whose own tests fail before anything is mutated.
pub open spec fn red_baseline_message() -> Seq<char> {
    "Tests aren't passing"@
}

/// The message for a file path that names a folder.
pub open spec fn not_a_file_message(path: Seq<char>) -> Seq<char> {
    seq!['"'] + path + "\" should be a file"@
}

/// The message for a file that lies outside the project folder.
pub open spec fn outside_folder_message() -> Seq<char> {
    "File should be within the path folder"@
}

/// The message for a file that is no source file.
pub open spec fn wrong_extension_message() -> Seq<char> {
    "File extension should be .cairo"@
}

/// The text of a string that may be missing.
pub open spec fn text_of(s: Option<String>) -> Option<Seq<char>> {
    match s {
        Some(t) => Some(t@),
        None => None,
    }
}

/// What an answer of `check_path` stands for.
pub open spec fn path_result(r: Result<String, Error>) -> Result<Seq<char>, ErrorView> {
    match r {
        Ok(p) => Ok(p@),
        Err(e) => Err(e@),
    }
}

/// What an answer of `check_file` stands for.
pub open spec fn file_result(r: Result<Option<String>, Error>) -> Result<
    Option<Seq<char>>,
    ErrorView,
> {
    match r {
        Ok(p) => Ok(text_of(p)),
        Err(e) => Err(e@),
    }
}

/// What the toolchain says of the unmodified project.
#[derive(Debug, Clone, Copy, PartialEq, Eq, Structural)]
pub struct Baseline {
    /// Whether the unmodified project builds.
    pub builds: bool,
    /// Whether the unmodified project passes its own tests.
    pub tests_pass: bool,
}

/// The message for a project that does not build before anything is mutated.
pub open spec fn broken_baseline_message() -> Seq<char> {
    "Project isn't building"@
}

/// What `check_layout` answers for a path and what the file system says of
/// it: the absolute form of the path, or the first of these errors that
/// applies: the path names nothing, it names a file, the folder holds no
/// manifest.
pub open spec fn checked_layout(path: Seq<char>, probe: PathProbe) -> Result<Seq<char>, ErrorView> {
    match probe.canonical {
        None => Err(ErrorView::FsInvalidPath { path }),
        Some(canonical) => if probe.is_file {
            Err(ErrorView::Precondition(not_a_folder_message()))
        } else if !probe.has_manifest {
            Err(ErrorView::Precondition(no_manifest_message()))
        } else {
            Ok(canonical@)
        },
    }
}

/// What `check_baseline` answers: the unmodified project must build, and
/// then pass its tests.
pub open spec fn checked_baseline(baseline: Baseline) -> Result<(), ErrorView> {
    if !baseline.builds {
        Err(ErrorView::Precondition(broken_baseline_message()))
    } else if !baseline.tests_pass {
        Err(ErrorView::Precondition(red_baseline_message()))
    } else {
        Ok(())
    }
}

/// What `check_path` answers for a path, what the file system says of it,
/// and what the toolchain says of the project: the absolute form of the
/// path where the layout is right and the unmodified project builds and
/// passes its tests; else the first error of the layout, or, where the
/// layout is right, the error of the baseline.
pub open spec fn checked_path(path: Seq<char>, probe: PathProbe, baseline: Baseline) -> Result<
    Seq<char>,
    ErrorView,
> {
    match checked_layout(path, probe) {
        Err(e) => Err(e),
        Ok(root) => match checked_baseline(baseline) {
            Err(e) => Err(e),
            Ok(_) => Ok(root),
        },
    }
}

/// Checks the layout of the path given as project folder: it must exist, be
/// a folder, and hold the manifest. Gives the absolute form of the path.
pub fn check_layout(source_folder_path: &String, probe: &PathProbe) -> (r: Result<String, Error>)
    ensures
        path_result(r) == checked_layout(source_folder_path@, *probe),
{
    match &probe.canonical {
        None => Err(Error::FsInvalidPath { path: source_folder_path.clone() }),
        Some(canonical) => {
            if probe.is_file {
                Err(Error::Precondition(String::from_str("Path should be a folder file")))
            } else if !probe.has_manifest {
                Err(Error::Precondition(String::from_str("Scarb.toml file not found")))
            } else {
                Ok(canonical.clone())
            }
        },
    }
}

/// Checks what the toolchain says of the unmodified project before anything
/// is mutated: a project that does not build, or whose tests fail, cannot
/// be mutated.
pub fn check_baseline(baseline: &Baseline) -> (r: Result<(), Error>)
    ensures
        match r {
            Ok(_) => checked_baseline(*baseline) is Ok,
            Err(e) => checked_baseline(*baseline) == Err::<(), ErrorView>(e@),
        },
        r is Ok <==> baseline.builds && baseline.tests_pass,
{
    if !baseline.builds {
        Err(Error::Precondition(String::from_str("Project isn't building")))
    } else if !baseline.tests_pass {
        Err(Error::Precondition(String::from_str("Tests aren't passing")))
    } else {
        Ok(())
    }
}

/// Checks the project folder: the path must exist, be a folder, and hold
/// the manifest, and the unmodified project must build and pass its tests.
/// Gives the absolute form of the path.
pub fn check_path(source_folder_path: &String, probe: &PathProbe, baseline: &Baseline) -> (r:
    Result<String, Error>)
    ensures
        path_result(r) == checked_path(source_folder_path@, *probe, *baseline),
        r is Ok ==> probe.canonical is Some && !probe.is_file && probe.has_manifest
            && baseline.builds && baseline.tests_pass,
{
    match check_layout(source_folder_path, probe) {
        Err(e) => Err(e),
        Ok(root) => match check_baseline(baseline) {
            Err(e) => Err(e),
            Ok(_) => Ok(root),
        },
    }
}

/// What `check_file` answers for a file, the project folder, and what the
/// file system says of the file: nothing where no file is given; else the
/// absolute form of the path, or the first of these errors that applies: the
/// path names nothing, it names a folder, it lies outside the project
/// folder, it does not name a source file.
pub open spec fn checked_file(
    file: Option<Seq<char>>,
    folder: Seq<char>,
    probe: FileProbe,
) -> Result<Option<Seq<char>>, ErrorView> {
    match file {
        None => Ok(None),
        Some(path) => match probe.canonical {
            None => Err(ErrorView::FsInvalidPath { path }),
            Some(canonical) => if probe.is_dir {
                Err(ErrorView::Precondition(not_a_file_message(canonical@)))
            } else if !is_within(canonical@, folder) {
                Err(ErrorView::Precondition(outside_folder_message()))
            } else if !has_extension(canonical@, source_extension()) {
                Err(ErrorView::Precondition(wrong_extension_message()))
            } else {
                Ok(Some(canonical@))
            },
        },
    }
}

/// Checks the path given as the one file to mutate, where one is given: it
/// must exist, be a file, lie within the project folder, and be a source
/// file. Gives the absolute form of the path.
pub fn check_file(file: Option<String>, source_folder_path: &String, probe: &FileProbe) -> (r:
    Result<Option<String>, Error>)
    ensures
        file_result(r) == checked_file(text_of(file), source_folder_path@, *probe),
{
    match file {
        None => Ok(None),
        Some(path) => match &probe.canonical {
            None => Err(Error::FsInvalidPath { path }),
            Some(canonical) => {
                proof {
                    reveal_strlit("cairo");
                    reveal_strlit("\"");
                }
                assert("cairo"@ =~= source_extension());
                if probe.is_dir {
                    let mut m = String::from_str("\"");
                    m.append(canonical.as_str());
                    m.append("\" should be a file");
                    assert(m@ =~= not_a_file_message(canonical@));
                    Err(Error::Precondition(m))
                } else if !path_is_within(canonical.as_str(), source_folder_path.as_str()) {
                    Err(
                        Error::Precondition(
                            String::from_str("File should be within the path folder"),
                        ),
                    )
                } else if !path_has_extension(canonical.as_str(), "cairo") {
                    Err(Error::Precondition(String::from_str("File extension should be .cairo")))
                } else {
                    Ok(Some(canonical.clone()))
                }
            },
        },
    }
}

/// A project that passed every check before a run: its folder, and the one
/// file to mutate where the run is limited to one.
#[derive(Debug, Clone, PartialEq, Eq)]
pub struct Project {
    pub root: String,
    pub file: Option<String>,
}

/// What a `Project` stands for.
pub struct ProjectView {
    pub root: Seq<char>,
    pub file: Option<Seq<char>>,
}

impl View for Project {
    type V = ProjectView;

    open spec fn view(&self) -> ProjectView {
        ProjectView { root: self.root@, file: text_of(self.file) }
    }
}

/// What an answer of `check_preconditions` stands for.
pub open spec fn project_result(r: Result<Project, Error>) -> Result<ProjectView, ErrorView> {
    match r {
        Ok(p) => Ok(p@),
        Err(e) => Err(e@),
    }
}

/// What the checks before a run answer, taken together and in their order:
/// first the project folder with its layout, then the baseline, then the
/// one file to mutate, where one is given. The first error ends the checks.
pub open spec fn checked_preconditions(
    path: Seq<char>,
    probe: PathProbe,
    baseline: Baseline,
    file: Option<Seq<char>>,
    file_probe: FileProbe,
) -> Result<ProjectView, ErrorView> {
    match checked_path(path, probe, baseline) {
        Err(e) => Err(e),
        Ok(root) => match checked_file(file, root, file_probe) {
            Err(e) => Err(e),
            Ok(checked) => Ok(ProjectView { root, file: checked }),
        },
    }
}

/// The checks before a run, taken together and in their order: the project
/// folder with its layout, the baseline, and the one file to mutate.
pub fn check_preconditions(
    source_folder_path: &String,
    probe: &PathProbe,
    baseline: &Baseline,
    file: Option<String>,
    file_probe: &FileProbe,
) -> (r: Result<Project, Error>)
    ensures
        project_result(r) == checked_preconditions(
            source_folder_path@,
            *probe,
            *baseline,
            text_of(file),
            *file_probe,
        ),
{
    match check_path(source_folder_path, probe, baseline) {
        Err(e) => Err(e),
        Ok(root) => match check_file(file, &root, file_probe) {
            Err(e) => Err(e),
            Ok(checked) => Ok(Project { root, file: checked }),
        },
    }
}

/// What is known so far of a project, while the checks before a run go on.
/// Each finding is missing until it was asked for.
#[derive(Debug, Clone)]
pub struct Findings {
    /// What the file system says of the path given as project folder.
    pub path_probe: Option<PathProbe>,
    /// Whether the unmodified project builds.
    pub builds: Option<bool>,
    /// Whether the unmodified project passes its tests.
    pub tests_pass: Option<bool>,
    /// What the file system says of the one file to mutate.
    pub file_probe: Option<FileProbe>,
}

/// What to find out next about a project, or the answer of the checks.
#[derive(Debug)]
pub enum Inquiry {
    /// Ask the file system about the path given as project folder.
    ProbePath,
    /// Run the build check on the unmodified project at `root`.
    RunBuild { root: String },
    /// Run the test check on the unmodified project at `root`.
    RunTests { root: String },
    /// Ask the file system about the one file to mutate.
    ProbeFile,
    /// Nothing more is to be found out: this is the answer of the checks.
    Settled(Result<Project, Error>),
}

/// What an `Inquiry` stands for.
pub enum InquiryView {
    ProbePath,
    RunBuild { root: Seq<char> },
    RunTests { root: Seq<char> },
    ProbeFile,
    Settled(Result<ProjectView, ErrorView>),
}

impl View for Inquiry {
    type V = InquiryView;

    open spec fn view(&self) -> InquiryView {
        match *self {
            Inquiry::ProbePath => InquiryView::ProbePath,
            Inquiry::RunBuild { root } => InquiryView::RunBuild { root: root@ },
            Inquiry::RunTests { root } => InquiryView::RunTests { root: root@ },
            Inquiry::ProbeFile => InquiryView::ProbeFile,
            Inquiry::Settled(r) => InquiryView::Settled(project_result(r)),
        }
    }
}

/// What to find out next, given what is known.
///
/// The checks go in one order and stop at the first error: the layout of
/// the project folder; then the build of the unmodified project; then its
/// tests; then the one file to mutate, where one is given. Nothing is asked
/// for behind an error, and the toolchain is asked only about a folder whose
/// layout is right, and about the tests only of a project that builds.
pub open spec fn inquiry(path: Seq<char>, file: Option<Seq<char>>, findings: Findings) -> InquiryView {
    match findings.path_probe {
        None => InquiryView::ProbePath,
        Some(probe) => match checked_layout(path, probe) {
            Err(e) => InquiryView::Settled(Err(e)),
            Ok(root) => match findings.builds {
                None => InquiryView::RunBuild { root },
                Some(builds) => if !builds {
                    InquiryView::Settled(Err(ErrorView::Precondition(broken_baseline_message())))
                } else {
                    match findings.tests_pass {
                        None => InquiryView::RunTests { root },
                        Some(tests_pass) => if !tests_pass {
                            InquiryView::Settled(
                                Err(ErrorView::Precondition(red_baseline_message())),
                            )
                        } else {
                            match file {
                                None => InquiryView::Settled(
                                    Ok(ProjectView { root, file: None }),
                                ),
                                Some(f) => match findings.file_probe {
                                    None => InquiryView::ProbeFile,
                                    Some(file_probe) => InquiryView::Settled(
                                        match checked_file(file, root, file_probe) {
                                            Err(e) => Err(e),
                                            Ok(checked) => Ok(
                                                ProjectView { root, file: checked },
                                            ),
                                        },
                                    ),
                                },
                            }
                        },
                    }
                },
            },
        },
    }
}

impl Findings {
    /// Nothing is known yet.
    pub fn new() -> (f: Findings)
        ensures
            f.path_probe is None,
            f.builds is None,
            f.tests_pass is None,
            f.file_probe is None,
    {
        Findings { path_probe: None, builds: None, tests_pass: None, file_probe: None }
    }

    /// Whether the findings hold nothing that `probe`, `baseline` and
    /// `file_probe` do not say: each finding is missing or agrees with them.
    pub open spec fn agrees_with(self, probe: PathProbe, baseline: Baseline, file_probe: FileProbe) -> bool {
        &&& self.path_probe is Some ==> self.path_probe == Some(probe)
        &&& self.builds is Some ==> self.builds == Some(baseline.builds)
        &&& self.tests_pass is Some ==> self.tests_pass == Some(baseline.tests_pass)
        &&& self.file_probe is Some ==> self.file_probe == Some(file_probe)
    }
}

/// What to find out next about the project at `source_folder_path`, given
/// what is known, or the answer of the checks once it is settled.
pub fn next_inquiry(source_folder_path: &String, file: &Option<String>, findings: &Findings) -> (r:
    Inquiry)
    ensures
        r@ == inquiry(source_folder_path@, text_of(*file), *findings),
{
    match &findings.path_probe {
        None => Inquiry::ProbePath,
        Some(probe) => match check_layout(source_folder_path, probe) {
            Err(e) => Inquiry::Settled(Err(e)),
            Ok(root) => match findings.builds {
                None => Inquiry::RunBuild { root },
                Some(builds) => {
                    if !builds {
                        Inquiry::Settled(
                            Err(Error::Precondition(String::from_str("Project isn't building"))),
                        )
                    } else {
                        match findings.tests_pass {
                            None => Inquiry::RunTests { root },
                            Some(tests_pass) => {
                                if !tests_pass {
                                    Inquiry::Settled(
                                        Err(
                                            Error::Precondition(
                                                String::from_str("Tests aren't passing"),
                                            ),
                                        ),
                                    )
                                } else {
                                    match file {
                                        None => Inquiry::Settled(
                                            Ok(Project { root, file: None }),
                                        ),
                                        Some(f) => match &findings.file_probe {
                                            None => Inquiry::ProbeFile,
                                            Some(file_probe) => {
                                                match check_file(
                                                    Some(f.clone()),
                                                    &root,
                                                    file_probe,
                                                ) {
                                                    Err(e) => Inquiry::Settled(Err(e)),
                                                    Ok(checked) => Inquiry::Settled(
                                                        Ok(Project { root, file: checked }),
                                                    ),
                                                }
                                            },
                                        },
                                    }
                                }
                            },
                        }
                    }
                },
            },
        },
    }
}

/// Whether the path was probed and its layout found right, with `root` as
/// the absolute form of the path.
pub open spec fn layout_is_right(path: Seq<char>, findings: Findings, root: Seq<char>) -> bool {
    match findings.path_probe {
        Some(probe) => checked_layout(path, probe) == Ok::<Seq<char>, ErrorView>(root),
        None => false,
    }
}

/// An answer that is settled is the answer of the checks taken together,
/// whatever would have been found out about what was not asked for.
pub proof fn lemma_settled_is_the_answer(
    path: Seq<char>,
    file: Option<Seq<char>>,
    findings: Findings,
    probe: PathProbe,
    baseline: Baseline,
    file_probe: FileProbe,
)
    requires
        findings.agrees_with(probe, baseline, file_probe),
        inquiry(path, file, findings) is Settled,
    ensures
        inquiry(path, file, findings) == InquiryView::Settled(
            checked_preconditions(path, probe, baseline, file, file_probe),
        ),
{
}

/// The checks succeed only for a project folder whose layout is right and
/// whose unmodified project was found to build and to pass its tests.
pub proof fn lemma_success_needs_a_green_baseline(
    path: Seq<char>,
    file: Option<Seq<char>>,
    findings: Findings,
)
    requires
        inquiry(path, file, findings) matches InquiryView::Settled(r) && r is Ok,
    ensures
        exists|root: Seq<char>| layout_is_right(path, findings, root),
        findings.builds == Some(true),
        findings.tests_pass == Some(true),
{
    let root = checked_layout(path, findings.path_probe->0)->Ok_0;
    assert(layout_is_right(path, findings, root));
}

/// What is asked for is never known already, and the toolchain is asked
/// only about a folder whose layout is right, and about the tests only of a
/// project that builds. So every answer from outside brings the checks one
/// step on, and they are settled after four answers at most.
pub proof fn lemma_inquiry_asks_what_is_missing(
    path: Seq<char>,
    file: Option<Seq<char>>,
    findings: Findings,
)
    ensures
        match inquiry(path, file, findings) {
            InquiryView::ProbePath => findings.path_probe is None,
            InquiryView::RunBuild { root } => {
                &&& findings.builds is None
                &&& layout_is_right(path, findings, root)
            },
            InquiryView::RunTests { root } => {
                &&& findings.tests_pass is None
                &&& findings.builds == Some(true)
                &&& layout_is_right(path, findings, root)
            },
            InquiryView::ProbeFile => findings.file_probe is None && file is Some
                && findings.tests_pass == Some(true),
            InquiryView::Settled(_) => true,
        },
{
}

/// The ending of a noun for this many things: `s` for more than one.
pub fn s_or_nothing<T>(arr: &Vec<T>) -> (r: &'static str)
    ensures
        r@ == (if arr@.len() > 1 {
            seq!['s']
        } else {
            Seq::<char>::empty()
        }),
{
    proof {
        reveal_strlit("s");
        reveal_strlit("");
    }
    if arr.len() > 1 {
        assert("s"@ =~= seq!['s']);
        "s"
    } else {
        assert(""@ =~= Seq::<char>::empty());
        ""
    }
}

/// How many of the first `n` results have the verdict `verdict`.
pub open spec fn count_of(results: Seq<MutationResultView>, verdict: Verdict, n: int) -> nat
    decreases n,
{
    if n <= 0 {
        0
    } else if results[n - 1].verdict == verdict {
        count_of(results, verdict, n - 1) + 1
    } else {
        count_of(results, verdict, n - 1)
    }
}

/// The counts of a run: all candidates, and those of each verdict.
#[derive(Debug, Clone, Copy, PartialEq, Eq, Structural)]
pub struct Summary {
    pub total: usize,
    pub killed: usize,
    pub build_broken: usize,
    pub survived: usize,
}

/// Every result has one verdict, so the counts of the three verdicts add up
/// to the number of results.
pub proof fn lemma_counts_add_up(results: Seq<MutationResultView>, n: int)
    requires
        0 <= n <= results.len(),
    ensures
        count_of(results, Verdict::Killed, n) + count_of(results, Verdict::BuildBroken, n)
            + count_of(results, Verdict::Survived, n) == n,
    decreases n,
{
    if n > 0 {
        lemma_counts_add_up(results, n - 1);
    }
}

/// The counts of a run.
pub fn summarize(results: &Vec<MutationResult>) -> (s: Summary)
    ensures
        s.total == results@.len(),
        s.killed == count_of(results.deep_view(), Verdict::Killed, results@.len() as int),
        s.build_broken == count_of(
            results.deep_view(),
            Verdict::BuildBroken,
            results@.len() as int,
        ),
        s.survived == count_of(results.deep_view(), Verdict::Survived, results@.len() as int),
        s.killed + s.build_broken + s.survived == s.total,
{
    let mut killed: usize = 0;
    let mut build_broken: usize = 0;
    let mut survived: usize = 0;
    let mut i: usize = 0;
    while i < results.len()
        invariant
            i <= results.len(),
            killed == count_of(results.deep_view(), Verdict::Killed, i as int),
            build_broken == count_of(results.deep_view(), Verdict::BuildBroken, i as int),
            survived == count_of(results.deep_view(), Verdict::Survived, i as int),
            killed + build_broken + survived == i,
        decreases results.len() - i,
    {
        assert(results.deep_view()[i as int] == results@[i as int]@);
        match results[i].verdict() {
            Verdict::Killed => {
                killed += 1;
            },
            Verdict::BuildBroken => {
                build_broken += 1;
            },
            Verdict::Survived => {
                survived += 1;
            },
        }
        i += 1;
    }
    Summary { total: results.len(), killed, build_broken, survived }
}

/// The descriptions of those of the first `n` results that survived, each
/// followed by an empty line.
pub open spec fn failures_text(
    results: Seq<MutationResultView>,
    n: int,
    arrow: Seq<char>,
    bar: Seq<char>,
) -> Seq<char>
    decreases n,
{
    if n <= 0 {
        Seq::empty()
    } else if results[n - 1].verdict == Verdict::Survived {
        failures_text(results, n - 1, arrow, bar) + results[n - 1].rendered(arrow, bar) + seq![
            '\n',
            '\n',
        ]
    } else {
        failures_text(results, n - 1, arrow, bar)
    }
}

/// The first lines of the closing text: the number of candidates and the
/// number of each verdict.
pub open spec fn counts_text(total: nat, killed: nat, build_broken: nat, survived: nat) -> Seq<
    char,
> {
    "Found "@ + decimal(total) + " mutation"@ + (if total > 1 {
        seq!['s']
    } else {
        Seq::<char>::empty()
    }) + ":\n\t"@ + decimal(killed) + " successful\n\t"@ + decimal(build_broken)
        + " build failures\n\t"@ + decimal(survived) + " failures\n"@
}

/// The text that closes a run: the counts, then the survivors one by one, or
/// the line that says there are none.
pub open spec fn result_text(results: Seq<MutationResultView>, arrow: Seq<char>, bar: Seq<char>) -> Seq<
    char,
> {
    let n = results.len() as int;
    let survived = count_of(results, Verdict::Survived, n);
    counts_text(
        results.len(),
        count_of(results, Verdict::Killed, n),
        count_of(results, Verdict::BuildBroken, n),
        survived,
    ) + (if survived > 0 {
        "\nFailures:\n"@ + failures_text(results, n, arrow, bar)
    } else {
        "All mutation tests passed\n"@
    })
}

/// The message of the error that a run with survivors ends with.
pub open spec fn survivors_message() -> Seq<char> {
    "Some mutation tests failed"@
}

/// The text that closes a run, with the markers given.
pub fn render_result(results: &Vec<MutationResult>, arrow: &str, bar: &str) -> (text: String)
    ensures
        text@ == result_text(results.deep_view(), arrow@, bar@),
{
    let summary = summarize(results);
    let ghost all = results.deep_view();
    let mut text = String::from_str("Found ");
    text.append(to_decimal(summary.total as u128).as_str());
    text.append(" mutation");
    text.append(s_or_nothing(results));
    text.append(":\n\t");
    text.append(to_decimal(summary.killed as u128).as_str());
    text.append(" successful\n\t");
    text.append(to_decimal(summary.build_broken as u128).as_str());
    text.append(" build failures\n\t");
    text.append(to_decimal(summary.survived as u128).as_str());
    text.append(" failures\n");
    assert(text@ =~= counts_text(
        all.len(),
        summary.killed as nat,
        summary.build_broken as nat,
        summary.survived as nat,
    ));
    if summary.survived > 0 {
        text.append("\nFailures:\n");
        let ghost head = text@;
        let mut i: usize = 0;
        assert(text@ =~= head + failures_text(all, 0, arrow@, bar@));
        while i < results.len()
            invariant
                i <= results.len(),
                all == results.deep_view(),
                text@ == head + failures_text(all, i as int, arrow@, bar@),
            decreases results.len() - i,
        {
            assert(all[i as int] == results@[i as int]@);
            match results[i].verdict() {
                Verdict::Survived => {
                    proof {
                        reveal_strlit("\n\n");
                    }
                    let one = results[i].render(arrow, bar);
                    text.append(one.as_str());
                    text.append("\n\n");
                    assert(text@ =~= head + failures_text(all, i + 1, arrow@, bar@));
                },
                _ => {},
            }
            i += 1;
        }
    } else {
        text.append("All mutation tests passed\n");
    }
    text
}

/// The text that closes a run, as it is printed: the markers in blue where
/// the terminal takes colours.
pub fn print_result(results: &Vec<MutationResult>) -> (text: String)
    ensures
        exists|a: Seq<char>, b: Seq<char>|
            painted_blue(arrow(), a) && painted_blue(bar(), b) && text@ == #[trigger] result_text(
                results.deep_view(),
                a,
                b,
            ),
{
    let (a, b) = markers();
    let text = render_result(results, a.as_str(), b.as_str());
    assert(text@ == result_text(results.deep_view(), a@, b@));
    text
}

/// Whether the run counts as passed: it does exactly if no mutant survived.
pub fn outcome(results: &Vec<MutationResult>) -> (r: Result<(), Error>)
    ensures
        match r {
            Ok(_) => count_of(results.deep_view(), Verdict::Survived, results@.len() as int) == 0,
            Err(e) => count_of(results.deep_view(), Verdict::Survived, results@.len() as int) > 0
                && e@ == ErrorView::Custom(survivors_message()),
        },
{
    let summary = summarize(results);
    if summary.survived == 0 {
        Ok(())
    } else {
        Err(Error::Custom(String::from_str("Some mutation tests failed")))
    }
}

} // verus!
