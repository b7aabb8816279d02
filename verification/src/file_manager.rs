//! Lines of a file, the rewrite of one line, and the choice of the files
//! that make up a sandbox.

use crate::error::{Error, ErrorView};
use crate::text::{append_chars, append_range, from_chars, matches_at, to_chars};
use vstd::prelude::*;
use vstd::string::*;

verus! {

/// Where the line that starts at `start` stops: at the first line feed at or
/// behind `start`, or at the end of the text where there is none.
pub open spec fn line_stop(text: Seq<char>, start: int) -> int
    decreases text.len() - start,
{
    if start < 0 || start >= text.len() {
        text.len() as int
    } else if text[start] == '\n' {
        start
    } else {
        line_stop(text, start + 1)
    }
}

/// Where line `k` starts: line 0 at the start of the text, every other line
/// behind the line feed that ends the line before it.
pub open spec fn line_start(text: Seq<char>, k: int) -> int
    decreases k,
{
    if k <= 0 {
        0
    } else {
        line_stop(text, line_start(text, k - 1)) + 1
    }
}

/// Whether the text has a line `k`. A line feed at the very end of the text
/// starts no further line.
pub open spec fn has_line(text: Seq<char>, k: int) -> bool {
    0 <= k && line_start(text, k) < text.len()
}

/// Where the content of line `k` ends. The line feed is no part of the
/// content, nor is a carriage return that stands directly before it.
pub open spec fn line_end(text: Seq<char>, k: int) -> int {
    let start = line_start(text, k);
    let stop = line_stop(text, start);
    if stop < text.len() && start < stop && text[stop - 1] == '\r' {
        stop - 1
    } else {
        stop
    }
}

/// The content of line `k`.
pub open spec fn line_text(text: Seq<char>, k: int) -> Seq<char> {
    text.subrange(line_start(text, k), line_end(text, k))
}

/// The text with the content of line `k` replaced by `new_content`: what
/// stands before the line and what stands behind its content, line ending
/// included, is kept as it is.
pub open spec fn with_line(text: Seq<char>, k: int, new_content: Seq<char>) -> Seq<char> {
    text.take(line_start(text, k)) + new_content + text.skip(line_end(text, k))
}

/// A line stops at or behind its start, within the text, at a line feed or
/// at the end, and holds no line feed before that.
pub proof fn lemma_line_stop(text: Seq<char>, start: int)
    requires
        0 <= start <= text.len(),
    ensures
        start <= line_stop(text, start) <= text.len(),
        line_stop(text, start) < text.len() ==> text[line_stop(text, start)] == '\n',
        forall|j: int| start <= j < line_stop(text, start) ==> text[j] != '\n',
    decreases text.len() - start,
{
    if start < text.len() && text[start] != '\n' {
        lemma_line_stop(text, start + 1);
    }
}

/// A line that exists starts within the text, and so does every line before it.
pub proof fn lemma_line_start(text: Seq<char>, k: int)
    ensures
        0 <= line_start(text, k) <= text.len() + 1,
        k > 0 && has_line(text, k) ==> has_line(text, k - 1),
        k > 0 && has_line(text, k - 1) ==> line_start(text, k - 1) < line_start(text, k),
    decreases k,
{
    if k > 0 {
        lemma_line_start(text, k - 1);
        let before = line_start(text, k - 1);
        if before <= text.len() {
            lemma_line_stop(text, before);
        }
    }
}

/// The content of a line lies between its start and the line feed that ends it.
pub proof fn lemma_line_end(text: Seq<char>, k: int)
    requires
        has_line(text, k),
    ensures
        0 <= line_start(text, k) <= line_end(text, k) <= line_stop(text, line_start(text, k))
            <= text.len(),
{
    lemma_line_start(text, k);
    lemma_line_stop(text, line_start(text, k));
}

/// The number of lines that start at or behind position `start`, which is
/// itself the start of a line.
pub open spec fn count_lines_from(text: Seq<char>, start: int) -> nat
    decreases text.len() + 1 - start,
{
    if start < 0 || start >= text.len() {
        0
    } else {
        proof {
            lemma_line_stop(text, start);
        }
        1 + count_lines_from(text, line_stop(text, start) + 1)
    }
}

/// The number of lines of the text.
pub open spec fn line_count(text: Seq<char>) -> nat {
    count_lines_from(text, 0)
}

/// The lines of the text, each without its line ending.
pub open spec fn lines_of(text: Seq<char>) -> Seq<Seq<char>> {
    Seq::new(line_count(text), |k: int| line_text(text, k))
}

/// Behind the start of line `j` the text has as many lines as it has from
/// line `j` on.
pub proof fn lemma_count_lines_from(text: Seq<char>, j: int, m: int)
    requires
        0 <= j,
        0 <= m,
    ensures
        has_line(text, j + m) <==> m < count_lines_from(text, line_start(text, j)),
    decreases m,
{
    lemma_line_start(text, j);
    let start = line_start(text, j);
    if start >= text.len() {
        lemma_lines_are_consecutive(text, j, j + m);
    } else if m > 0 {
        lemma_line_stop(text, start);
        assert(line_start(text, j + 1) == line_stop(text, start) + 1);
        lemma_count_lines_from(text, j + 1, m - 1);
    }
}

/// The text has line `k` exactly if `k` is below the number of its lines.
pub proof fn lemma_line_count(text: Seq<char>, k: int)
    requires
        0 <= k,
    ensures
        has_line(text, k) <==> k < line_count(text),
{
    lemma_count_lines_from(text, 0, k);
}

/// Rewriting a line changes nothing before the line and nothing behind its
/// content: the text up to the start of the line is kept, the new content
/// follows, and behind it stands what stood behind the old content.
pub proof fn lemma_with_line_keeps_the_rest(text: Seq<char>, k: int, new_content: Seq<char>)
    requires
        has_line(text, k),
    ensures
        ({
            let start = line_start(text, k);
            let end = line_end(text, k);
            let out = with_line(text, k, new_content);
            &&& out.len() == text.len() - (end - start) + new_content.len()
            &&& out.take(start) == text.take(start)
            &&& out.subrange(start, start + new_content.len()) == new_content
            &&& out.skip(start + new_content.len()) == text.skip(end)
        }),
{
    lemma_line_end(text, k);
    let start = line_start(text, k);
    let end = line_end(text, k);
    let out = with_line(text, k, new_content);
    assert(out.take(start) =~= text.take(start));
    assert(out.subrange(start, start + new_content.len()) =~= new_content);
    assert(out.skip(start + new_content.len()) =~= text.skip(end));
}

/// Rewriting a line with its own content changes nothing at all.
pub proof fn lemma_with_line_of_itself(text: Seq<char>, k: int)
    requires
        has_line(text, k),
    ensures
        with_line(text, k, line_text(text, k)) == text,
{
    lemma_line_end(text, k);
    assert(with_line(text, k, line_text(text, k)) =~= text);
}

/// A text that lacks a line lacks every later line too.
pub proof fn lemma_lines_are_consecutive(text: Seq<char>, j: int, k: int)
    requires
        0 <= j <= k,
        !has_line(text, j),
    ensures
        !has_line(text, k),
    decreases k - j,
{
    if j < k {
        lemma_line_start(text, k);
        if has_line(text, k) {
            lemma_lines_are_consecutive(text, j, k - 1);
        }
    }
}

/// Where the line that starts at `start` stops.
pub fn find_line_stop(text: &Vec<char>, start: usize) -> (stop: usize)
    ensures
        stop == line_stop(text@, start as int),
        stop <= text.len(),
        start <= text.len() ==> start <= stop,
{
    if start >= text.len() {
        return text.len();
    }
    let mut i: usize = start;
    while i < text.len() && text[i] != '\n'
        invariant
            start <= i <= text.len(),
            line_stop(text@, i as int) == line_stop(text@, start as int),
        decreases text.len() - i,
    {
        i += 1;
    }
    i
}

/// Where line `k` starts, if the text has such a line.
pub fn find_line_start(text: &Vec<char>, k: usize) -> (r: Option<usize>)
    ensures
        match r {
            Some(start) => has_line(text@, k as int) && start == line_start(text@, k as int),
            None => !has_line(text@, k as int),
        },
{
    let mut start: usize = 0;
    let mut j: usize = 0;
    while j < k
        invariant
            j <= k,
            start <= text.len(),
            start == line_start(text@, j as int),
        decreases k - j,
    {
        let stop = find_line_stop(text, start);
        if stop >= text.len() {
            proof {
                assert(!has_line(text@, j + 1));
                lemma_lines_are_consecutive(text@, j + 1, k as int);
            }
            return None;
        }
        start = stop + 1;
        j += 1;
    }
    if start < text.len() {
        Some(start)
    } else {
        None
    }
}

/// The message of the error that a line number outside the file is answered with.
pub open spec fn invalid_line_message() -> Seq<char> {
    "Invalid line number"@
}

/// The content with line `index`, counted from zero, replaced by `new_content`.
///
/// Only the content of that line changes: every other character of the
/// file, the line endings included, is kept. A file without such a line is
/// answered with an error.
pub fn replace_line(content: &str, index: usize, new_content: &str) -> (r: Result<String, Error>)
    ensures
        match r {
            Ok(out) => has_line(content@, index as int) && out@ == with_line(
                content@,
                index as int,
                new_content@,
            ),
            Err(e) => !has_line(content@, index as int) && e@ == ErrorView::Io(
                invalid_line_message(),
            ),
        },
{
    let text = to_chars(content);
    match find_line_start(&text, index) {
        None => Err(Error::Io(String::from_str("Invalid line number"))),
        Some(start) => {
            let stop = find_line_stop(&text, start);
            let end = if stop < text.len() && start < stop && text[stop - 1] == '\r' {
                stop - 1
            } else {
                stop
            };
            let fresh = to_chars(new_content);
            let mut out: Vec<char> = Vec::new();
            append_range(&mut out, &text, 0, start);
            append_chars(&mut out, &fresh);
            append_range(&mut out, &text, end, text.len());
            assert(out@ =~= with_line(content@, index as int, new_content@));
            Ok(from_chars(&out))
        },
    }
}

/// The content with line `line_number`, counted from one, replaced by
/// `new_content`. Line number zero names no line.
pub fn change_line_content(content: &str, line_number: usize, new_content: &str) -> (r: Result<
    String,
    Error,
>)
    ensures
        match r {
            Ok(out) => line_number > 0 && has_line(content@, line_number - 1) && out@
                == with_line(content@, line_number - 1, new_content@),
            Err(e) => !(line_number > 0 && has_line(content@, line_number - 1)) && e@
                == ErrorView::Io(invalid_line_message()),
        },
{
    if line_number == 0 {
        return Err(Error::Io(String::from_str("Invalid line number")));
    }
    replace_line(content, line_number - 1, new_content)
}

/// The lines of `content`, each without its line ending.
///
/// A line ends at a line feed; a carriage return directly before that line
/// feed belongs to the line ending. Text behind the last line feed is a line
/// of its own; a line feed at the very end starts no empty line.
pub fn split_lines(content: &str) -> (lines: Vec<String>)
    ensures
        lines.deep_view() == lines_of(content@),
{
    let text = to_chars(content);
    let mut lines: Vec<String> = Vec::new();
    let mut start: usize = 0;
    while start < text.len()
        invariant
            start <= text.len() + 1,
            text@ == content@,
            start == line_start(text@, lines@.len() as int),
            lines@.len() > 0 ==> has_line(text@, lines@.len() - 1),
            forall|i: int| 0 <= i < lines@.len() ==> (#[trigger] lines@[i])@ == line_text(text@, i),
        decreases text.len() + 1 - start,
    {
        let ghost k = lines@.len() as int;
        let stop = find_line_stop(&text, start);
        let end = if stop < text.len() && start < stop && text[stop - 1] == '\r' {
            stop - 1
        } else {
            stop
        };
        let mut line: Vec<char> = Vec::new();
        append_range(&mut line, &text, start, end);
        assert(line@ =~= line_text(text@, k));
        lines.push(from_chars(&line));
        assert(line_start(text@, k + 1) == stop + 1);
        if stop >= text.len() {
            proof {
                lemma_lines_collected(text@, lines.deep_view());
            }
            return lines;
        }
        start = stop + 1;
    }
    proof {
        lemma_lines_collected(text@, lines.deep_view());
    }
    lines
}

/// Lines that were taken one by one until the text had no further line are
/// the lines of the text.
proof fn lemma_lines_collected(text: Seq<char>, lines: Seq<Seq<char>>)
    requires
        line_start(text, lines.len() as int) >= text.len(),
        lines.len() > 0 ==> has_line(text, lines.len() - 1),
        forall|i: int| 0 <= i < lines.len() ==> #[trigger] lines[i] == line_text(text, i),
    ensures
        lines == lines_of(text),
{
    lemma_line_count(text, lines.len() as int);
    if lines.len() > 0 {
        lemma_line_count(text, lines.len() - 1);
    }
    assert(lines.len() == line_count(text));
    assert(lines =~= lines_of(text));
}

/// Whether `text` begins with `prefix`.
pub open spec fn starts_with(text: Seq<char>, prefix: Seq<char>) -> bool {
    prefix.len() <= text.len() && text.take(prefix.len() as int) == prefix
}

/// Whether `text` ends with `suffix`.
pub open spec fn ends_with(text: Seq<char>, suffix: Seq<char>) -> bool {
    suffix.len() <= text.len() && text.skip(text.len() - suffix.len()) == suffix
}

/// Whether the file that `path` names has the extension `extension`: the
/// path ends with a dot and the extension, and the dot is not the first
/// character of the file's name.
pub open spec fn has_extension(path: Seq<char>, extension: Seq<char>) -> bool {
    let dotted = seq!['.'] + extension;
    &&& path.len() > dotted.len()
    &&& ends_with(path, dotted)
    &&& path[path.len() - dotted.len() - 1] != '/'
}

/// Whether `path` lies within the folder `root`, or is `root` itself: the
/// components of `root` are the first components of `path`. Components are
/// separated by `/`.
pub open spec fn is_within(path: Seq<char>, root: Seq<char>) -> bool {
    ||| path == root
    ||| {
        &&& path.len() > root.len()
        &&& starts_with(path, root)
        &&& (path[root.len() as int] == '/' || (root.len() > 0 && root.last() == '/'))
    }
}

/// The extension of the source files.
pub open spec fn source_extension() -> Seq<char> {
    seq!['c', 'a', 'i', 'r', 'o']
}

/// The name of the manifest, which stands at the project root.
pub open spec fn manifest_name() -> Seq<char> {
    seq!['S', 'c', 'a', 'r', 'b', '.', 't', 'o', 'm', 'l']
}

/// The name of the lockfile.
pub open spec fn lockfile_name() -> Seq<char> {
    seq!['S', 'c', 'a', 'r', 'b', '.', 'l', 'o', 'c', 'k']
}

/// The name of the file that pins the versions of the tools.
pub open spec fn tool_versions_name() -> Seq<char> {
    seq!['.', 't', 'o', 'o', 'l', '-', 'v', 'e', 'r', 's', 'i', 'o', 'n', 's']
}

/// The folder that holds the source files, with its separator.
pub open spec fn source_folder() -> Seq<char> {
    seq!['s', 'r', 'c', '/']
}

/// The folder that holds the separate tests, with its separator.
pub open spec fn tests_folder() -> Seq<char> {
    seq!['t', 'e', 's', 't', 's', '/']
}

/// Whether a folder at the project root, given by its name, can hold files
/// that belong in a sandbox: the source folder and the tests folder can.
pub open spec fn is_sandbox_folder(name: Seq<char>) -> bool {
    name + seq!['/'] == source_folder() || name + seq!['/'] == tests_folder()
}

/// Whether a file of the project, named by its path from the project root,
/// belongs in a sandbox: the manifest, the lockfile, the file that pins the
/// tool versions, and every source file below the source folder or the tests
/// folder.
pub open spec fn belongs_in_sandbox(path: Seq<char>) -> bool {
    ||| path == manifest_name()
    ||| path == lockfile_name()
    ||| path == tool_versions_name()
    ||| {
        &&& starts_with(path, source_folder()) || starts_with(path, tests_folder())
        &&& has_extension(path, source_extension())
    }
}

/// Those of the first `n` paths that `keep` holds of, in their order.
pub open spec fn selected(
    paths: Seq<Seq<char>>,
    keep: spec_fn(Seq<char>) -> bool,
    n: int,
) -> Seq<Seq<char>>
    decreases n,
{
    if n <= 0 {
        Seq::empty()
    } else if keep(paths[n - 1]) {
        selected(paths, keep, n - 1).push(paths[n - 1])
    } else {
        selected(paths, keep, n - 1)
    }
}

/// Whether `text` begins with `prefix`.
pub fn begins_with(text: &Vec<char>, prefix: &Vec<char>) -> (r: bool)
    ensures
        r == starts_with(text@, prefix@),
{
    let r = matches_at(text, prefix, 0);
    assert(text@.take(prefix@.len() as int) =~= text@.subrange(0, prefix@.len() as int));
    r
}

/// Whether the file that `path` names has the extension `extension`.
pub fn path_has_extension(path: &str, extension: &str) -> (r: bool)
    ensures
        r == has_extension(path@, extension@),
{
    let text = to_chars(path);
    let ext = to_chars(extension);
    let mut dotted: Vec<char> = Vec::new();
    dotted.push('.');
    append_chars(&mut dotted, &ext);
    assert(dotted@ =~= seq!['.'] + extension@);
    if text.len() <= dotted.len() {
        return false;
    }
    let at: usize = text.len() - dotted.len();
    let tail = matches_at(&text, &dotted, at);
    assert(text@.skip(at as int) =~= text@.subrange(at as int, at + dotted@.len()));
    tail && text[at - 1] != '/'
}

/// Whether `path` lies within the folder `root`, or is `root` itself.
pub fn path_is_within(path: &str, root: &str) -> (r: bool)
    ensures
        r == is_within(path@, root@),
{
    let text = to_chars(path);
    let base = to_chars(root);
    if !begins_with(&text, &base) {
        assert(!(path@ == root@)) by {
            if path@ == root@ {
                assert(text@.take(base@.len() as int) =~= base@);
            }
        }
        return false;
    }
    if text.len() == base.len() {
        assert(text@.take(base@.len() as int) =~= text@);
        return true;
    }
    text[base.len()] == '/' || (base.len() > 0 && base[base.len() - 1] == '/')
}

/// Whether two texts are the same.
pub fn same_text(a: &Vec<char>, b: &Vec<char>) -> (r: bool)
    ensures
        r == (a@ == b@),
{
    if a.len() != b.len() {
        return false;
    }
    let r = matches_at(a, b, 0);
    assert(a@.subrange(0, b@.len() as int) =~= a@);
    r
}

/// Whether a file of the project, named by its path from the project root,
/// belongs in a sandbox.
pub fn path_belongs_in_sandbox(path: &str) -> (r: bool)
    ensures
        r == belongs_in_sandbox(path@),
{
    proof {
        reveal_strlit("Scarb.toml");
        reveal_strlit("Scarb.lock");
        reveal_strlit(".tool-versions");
        reveal_strlit("src/");
        reveal_strlit("tests/");
        reveal_strlit("cairo");
    }
    let text = to_chars(path);
    let manifest = to_chars("Scarb.toml");
    let lockfile = to_chars("Scarb.lock");
    let pinned = to_chars(".tool-versions");
    let sources = to_chars("src/");
    let tests = to_chars("tests/");
    assert(manifest@ =~= manifest_name());
    assert(lockfile@ =~= lockfile_name());
    assert(pinned@ =~= tool_versions_name());
    assert(sources@ =~= source_folder());
    assert(tests@ =~= tests_folder());
    assert("cairo"@ =~= source_extension());
    if same_text(&text, &manifest) || same_text(&text, &lockfile) || same_text(&text, &pinned) {
        return true;
    }
    (begins_with(&text, &sources) || begins_with(&text, &tests)) && path_has_extension(
        path,
        "cairo",
    )
}

/// Those of `paths` that name a file with the extension `file_extension`,
/// in their order.
pub fn collect_files_with_extension(paths: &Vec<String>, file_extension: &str) -> (files: Vec<
    String,
>)
    ensures
        files.deep_view() == selected(
            paths.deep_view(),
            |p: Seq<char>| has_extension(p, file_extension@),
            paths@.len() as int,
        ),
{
    let ghost keep = |p: Seq<char>| has_extension(p, file_extension@);
    let mut files: Vec<String> = Vec::new();
    let mut i: usize = 0;
    assert(files.deep_view() =~= selected(paths.deep_view(), keep, 0));
    while i < paths.len()
        invariant
            i <= paths.len(),
            keep == |p: Seq<char>| has_extension(p, file_extension@),
            files.deep_view() == selected(paths.deep_view(), keep, i as int),
        decreases paths.len() - i,
    {
        let ghost before = files.deep_view();
        assert(paths.deep_view()[i as int] == paths@[i as int]@);
        if path_has_extension(paths[i].as_str(), file_extension) {
            files.push(paths[i].clone());
            assert(files.deep_view() =~= before.push(paths@[i as int]@));
        }
        i += 1;
    }
    files
}

/// The files of a sandbox: those of `paths`, the files of the project named
/// by their paths from the project root, that belong in a sandbox. Each is
/// to be copied to the same path below the sandbox root.
///
/// A project without its manifest is answered with an error.
pub fn copy_cairo_project(paths: &Vec<String>) -> (r: Result<Vec<String>, Error>)
    ensures
        match r {
            Ok(files) => paths.deep_view().contains(manifest_name()) && files.deep_view()
                == selected(
                paths.deep_view(),
                |p: Seq<char>| belongs_in_sandbox(p),
                paths@.len() as int,
            ),
            Err(e) => !paths.deep_view().contains(manifest_name()) && e@ == ErrorView::Io(
                missing_manifest_message(),
            ),
        },
{
    proof {
        reveal_strlit("Scarb.toml");
    }
    assert("Scarb.toml"@ =~= manifest_name());
    let manifest = to_chars("Scarb.toml");
    let ghost keep = |p: Seq<char>| belongs_in_sandbox(p);
    let mut files: Vec<String> = Vec::new();
    let mut found: bool = false;
    let mut i: usize = 0;
    assert(files.deep_view() =~= selected(paths.deep_view(), keep, 0));
    while i < paths.len()
        invariant
            i <= paths.len(),
            manifest@ == manifest_name(),
            keep == |p: Seq<char>| belongs_in_sandbox(p),
            files.deep_view() == selected(paths.deep_view(), keep, i as int),
            found <==> exists|j: int| 0 <= j < i && #[trigger] paths.deep_view()[j] == manifest_name(),
        decreases paths.len() - i,
    {
        let ghost before = files.deep_view();
        assert(paths.deep_view()[i as int] == paths@[i as int]@);
        let text = to_chars(paths[i].as_str());
        if same_text(&text, &manifest) {
            found = true;
        }
        if path_belongs_in_sandbox(paths[i].as_str()) {
            files.push(paths[i].clone());
            assert(files.deep_view() =~= before.push(paths@[i as int]@));
        }
        i += 1;
    }
    if found {
        Ok(files)
    } else {
        Err(Error::Io(String::from_str("Scarb.toml file not found")))
    }
}

/// The message of the error that a project without manifest is answered with.
pub open spec fn missing_manifest_message() -> Seq<char> {
    "Scarb.toml file not found"@
}

/// Whether a folder at the project root, given by its name, can hold files
/// that belong in a sandbox.
pub fn path_is_sandbox_folder(name: &str) -> (r: bool)
    ensures
        r == is_sandbox_folder(name@),
{
    proof {
        reveal_strlit("src/");
        reveal_strlit("tests/");
    }
    let mut folder = to_chars(name);
    folder.push('/');
    let sources = to_chars("src/");
    let tests = to_chars("tests/");
    assert(folder@ =~= name@ + seq!['/']);
    assert(sources@ =~= source_folder());
    assert(tests@ =~= tests_folder());
    same_text(&folder, &sources) || same_text(&folder, &tests)
}

/// A file that belongs in a sandbox stands at the project root or below a
/// sandbox folder: a listing of the files at the root and of everything
/// below the sandbox folders misses none.
pub proof fn lemma_sandbox_files_are_within_reach(path: Seq<char>)
    requires
        belongs_in_sandbox(path),
    ensures
        (forall|i: int| 0 <= i < path.len() ==> path[i] != '/') || exists|folder: Seq<char>|
            is_sandbox_folder(folder) && #[trigger] starts_with(path, folder + seq!['/']),
{
    if path == manifest_name() || path == lockfile_name() || path == tool_versions_name() {
    } else if starts_with(path, source_folder()) {
        let folder = seq!['s', 'r', 'c'];
        assert(folder + seq!['/'] =~= source_folder());
        assert(is_sandbox_folder(folder));
    } else {
        let folder = seq!['t', 'e', 's', 't', 's'];
        assert(folder + seq!['/'] =~= tests_folder());
        assert(is_sandbox_folder(folder));
    }
}

} // verus!
