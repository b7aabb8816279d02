//! The scan that collects mutation candidates from source files.

use crate::file_manager::{
    has_line, lemma_line_count, lemma_with_line_of_itself, line_text, lines_of, split_lines,
    with_line,
};
use crate::mutant::{Mutation, MutationType, MutationView};
use crate::text::{
    contains, lemma_text_le_reflexive, lemma_text_le_total, lemma_text_le_transitive, occurs,
    precedes, text_le, to_chars,
};
use vstd::prelude::*;
use vstd::string::*;

verus! {

/// A source file as the scan sees it: its path relative to the project root,
/// and its whole text.
#[derive(Debug)]
pub struct SourceFile {
    pub name: String,
    pub content: String,
}

/// What a `SourceFile` stands for.
pub struct SourceFileView {
    pub name: Seq<char>,
    pub content: Seq<char>,
}

impl View for SourceFile {
    type V = SourceFileView;

    open spec fn view(&self) -> SourceFileView {
        SourceFileView { name: self.name@, content: self.content@ }
    }
}

impl SourceFile {
    /// The source file with this path from the project root and this text.
    pub fn new(name: String, content: String) -> (file: SourceFile)
        ensures
            file@ == (SourceFileView { name: name@, content: content@ }),
    {
        SourceFile { name, content }
    }
}

impl Clone for SourceFile {
    fn clone(&self) -> (file: SourceFile)
        ensures
            file@ == self@,
    {
        SourceFile { name: self.name.clone(), content: self.content.clone() }
    }
}

impl DeepView for SourceFile {
    type V = SourceFileView;

    open spec fn deep_view(&self) -> SourceFileView {
        self@
    }
}

/// Whether the files stand in the order of their paths.
pub open spec fn paths_ascend(files: Seq<SourceFileView>) -> bool {
    forall|i: int, j: int|
        0 <= i <= j < files.len() ==> text_le((#[trigger] files[i]).name, (#[trigger] files[j]).name)
}

/// The files of `sorted`, which stand in the order of their paths, and
/// `file` among them at its place: behind every file that it does not stand
/// before.
pub open spec fn inserted(sorted: Seq<SourceFileView>, file: SourceFileView) -> Seq<
    SourceFileView,
>
    decreases sorted.len(),
{
    if sorted.len() == 0 {
        seq![file]
    } else if text_le(sorted.last().name, file.name) {
        sorted.push(file)
    } else {
        inserted(sorted.drop_last(), file).push(sorted.last())
    }
}

/// The files in the order of their paths. Files of one path keep the order
/// in which they were given.
pub open spec fn in_path_order(files: Seq<SourceFileView>) -> Seq<SourceFileView>
    decreases files.len(),
{
    if files.len() == 0 {
        Seq::empty()
    } else {
        inserted(in_path_order(files.drop_last()), files.last())
    }
}

/// The marker that opens the test section of a source file.
pub open spec fn test_marker() -> Seq<char> {
    seq!['#', '[', 'c', 'f', 'g', '(', 't', 'e', 's', 't', ')', ']']
}

/// The index of the first line, at or behind line `from`, that holds the test
/// marker; the number of lines where no such line holds it.
pub open spec fn marker_line(lines: Seq<Seq<char>>, from: int) -> int
    decreases lines.len() - from,
{
    if from < 0 || from >= lines.len() {
        lines.len() as int
    } else if occurs(lines[from], test_marker()) {
        from
    } else {
        marker_line(lines, from + 1)
    }
}

/// The number of lines that are scanned: those before the test section.
pub open spec fn production_len(lines: Seq<Seq<char>>) -> int {
    marker_line(lines, 0)
}

/// The candidates that the first `m` operators of `ops` yield for one line,
/// operator by operator.
pub open spec fn line_candidates(
    ops: Seq<MutationType>,
    m: int,
    file_name: Seq<char>,
    line: Seq<char>,
    pos: nat,
) -> Seq<MutationView>
    decreases m,
{
    if m <= 0 {
        Seq::empty()
    } else {
        line_candidates(ops, m - 1, file_name, line, pos) + ops[m - 1].candidates(
            file_name,
            line,
            pos,
        )
    }
}

/// The candidates that `ops` yield for the first `n` of `lines`, line by line.
pub open spec fn lines_candidates(
    ops: Seq<MutationType>,
    file_name: Seq<char>,
    lines: Seq<Seq<char>>,
    n: int,
) -> Seq<MutationView>
    decreases n,
{
    if n <= 0 {
        Seq::empty()
    } else {
        lines_candidates(ops, file_name, lines, n - 1) + line_candidates(
            ops,
            ops.len() as int,
            file_name,
            lines[n - 1],
            (n - 1) as nat,
        )
    }
}

/// The candidates of one file: those of its lines before the test section.
pub open spec fn file_candidates(ops: Seq<MutationType>, file: SourceFileView) -> Seq<
    MutationView,
> {
    let lines = lines_of(file.content);
    lines_candidates(ops, file.name, lines, production_len(lines))
}

/// The candidates of the first `f` of `files`, file by file.
pub open spec fn all_candidates(
    ops: Seq<MutationType>,
    files: Seq<SourceFileView>,
    f: int,
) -> Seq<MutationView>
    decreases f,
{
    if f <= 0 {
        Seq::empty()
    } else {
        all_candidates(ops, files, f - 1) + file_candidates(ops, files[f - 1])
    }
}

/// Whether the candidate names a line of one of the files that stands before
/// that file's test section, with the text of that line.
pub open spec fn from_production_code(files: Seq<SourceFileView>, c: MutationView) -> bool {
    exists|g: int|
        0 <= g < files.len() && {
            let lines = lines_of((#[trigger] files[g]).content);
            &&& c.file_name == files[g].name
            &&& c.pos < production_len(lines) <= lines.len()
            &&& c.line == lines[c.pos as int]
        }
}

/// Whether no two of the files share a path and differ in their text: a
/// path then names one text.
pub open spec fn a_path_names_one_text(files: Seq<SourceFileView>) -> bool {
    forall|g: int, h: int|
        0 <= g < files.len() && 0 <= h < files.len() && (#[trigger] files[g]).name
            == (#[trigger] files[h]).name ==> files[g].content == files[h].content
}

/// Whether the candidate names a line of `file` that stands before the
/// file's test section: neither that line nor any line before it holds the
/// test marker, and the candidate holds the text of the line.
pub open spec fn before_test_section(file: SourceFileView, c: MutationView) -> bool {
    let lines = lines_of(file.content);
    &&& c.pos < production_len(lines) <= lines.len()
    &&& c.line == lines[c.pos as int]
    &&& forall|k: int| 0 <= k <= c.pos ==> !occurs(#[trigger] lines[k], test_marker())
}

/// The views of two lists of candidates, one behind the other, are the views
/// of the joined list.
pub proof fn lemma_views_of_joined(a: Vec<Mutation>, b: Vec<Mutation>, joined: Vec<Mutation>)
    requires
        joined@ == a@ + b@,
    ensures
        joined.deep_view() == a.deep_view() + b.deep_view(),
{
    assert(joined.deep_view() =~= a.deep_view() + b.deep_view());
}

/// Whether the line opens the test section of its file.
pub fn is_test_marker(line: &str) -> (r: bool)
    ensures
        r == occurs(line@, test_marker()),
{
    proof {
        reveal_strlit("#[cfg(test)]");
    }
    assert("#[cfg(test)]"@ =~= test_marker());
    contains(line, "#[cfg(test)]")
}

/// Appends to `out` the candidates that `ops` yield for one line.
pub fn scan_line(
    ops: &Vec<MutationType>,
    file_name: &String,
    line: &String,
    pos: usize,
    out: &mut Vec<Mutation>,
)
    ensures
        final(out).deep_view() == old(out).deep_view() + line_candidates(
            ops@,
            ops@.len() as int,
            file_name@,
            line@,
            pos as nat,
        ),
{
    let mut m: usize = 0;
    assert(out.deep_view() =~= old(out).deep_view() + line_candidates(
        ops@,
        0,
        file_name@,
        line@,
        pos as nat,
    ));
    while m < ops.len()
        invariant
            m <= ops.len(),
            out.deep_view() == old(out).deep_view() + line_candidates(
                ops@,
                m as int,
                file_name@,
                line@,
                pos as nat,
            ),
        decreases ops.len() - m,
    {
        let ghost before = *out;
        let mut found = ops[m].others(file_name.clone(), line.clone(), pos);
        let ghost added = found;
        out.append(&mut found);
        proof {
            lemma_views_of_joined(before, added, *out);
            assert(out.deep_view() =~= old(out).deep_view() + line_candidates(
                ops@,
                m + 1,
                file_name@,
                line@,
                pos as nat,
            ));
        }
        m += 1;
    }
}

/// Appends to `out` the candidates of one file.
///
/// The lines are scanned in order, each with every operator in the order of
/// `ops`. The scan of the file ends at the first line that holds the test
/// marker: that line and every line behind it yield nothing.
pub fn collect_file(ops: &Vec<MutationType>, file: &SourceFile, out: &mut Vec<Mutation>)
    ensures
        final(out).deep_view() == old(out).deep_view() + file_candidates(ops@, file@),
{
    let lines = split_lines(file.content.as_str());
    let ghost texts = lines_of(file.content@);
    let mut pos: usize = 0;
    assert(out.deep_view() =~= old(out).deep_view() + lines_candidates(
        ops@,
        file.name@,
        texts,
        0,
    ));
    while pos < lines.len()
        invariant
            pos <= lines.len(),
            lines.deep_view() == texts,
            marker_line(texts, pos as int) == production_len(texts),
            out.deep_view() == old(out).deep_view() + lines_candidates(
                ops@,
                file.name@,
                texts,
                pos as int,
            ),
        ensures
            pos == production_len(texts),
            out.deep_view() == old(out).deep_view() + lines_candidates(
                ops@,
                file.name@,
                texts,
                pos as int,
            ),
        decreases lines.len() - pos,
    {
        assert(lines[pos as int]@ == texts[pos as int]);
        if is_test_marker(lines[pos].as_str()) {
            break ;
        }
        let ghost before = out.deep_view();
        scan_line(ops, &file.name, &lines[pos], pos, out);
        proof {
            assert(out.deep_view() =~= old(out).deep_view() + lines_candidates(
                ops@,
                file.name@,
                texts,
                pos + 1,
            ));
        }
        pos += 1;
    }
}

/// The candidates of `files`, taken in the order in which the files are given.
pub fn collect_in_order(files: &Vec<SourceFile>, mutations_to_check: &Vec<MutationType>) -> (r:
    Vec<Mutation>)
    ensures
        r.deep_view() == all_candidates(
            mutations_to_check@,
            files.deep_view(),
            files@.len() as int,
        ),
{
    let mut r: Vec<Mutation> = Vec::new();
    let mut f: usize = 0;
    assert(r.deep_view() =~= all_candidates(mutations_to_check@, files.deep_view(), 0));
    while f < files.len()
        invariant
            f <= files.len(),
            r.deep_view() == all_candidates(mutations_to_check@, files.deep_view(), f as int),
        decreases files.len() - f,
    {
        assert(files.deep_view()[f as int] == files@[f as int]@);
        collect_file(mutations_to_check, &files[f], &mut r);
        f += 1;
    }
    r
}

/// The candidates of `files`, for the operators `mutations_to_check`.
///
/// Candidates come file by file in the order of the files' paths, within a
/// file line by line, and within a line operator by operator in the order
/// of `mutations_to_check`. Nothing is taken from the test section of a file.
pub fn collect_mutations(files: &Vec<SourceFile>, mutations_to_check: &Vec<MutationType>) -> (r:
    Vec<Mutation>)
    ensures
        r.deep_view() == all_candidates(
            mutations_to_check@,
            in_path_order(files.deep_view()),
            files@.len() as int,
        ),
        forall|i: int|
            0 <= i < r@.len() ==> from_production_code(files.deep_view(), (#[trigger] r@[i])@),
        a_path_names_one_text(files.deep_view()) ==> forall|i: int, g: int|
            0 <= i < r@.len() && 0 <= g < files@.len() && (#[trigger] r@[i])@.file_name
                == (#[trigger] files@[g])@.name ==> before_test_section(files@[g]@, r@[i]@),
        forall|i: int, j: int|
            0 <= i <= j < r@.len() ==> text_le(
                (#[trigger] r@[i])@.file_name,
                (#[trigger] r@[j])@.file_name,
            ),
{
    let sorted = sort_files(files);
    let r = collect_in_order(&sorted, mutations_to_check);
    proof {
        broadcast use vstd::seq_lib::group_to_multiset_ensures;

        let given = files.deep_view();
        let ordered = sorted.deep_view();
        lemma_in_path_order(given);
        assert forall|i: int| 0 <= i < r@.len() implies from_production_code(
            given,
            (#[trigger] r@[i])@,
        ) by {
            assert(r.deep_view()[i] == r@[i]@);
            lemma_candidate_origin(mutations_to_check@, ordered, ordered.len() as int, i);
            let c = r@[i]@;
            let g = choose|g: int|
                0 <= g < ordered.len() && {
                    let lines = lines_of((#[trigger] ordered[g]).content);
                    &&& c.file_name == ordered[g].name
                    &&& c.pos < production_len(lines) <= lines.len()
                    &&& c.line == lines[c.pos as int]
                };
            assert(ordered.to_multiset().count(ordered[g]) > 0);
            assert(given.contains(ordered[g]));
            let h = choose|h: int| 0 <= h < given.len() && given[h] == ordered[g];
            assert(given[h].name == c.file_name);
        }
        if a_path_names_one_text(given) {
            assert forall|i: int, g: int|
                0 <= i < r@.len() && 0 <= g < files@.len() && (#[trigger] r@[i])@.file_name
                    == (#[trigger] files@[g])@.name implies before_test_section(
                files@[g]@,
                r@[i]@,
            ) by {
                assert(given[g] == files@[g]@);
                lemma_named_file_is_the_origin(given, g, r@[i]@);
            }
        }
        assert forall|i: int, j: int| 0 <= i <= j < r@.len() implies text_le(
            (#[trigger] r@[i])@.file_name,
            (#[trigger] r@[j])@.file_name,
        ) by {
            assert(r.deep_view()[i] == r@[i]@);
            assert(r.deep_view()[j] == r@[j]@);
            lemma_candidates_in_path_order(
                mutations_to_check@,
                ordered,
                ordered.len() as int,
                i,
                j,
            );
        }
    }
    r
}

/// The scan stops at the first line that holds the test marker, or at the
/// end of the file, and no line before that holds the marker.
pub proof fn lemma_marker_line(lines: Seq<Seq<char>>, from: int)
    requires
        0 <= from <= lines.len(),
    ensures
        from <= marker_line(lines, from) <= lines.len(),
        marker_line(lines, from) < lines.len() ==> occurs(
            lines[marker_line(lines, from)],
            test_marker(),
        ),
        forall|k: int| from <= k < marker_line(lines, from) ==> !occurs(#[trigger] lines[k], test_marker()),
    decreases lines.len() - from,
{
    if from < lines.len() && !occurs(lines[from], test_marker()) {
        lemma_marker_line(lines, from + 1);
    }
}

/// Every candidate of a line names that line, its position and its file, and
/// an operator of the catalog for which the line holds a site.
pub proof fn lemma_line_candidates_origin(
    ops: Seq<MutationType>,
    m: int,
    file_name: Seq<char>,
    line: Seq<char>,
    pos: nat,
    i: int,
)
    requires
        0 <= m <= ops.len(),
        0 <= i < line_candidates(ops, m, file_name, line, pos).len(),
    ensures
        ({
            let c = line_candidates(ops, m, file_name, line, pos)[i];
            &&& c.file_name == file_name
            &&& c.line == line
            &&& c.pos == pos
            &&& exists|o: int| 0 <= o < m && #[trigger] ops[o] == c.from && c.from.matched(line)
        }),
    decreases m,
{
    if m > 0 {
        let before = line_candidates(ops, m - 1, file_name, line, pos);
        if i < before.len() {
            lemma_line_candidates_origin(ops, m - 1, file_name, line, pos, i);
            let c = before[i];
            let o = choose|o: int| 0 <= o < m - 1 && #[trigger] ops[o] == c.from && c.from.matched(line);
            assert(0 <= o < m && ops[o] == c.from);
        } else {
            let c = ops[m - 1].candidates(file_name, line, pos)[i - before.len()];
            assert(ops[m - 1] == c.from);
        }
    }
}

/// Every candidate of the first `n` lines names one of those lines, with its
/// text, and the file.
pub proof fn lemma_lines_candidates_origin(
    ops: Seq<MutationType>,
    file_name: Seq<char>,
    lines: Seq<Seq<char>>,
    n: int,
    i: int,
)
    requires
        0 <= n <= lines.len(),
        0 <= i < lines_candidates(ops, file_name, lines, n).len(),
    ensures
        ({
            let c = lines_candidates(ops, file_name, lines, n)[i];
            &&& c.file_name == file_name
            &&& c.pos < n
            &&& c.line == lines[c.pos as int]
            &&& exists|o: int| 0 <= o < ops.len() && #[trigger] ops[o] == c.from && c.from.matched(c.line)
        }),
    decreases n,
{
    if n > 0 {
        let before = lines_candidates(ops, file_name, lines, n - 1);
        if i < before.len() {
            lemma_lines_candidates_origin(ops, file_name, lines, n - 1, i);
        } else {
            lemma_line_candidates_origin(
                ops,
                ops.len() as int,
                file_name,
                lines[n - 1],
                (n - 1) as nat,
                i - before.len(),
            );
        }
    }
}

/// No candidate comes from the test section: every candidate of a file names
/// a line before the first line that holds the test marker, so neither its
/// line nor any line before it holds the marker.
pub proof fn lemma_test_section_yields_nothing(
    ops: Seq<MutationType>,
    file: SourceFileView,
    i: int,
)
    requires
        0 <= i < file_candidates(ops, file).len(),
    ensures
        ({
            let c = file_candidates(ops, file)[i];
            let lines = lines_of(file.content);
            &&& c.file_name == file.name
            &&& c.pos < production_len(lines) <= lines.len()
            &&& c.line == lines[c.pos as int]
            &&& forall|k: int| 0 <= k <= c.pos ==> !occurs(#[trigger] lines[k], test_marker())
        }),
{
    let lines = lines_of(file.content);
    lemma_marker_line(lines, 0);
    lemma_lines_candidates_origin(ops, file.name, lines, production_len(lines), i);
}

/// Within a file candidates stand in the order of their lines.
pub proof fn lemma_candidates_in_line_order(
    ops: Seq<MutationType>,
    file_name: Seq<char>,
    lines: Seq<Seq<char>>,
    n: int,
    i: int,
    j: int,
)
    requires
        0 <= n <= lines.len(),
        0 <= i <= j < lines_candidates(ops, file_name, lines, n).len(),
    ensures
        lines_candidates(ops, file_name, lines, n)[i].pos <= lines_candidates(
            ops,
            file_name,
            lines,
            n,
        )[j].pos,
    decreases n,
{
    if n > 0 {
        let before = lines_candidates(ops, file_name, lines, n - 1);
        if j < before.len() {
            lemma_candidates_in_line_order(ops, file_name, lines, n - 1, i, j);
        } else {
            lemma_line_candidates_origin(
                ops,
                ops.len() as int,
                file_name,
                lines[n - 1],
                (n - 1) as nat,
                j - before.len(),
            );
            if i < before.len() {
                lemma_lines_candidates_origin(ops, file_name, lines, n - 1, i);
            } else {
                lemma_line_candidates_origin(
                    ops,
                    ops.len() as int,
                    file_name,
                    lines[n - 1],
                    (n - 1) as nat,
                    i - before.len(),
                );
            }
        }
    }
}

/// Every candidate of a run comes from one of the files: it names the file,
/// a line before the file's test section, and that line's text.
pub proof fn lemma_candidate_origin(
    ops: Seq<MutationType>,
    files: Seq<SourceFileView>,
    f: int,
    i: int,
)
    requires
        0 <= f <= files.len(),
        0 <= i < all_candidates(ops, files, f).len(),
    ensures
        exists|g: int|
            0 <= g < f && {
                let c = all_candidates(ops, files, f)[i];
                let lines = lines_of((#[trigger] files[g]).content);
                &&& c.file_name == files[g].name
                &&& c.pos < production_len(lines) <= lines.len()
                &&& c.line == lines[c.pos as int]
            },
    decreases f,
{
    if f > 0 {
        let before = all_candidates(ops, files, f - 1);
        let c = all_candidates(ops, files, f)[i];
        if i < before.len() {
            lemma_candidate_origin(ops, files, f - 1, i);
            let g = choose|g: int|
                0 <= g < f - 1 && {
                    let lines = lines_of((#[trigger] files[g]).content);
                    &&& c.file_name == files[g].name
                    &&& c.pos < production_len(lines) <= lines.len()
                    &&& c.line == lines[c.pos as int]
                };
            assert(0 <= g < f && c.file_name == files[g].name);
        } else {
            lemma_test_section_yields_nothing(ops, files[f - 1], i - before.len());
            assert(c.file_name == files[f - 1].name);
        }
    }
}

/// Inserting a file at its place adds that file and nothing else, and
/// keeps the order of the paths.
pub proof fn lemma_inserted(sorted: Seq<SourceFileView>, file: SourceFileView)
    requires
        paths_ascend(sorted),
    ensures
        paths_ascend(inserted(sorted, file)),
        inserted(sorted, file).len() == sorted.len() + 1,
        inserted(sorted, file).to_multiset() == sorted.to_multiset().insert(file),
    decreases sorted.len(),
{
    broadcast use vstd::seq_lib::group_to_multiset_ensures;

    let out = inserted(sorted, file);
    if sorted.len() == 0 {
        assert(sorted =~= Seq::empty());
        assert(out =~= sorted.push(file));
        lemma_text_le_reflexive(file.name);
    } else if text_le(sorted.last().name, file.name) {
        assert forall|i: int, j: int| 0 <= i <= j < out.len() implies text_le(
            (#[trigger] out[i]).name,
            (#[trigger] out[j]).name,
        ) by {
            if j < sorted.len() {
                assert(out[i] == sorted[i] && out[j] == sorted[j]);
            } else if i < sorted.len() {
                assert(out[i] == sorted[i]);
                assert(text_le(sorted[i].name, sorted[sorted.len() - 1].name));
                lemma_text_le_transitive(sorted[i].name, sorted.last().name, file.name);
            } else {
                lemma_text_le_reflexive(file.name);
            }
        }
    } else {
        let front = sorted.drop_last();
        let last = sorted.last();
        assert(paths_ascend(front)) by {
            assert forall|i: int, j: int| 0 <= i <= j < front.len() implies text_le(
                (#[trigger] front[i]).name,
                (#[trigger] front[j]).name,
            ) by {
                assert(front[i] == sorted[i] && front[j] == sorted[j]);
            }
        }
        lemma_inserted(front, file);
        let mid = inserted(front, file);
        lemma_text_le_total(last.name, file.name);
        assert forall|k: int| 0 <= k < mid.len() implies text_le((#[trigger] mid[k]).name, last.name) by {
            assert(mid.to_multiset().count(mid[k]) > 0);
            if mid[k] == file {
            } else {
                assert(front.to_multiset().count(mid[k]) > 0);
                assert(front.contains(mid[k]));
                let at = choose|at: int| 0 <= at < front.len() && front[at] == mid[k];
                assert(sorted[at] == mid[k]);
                assert(text_le(sorted[at].name, sorted[sorted.len() - 1].name));
            }
        }
        assert forall|i: int, j: int| 0 <= i <= j < out.len() implies text_le(
            (#[trigger] out[i]).name,
            (#[trigger] out[j]).name,
        ) by {
            if j < mid.len() {
                assert(out[i] == mid[i] && out[j] == mid[j]);
            } else if i < mid.len() {
                assert(out[i] == mid[i]);
            } else {
                lemma_text_le_reflexive(last.name);
            }
        }
        assert(sorted =~= front.push(last));
        assert(out.to_multiset() =~= sorted.to_multiset().insert(file));
    }
}

/// Putting files in the order of their paths orders them and neither adds
/// nor loses a file.
pub proof fn lemma_in_path_order(files: Seq<SourceFileView>)
    ensures
        paths_ascend(in_path_order(files)),
        in_path_order(files).len() == files.len(),
        in_path_order(files).to_multiset() == files.to_multiset(),
    decreases files.len(),
{
    broadcast use vstd::seq_lib::group_to_multiset_ensures;

    if files.len() == 0 {
        assert(files =~= Seq::empty());
    } else {
        lemma_in_path_order(files.drop_last());
        lemma_inserted(in_path_order(files.drop_last()), files.last());
        assert(files =~= files.drop_last().push(files.last()));
    }
}

/// The place of a file among files in the order of their paths is behind
/// the last file that it does not stand before.
pub proof fn lemma_inserted_at(sorted: Seq<SourceFileView>, file: SourceFileView, k: int)
    requires
        0 <= k <= sorted.len(),
        forall|j: int| k <= j < sorted.len() ==> !text_le((#[trigger] sorted[j]).name, file.name),
        k > 0 ==> text_le(sorted[k - 1].name, file.name),
    ensures
        inserted(sorted, file) == sorted.insert(k, file),
    decreases sorted.len() - k,
{
    if sorted.len() == 0 {
        assert(sorted.insert(0, file) =~= seq![file]);
    } else if k == sorted.len() {
        assert(sorted.insert(k, file) =~= sorted.push(file));
    } else {
        assert(!text_le(sorted[sorted.len() - 1].name, file.name));
        let front = sorted.drop_last();
        assert forall|j: int| k <= j < front.len() implies !text_le(
            (#[trigger] front[j]).name,
            file.name,
        ) by {
            assert(front[j] == sorted[j]);
        }
        if k > 0 {
            assert(front[k - 1] == sorted[k - 1]);
        }
        lemma_inserted_at(front, file, k);
        assert(front.insert(k, file).push(sorted.last()) =~= sorted.insert(k, file));
    }
}

/// The files in the order of their paths. Files of one path keep the order
/// in which they were given.
pub fn sort_files(files: &Vec<SourceFile>) -> (sorted: Vec<SourceFile>)
    ensures
        sorted.deep_view() == in_path_order(files.deep_view()),
        paths_ascend(sorted.deep_view()),
        sorted.deep_view().to_multiset() == files.deep_view().to_multiset(),
{
    let mut sorted: Vec<SourceFile> = Vec::new();
    let mut i: usize = 0;
    assert(sorted.deep_view() =~= in_path_order(files.deep_view().take(0)));
    while i < files.len()
        invariant
            i <= files.len(),
            sorted@.len() == i,
            sorted.deep_view() == in_path_order(files.deep_view().take(i as int)),
        decreases files.len() - i,
    {
        let name = to_chars(files[i].name.as_str());
        let ghost before = sorted.deep_view();
        let mut k: usize = sorted.len();
        let mut placed: bool = false;
        while k > 0 && !placed
            invariant
                k <= sorted.len(),
                before == sorted.deep_view(),
                name@ == files@[i as int]@.name,
                placed ==> k > 0 && text_le(before[k - 1].name, name@),
                forall|j: int| k <= j < before.len() ==> !text_le((#[trigger] before[j]).name, name@),
            decreases k, (if placed { 0int } else { 1int }),
        {
            let other = to_chars(sorted[k - 1].name.as_str());
            assert(before[k - 1] == sorted@[k - 1]@);
            if precedes(&other, &name) {
                placed = true;
            } else {
                k -= 1;
            }
        }
        proof {
            lemma_inserted_at(before, files@[i as int]@, k as int);
            let given = files.deep_view().take(i + 1);
            assert(given.drop_last() =~= files.deep_view().take(i as int));
            assert(given.last() == files@[i as int]@);
        }
        sorted.insert(k, files[i].clone());
        assert(sorted.deep_view() =~= before.insert(k as int, files@[i as int]@));
        i += 1;
    }
    proof {
        assert(files.deep_view().take(files@.len() as int) =~= files.deep_view());
        lemma_in_path_order(files.deep_view());
    }
    sorted
}

/// Where the files stand in the order of their paths, so do the candidates.
pub proof fn lemma_candidates_in_path_order(
    ops: Seq<MutationType>,
    files: Seq<SourceFileView>,
    f: int,
    i: int,
    j: int,
)
    requires
        paths_ascend(files),
        0 <= f <= files.len(),
        0 <= i <= j < all_candidates(ops, files, f).len(),
    ensures
        text_le(all_candidates(ops, files, f)[i].file_name, all_candidates(ops, files, f)[j].file_name),
    decreases f,
{
    if f > 0 {
        let before = all_candidates(ops, files, f - 1);
        let last = files[f - 1];
        if j < before.len() {
            lemma_candidates_in_path_order(ops, files, f - 1, i, j);
        } else {
            lemma_test_section_yields_nothing(ops, last, j - before.len());
            if i < before.len() {
                lemma_candidate_origin(ops, files, f - 1, i);
                let c = before[i];
                let g = choose|g: int|
                    0 <= g < f - 1 && {
                        let lines = lines_of((#[trigger] files[g]).content);
                        &&& c.file_name == files[g].name
                        &&& c.pos < production_len(lines) <= lines.len()
                        &&& c.line == lines[c.pos as int]
                    };
                assert(text_le(files[g].name, files[f - 1].name));
            } else {
                lemma_test_section_yields_nothing(ops, last, i - before.len());
                lemma_text_le_reflexive(last.name);
            }
        }
    }
}

/// Every candidate of a file can be applied to that file: the file has the
/// line that the candidate names, that line holds the text that the
/// candidate was made from, and the mutant's text is the file's text with
/// the content of that one line replaced.
pub proof fn lemma_candidate_fits_its_file(
    ops: Seq<MutationType>,
    file: SourceFileView,
    i: int,
)
    requires
        0 <= i < file_candidates(ops, file).len(),
    ensures
        ({
            let c = file_candidates(ops, file)[i];
            &&& has_line(file.content, c.pos as int)
            &&& line_text(file.content, c.pos as int) == c.line
            &&& with_line(file.content, c.pos as int, c.line) == file.content
        }),
{
    let c = file_candidates(ops, file)[i];
    lemma_test_section_yields_nothing(ops, file, i);
    lemma_line_count(file.content, c.pos as int);
    lemma_with_line_of_itself(file.content, c.pos as int);
}

/// Where a path names one text, a candidate that comes from production
/// code comes from the production code of every file of its path: it names
/// a line before that file's test section.
pub proof fn lemma_named_file_is_the_origin(files: Seq<SourceFileView>, g: int, c: MutationView)
    requires
        a_path_names_one_text(files),
        from_production_code(files, c),
        0 <= g < files.len(),
        c.file_name == files[g].name,
    ensures
        before_test_section(files[g], c),
{
    let h = choose|h: int|
        0 <= h < files.len() && {
            let lines = lines_of((#[trigger] files[h]).content);
            &&& c.file_name == files[h].name
            &&& c.pos < production_len(lines) <= lines.len()
            &&& c.line == lines[c.pos as int]
        };
    assert(files[g].name == files[h].name);
    assert(files[g].content == files[h].content);
    lemma_marker_line(lines_of(files[g].content), 0);
}

/// No candidate of a file comes from its test section, whatever the
/// operators: where a path names one text, every candidate that names the
/// path of a file names a line before the first line of that file that
/// holds the test marker.
pub proof fn lemma_no_candidate_behind_the_marker(
    ops: Seq<MutationType>,
    files: Seq<SourceFileView>,
    i: int,
    g: int,
)
    requires
        a_path_names_one_text(files),
        0 <= i < all_candidates(ops, files, files.len() as int).len(),
        0 <= g < files.len(),
        all_candidates(ops, files, files.len() as int)[i].file_name == files[g].name,
    ensures
        before_test_section(files[g], all_candidates(ops, files, files.len() as int)[i]),
{
    lemma_candidate_origin(ops, files, files.len() as int, i);
    let c = all_candidates(ops, files, files.len() as int)[i];
    let h = choose|h: int|
        0 <= h < files.len() && {
            let lines = lines_of((#[trigger] files[h]).content);
            &&& c.file_name == files[h].name
            &&& c.pos < production_len(lines) <= lines.len()
            &&& c.line == lines[c.pos as int]
        };
    assert(from_production_code(files, c));
    lemma_named_file_is_the_origin(files, g, c);
}

} // verus!
