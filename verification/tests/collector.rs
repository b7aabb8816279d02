use cairo_mutants::collector::{
    collect_file, collect_in_order, collect_mutations, is_test_marker, scan_line, sort_files,
    SourceFile,
};
use cairo_mutants::mutant::{Mutation, MutationType};
use cairo_mutants::runner::catalog;

fn file(name: &str, content: &str) -> SourceFile {
    SourceFile::new(name.to_string(), content.to_string())
}

fn keys(found: &Vec<Mutation>) -> Vec<(String, usize, MutationType, MutationType)> {
    found.iter().map(|m| (m.file_name().clone(), m.pos(), m.from(), m.to())).collect()
}

fn key(name: &str, pos: usize, from: MutationType, to: MutationType) -> (String, usize, MutationType, MutationType) {
    (name.to_string(), pos, from, to)
}

#[test]
fn candidates_come_by_file_then_line_then_operator() {
    let files = vec![
        file("src/b.cairo", "fn f() {\n    if a >= b && c == d {\n    }\n}\n"),
        file("src/a.cairo", "a != b\nx\nassert(a.is_zero());\n"),
    ];
    let found = collect_mutations(&files, &catalog());
    assert_eq!(
        keys(&found),
        vec![
            key("src/a.cairo", 0, MutationType::NotEqual, MutationType::Equal),
            key("src/a.cairo", 2, MutationType::Assert, MutationType::AssertNot),
            key("src/a.cairo", 2, MutationType::IsZero, MutationType::IsNonZero),
            key("src/b.cairo", 1, MutationType::Equal, MutationType::NotEqual),
            key("src/b.cairo", 1, MutationType::GreaterThanOrEqual, MutationType::Equal),
            key("src/b.cairo", 1, MutationType::GreaterThanOrEqual, MutationType::GreaterThan),
            key("src/b.cairo", 1, MutationType::And, MutationType::Or),
        ]
    );
    assert_eq!(found[2].line(), "assert(a.is_zero());");
    assert_eq!(found[3].line(), "    if a >= b && c == d {");
}

#[test]
fn the_order_in_which_the_files_are_given_does_not_matter() {
    let a = || file("src/a.cairo", "a == b\n");
    let b = || file("src/b/x.cairo", "c != d\n");
    let c = || file("src/b.cairo", "e <= f\n");
    let expected = keys(&collect_mutations(&vec![a(), b(), c()], &catalog()));
    for files in [vec![a(), c(), b()], vec![b(), a(), c()], vec![c(), b(), a()], vec![b(), c(), a()]] {
        assert_eq!(keys(&collect_mutations(&files, &catalog())), expected);
    }
    let names: Vec<String> = expected.iter().map(|k| k.0.clone()).collect();
    assert_eq!(names, vec!["src/a.cairo", "src/b.cairo", "src/b.cairo", "src/b/x.cairo"]);
}

#[test]
fn collect_in_order_keeps_the_order_given() {
    let files = vec![file("src/b.cairo", "a == b"), file("src/a.cairo", "c != d")];
    assert_eq!(
        keys(&collect_in_order(&files, &catalog())),
        vec![
            key("src/b.cairo", 0, MutationType::Equal, MutationType::NotEqual),
            key("src/a.cairo", 0, MutationType::NotEqual, MutationType::Equal),
        ]
    );
}

#[test]
fn sort_files_orders_by_path() {
    let files = vec![
        file("src/z.cairo", "1"),
        file("src/a.cairo", "2"),
        file("src/m/b.cairo", "3"),
        file("src/a.cairo", "4"),
        file("src/Z.cairo", "5"),
        file("src/a", "6"),
        file("", "7"),
    ];
    let sorted: Vec<(String, String)> =
        sort_files(&files).iter().map(|f| (f.name.clone(), f.content.clone())).collect();
    let mut expected: Vec<(String, String)> =
        files.iter().map(|f| (f.name.clone(), f.content.clone())).collect();
    expected.sort_by(|x, y| x.0.cmp(&y.0));
    assert_eq!(sorted, expected);
    assert_eq!(sorted[0].1, "7");
    assert_eq!(sorted[1].0, "src/Z.cairo");
    assert_eq!(sorted[3].1, "2");
    assert_eq!(sorted[4].1, "4");
    assert!(sort_files(&vec![]).is_empty());
}

#[test]
fn the_order_of_the_operators_is_the_order_given() {
    let files = vec![file("f", "a == b != c")];
    let forward = collect_mutations(&files, &vec![MutationType::Equal, MutationType::NotEqual]);
    let backward = collect_mutations(&files, &vec![MutationType::NotEqual, MutationType::Equal]);
    assert_eq!(
        keys(&forward),
        vec![
            key("f", 0, MutationType::Equal, MutationType::NotEqual),
            key("f", 0, MutationType::NotEqual, MutationType::Equal)
        ]
    );
    assert_eq!(
        keys(&backward),
        vec![
            key("f", 0, MutationType::NotEqual, MutationType::Equal),
            key("f", 0, MutationType::Equal, MutationType::NotEqual)
        ]
    );
}

#[test]
fn the_scan_stops_at_the_test_section() {
    let content = "fn f(a: u8) -> bool {\n    a == 1\n}\n\n#[cfg(test)]\nmod tests {\n    assert(f(1) == true);\n    assert(a != b);\n}\n";
    let found = collect_mutations(&vec![file("src/lib.cairo", content)], &catalog());
    assert_eq!(keys(&found), vec![key("src/lib.cairo", 1, MutationType::Equal, MutationType::NotEqual)]);
}

#[test]
fn a_line_that_stands_only_in_the_test_section_yields_nothing() {
    let content = "fn f() {}\n#[cfg(test)]\nmod tests {\n    if x > 0 && y <= 1 { assert(x == y); }\n}\n";
    for op in catalog() {
        assert!(collect_mutations(&vec![file("src/lib.cairo", content)], &vec![op]).is_empty());
    }
}

#[test]
fn the_line_of_the_marker_itself_is_not_scanned() {
    let content = "a == b\nc == d #[cfg(test)]\ne == f\n";
    let found = collect_mutations(&vec![file("f", content)], &catalog());
    assert_eq!(keys(&found), vec![key("f", 0, MutationType::Equal, MutationType::NotEqual)]);
}

#[test]
fn the_marker_of_one_file_does_not_end_the_scan_of_the_next() {
    let files = vec![file("one", "#[cfg(test)]\na == b\n"), file("two", "c != d\n")];
    let found = collect_mutations(&files, &catalog());
    assert_eq!(keys(&found), vec![key("two", 0, MutationType::NotEqual, MutationType::Equal)]);
}

#[test]
fn nothing_to_scan_gives_nothing() {
    assert!(collect_mutations(&vec![], &catalog()).is_empty());
    assert!(collect_mutations(&vec![file("f", "")], &catalog()).is_empty());
    assert!(collect_mutations(&vec![file("f", "a == b")], &vec![]).is_empty());
}

#[test]
fn collecting_twice_gives_the_same_candidates() {
    let files = vec![
        file("src/lib.cairo", "if a > b {\n    x.is_non_zero() || y < z\n}\n"),
        file("src/other.cairo", "assert(a <= b);\r\n// a == b\r\n"),
    ];
    let first = collect_mutations(&files, &catalog());
    let second = collect_mutations(&files, &catalog());
    assert_eq!(keys(&first), keys(&second));
    assert_eq!(first.len(), 9);
}

#[test]
fn scan_line_and_collect_file_append() {
    let ops = vec![MutationType::LessThan];
    let mut out = vec![Mutation::new(
        MutationType::Equal,
        MutationType::NotEqual,
        "kept".to_string(),
        "a == b".to_string(),
        0,
    )];
    scan_line(&ops, &"f".to_string(), &"a < b".to_string(), 5, &mut out);
    assert_eq!(
        keys(&out),
        vec![
            key("kept", 0, MutationType::Equal, MutationType::NotEqual),
            key("f", 5, MutationType::LessThan, MutationType::LessThanOrEqual),
            key("f", 5, MutationType::LessThan, MutationType::GreaterThan),
        ]
    );
    collect_file(&ops, &file("g", "x\ny < z"), &mut out);
    assert_eq!(out.len(), 5);
    assert_eq!(out[4].file_name(), "g");
    assert_eq!(out[4].pos(), 1);
}

#[test]
fn the_marker_is_found_anywhere_on_its_line() {
    assert!(is_test_marker("#[cfg(test)]"));
    assert!(is_test_marker("    #[cfg(test)] mod tests {"));
    assert!(!is_test_marker("#[cfg(feature = \"x\")]"));
    assert!(!is_test_marker("#[cfg(test)"));
}

#[test]
fn no_candidate_of_a_file_comes_from_behind_its_marker() {
    let texts = [
        ("src/a.cairo", "a == b\nc != d\n#[cfg(test)]\ne == f\n"),
        ("src/b.cairo", "#[cfg(test)]\na == b\n"),
        ("src/c.cairo", "a <= b\n\nx && y\n"),
        ("src/d.cairo", "ok\nassert(a) #[cfg(test)]\n"),
    ];
    let files: Vec<SourceFile> = texts.iter().map(|(n, t)| file(n, t)).collect();
    let found = collect_mutations(&files, &catalog());
    for (name, text) in texts {
        let marker = text.lines().position(|l| l.contains("#[cfg(test)]")).unwrap_or(usize::MAX);
        for m in found.iter().filter(|m| m.file_name() == name) {
            assert!(m.pos() < marker, "{} line {}", name, m.pos());
            assert_eq!(m.line(), text.lines().nth(m.pos()).unwrap());
        }
    }
    let per_file: Vec<usize> =
        texts.iter().map(|(n, _)| found.iter().filter(|m| m.file_name() == *n).count()).collect();
    assert_eq!(per_file, vec![2, 0, 3, 0]);
}
