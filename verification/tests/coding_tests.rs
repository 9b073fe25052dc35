use amazon_rose_forest::core_lib::time_order::keep_newest;
use amazon_rose_forest::core_lib::time_order::sort_by_time;
use amazon_rose_forest::darwin::agent::IssueSeverity;
use amazon_rose_forest::darwin::coding::{
    analyze_code, candidate_diff, code_lines, generate_conscious_diff, SolutionArchive, MAX_ARCHIVE_SIZE,
};
use amazon_rose_forest::darwin::language::ProgrammingLanguage;

#[test]
fn lines_follow_line_feeds() {
    assert_eq!(code_lines(""), Vec::<String>::new());
    assert_eq!(code_lines("a"), vec!["a".to_string()]);
    assert_eq!(code_lines("a\nb"), vec!["a".to_string(), "b".to_string()]);
    assert_eq!(code_lines("a\nb\n"), vec!["a".to_string(), "b".to_string()]);
    assert_eq!(code_lines("a\r\n\nb"), vec!["a".to_string(), "".to_string(), "b".to_string()]);
    assert_eq!(code_lines("\n"), vec!["".to_string()]);
}

#[test]
fn lines_agree_with_std() {
    for text in ["fn main() {\n    x();\n}\n", "one\r\ntwo", "\n\nthree", "é\nü\n"] {
        let expected: Vec<String> = text.lines().map(|l| l.to_string()).collect();
        assert_eq!(code_lines(text), expected);
    }
}

#[test]
fn conscious_diff_marks_every_line() {
    let d = generate_conscious_diff("lib.rs", "fn a() {}\nfn b() {}");
    assert_eq!(
        d,
        "--- lib.rs (original)\n+++ lib.rs (consciousness-enhanced)\n@@ -1,1 +1,2 @@\n+fn a() {}\n+fn b() {}"
    );
    let empty = generate_conscious_diff("x.py", "");
    assert_eq!(empty, "--- x.py (original)\n+++ x.py (consciousness-enhanced)\n@@ -1,1 +1,0 @@\n");
}

#[test]
fn candidate_diff_names_the_candidate() {
    let d = candidate_diff("main.go", "package main", 2, "speed");
    assert_eq!(d, "--- main.go\n+++ main.go\n@@ -1,1 +1,2 @@\n package main\n+// Solution candidate 2 for problem: speed");
}

#[test]
fn analysis_warns_about_documentation() {
    assert!(analyze_code(false, ProgrammingLanguage::Rust).is_empty());
    let issues = analyze_code(true, ProgrammingLanguage::Python);
    assert_eq!(issues.len(), 1);
    assert_eq!(issues[0].line, 1);
    assert_eq!(issues[0].column, 1);
    assert_eq!(issues[0].severity, IssueSeverity::Warning);
    assert_eq!(issues[0].message, "Consider adding documentation for python");
    assert_eq!(issues[0].language, ProgrammingLanguage::Python);
}

#[test]
fn archive_search_matches_descriptions_and_tags() {
    let mut a: SolutionArchive<u32> = SolutionArchive::new();
    a.archive_solution_at(1, "consciousness_improvement", 10);
    a.archive_solution_at(2, "performance_fix", 20);
    a.archive_solution_at(3, "consciousness_bugfix", 30);
    assert_eq!(a.len(), 3);
    assert_eq!(a.search_archived_solutions("consciousness"), vec![&1, &3]);
    assert_eq!(a.search_archived_solutions("fix"), vec![&2, &3]);
    assert!(a.search_archived_solutions("missing").is_empty());
    assert_eq!(a.search_archived_solutions("").len(), 3);
}

#[test]
fn archive_keeps_the_newest() {
    let mut a: SolutionArchive<usize> = SolutionArchive::new();
    for i in 0..MAX_ARCHIVE_SIZE {
        a.archive_solution_at(i, "t", (i as i64) + 100);
    }
    assert_eq!(a.len(), MAX_ARCHIVE_SIZE);
    a.archive_solution_at(5000, "t", 0);
    assert_eq!(a.len(), MAX_ARCHIVE_SIZE);
    let all = a.search_archived_solutions("t");
    // newest first, and the oldest entry (the one just added) was dropped
    assert_eq!(*all[0], MAX_ARCHIVE_SIZE - 1);
    assert_eq!(*all[MAX_ARCHIVE_SIZE - 1], 0);
    assert!(!all.contains(&&5000));
}

#[test]
fn sorting_by_time_is_stable() {
    let v = vec![(3i64, 'a'), (1, 'b'), (3, 'c'), (2, 'd')];
    assert_eq!(sort_by_time(v.clone(), true), vec![(3, 'a'), (3, 'c'), (2, 'd'), (1, 'b')]);
    assert_eq!(sort_by_time(v, false), vec![(1, 'b'), (2, 'd'), (3, 'a'), (3, 'c')]);
}

#[test]
fn keep_newest_keeps_the_newest_in_order() {
    let v = vec![(5i64, "a"), (9, "b"), (1, "c"), (9, "d"), (7, "e")];
    assert_eq!(keep_newest(v.clone(), 3), vec![(9, "b"), (9, "d"), (7, "e")]);
    assert_eq!(keep_newest(v.clone(), 10), vec![(9, "b"), (9, "d"), (7, "e"), (5, "a"), (1, "c")]);
    assert_eq!(keep_newest(v, 0), Vec::<(i64, &str)>::new());
}
