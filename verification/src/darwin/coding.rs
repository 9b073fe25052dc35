//! The deterministic side of the coding agent: the lines and diffs of the
//! code it writes, the issues its static analysis reports, and its archive
//! of past solutions, searched by keyword and capped to the newest.

use vstd::prelude::*;
use vstd::string::StringExecFns;
use vstd::string::StrSliceExecFns;
use crate::core_lib::metrics::decimal;
use crate::core_lib::metrics::decimal_text;
use crate::core_lib::time_order::by_time;
use crate::core_lib::time_order::lemma_by_time_len;
use crate::core_lib::time_order::lemma_by_time_orders;
use crate::core_lib::time_order::is_ordered_by_time;
use crate::core_lib::time_order::goes_before;
use crate::core_lib::time_order::sort_by_time;
use crate::clock::now_millis;
use crate::darwin::agent::CodeIssue;
use crate::darwin::agent::IssueSeverity;
use crate::darwin::language::ProgrammingLanguage;
use crate::darwin::language::language_name;
use crate::darwin::text::str_contains;
use crate::darwin::text::text_contains;
use crate::darwin::text::texts_of;

verus! {

/// Length of the first line of `s`: the characters before its first line
/// feed, or all of them.
pub open spec fn first_line_len(s: Seq<char>) -> nat
    decreases s.len(),
{
    if s.len() == 0 {
        0
    } else if s[0] == '\n' {
        0
    } else {
        1 + first_line_len(s.drop_first())
    }
}

/// The first line is no longer than the text, and only line feeds end it.
pub proof fn lemma_first_line_len(s: Seq<char>)
    ensures
        first_line_len(s) <= s.len(),
        forall|i: int| 0 <= i < first_line_len(s) ==> s[i] != '\n',
        first_line_len(s) < s.len() ==> s[first_line_len(s) as int] == '\n',
    decreases s.len(),
{
    if s.len() > 0 && s[0] != '\n' {
        lemma_first_line_len(s.drop_first());
        assert forall|i: int| 0 <= i < first_line_len(s) implies s[i] != '\n' by {
            if i > 0 {
                assert(s[i] == s.drop_first()[i - 1]);
            }
        }
    }
}

/// A line without its carriage return, if it ends with one.
pub open spec fn strip_cr(l: Seq<char>) -> Seq<char> {
    if l.len() > 0 && l.last() == '\r' {
        l.drop_last()
    } else {
        l
    }
}

/// The lines of `s`: split at line feeds, a carriage return before a line
/// feed dropped, and no empty line after a final line feed.
pub open spec fn lines_of(s: Seq<char>) -> Seq<Seq<char>>
    decreases s.len(),
{
    if s.len() == 0 {
        Seq::empty()
    } else {
        let n = first_line_len(s);
        proof {
            lemma_first_line_len(s);
        }
        if n == s.len() {
            seq![s]
        } else {
            seq![strip_cr(s.take(n as int))] + lines_of(s.skip(n + 1 as int))
        }
    }
}

/// The lines of `code`: see [`lines_of`].
pub fn code_lines(code: &str) -> (ls: Vec<String>)
    ensures
        texts_of(ls@) == lines_of(code@),
{
    let len = code.unicode_len();
    let ghost s = code@;
    let mut ls: Vec<String> = Vec::new();
    let mut start: usize = 0;
    proof {
        assert(s.skip(0) =~= s);
        assert(texts_of(ls@) =~= Seq::<Seq<char>>::empty());
    }
    while start < len
        invariant
            len == s.len(),
            s == code@,
            start <= len,
            texts_of(ls@) + lines_of(s.skip(start as int)) == lines_of(s),
        decreases len - start,
    {
        let ghost rest = s.skip(start as int);
        let mut j = start;
        while j < len && code.get_char(j) != '\n'
            invariant
                len == s.len(),
                s == code@,
                start <= j <= len,
                forall|k: int| start <= k < j ==> s[k] != '\n',
            decreases len - j,
        {
            j = j + 1;
        }
        proof {
            lemma_first_line_len(rest);
            let n = first_line_len(rest);
            assert forall|k: int| 0 <= k < j - start implies rest[k] != '\n' by {
                assert(rest[k] == s[start + k]);
            }
            if n < j - start {
                assert(rest[n as int] == s[start + n]);
            }
            if j < len {
                assert(rest[j - start] == s[j as int]);
            }
            assert(n == j - start);
        }
        let ghost before = ls@;
        if j == len {
            let line = code.substring_char(start, len);
            ls.push(line.to_owned());
            proof {
                assert(line@ =~= rest);
                assert(lines_of(rest) == seq![rest]);
                assert(texts_of(ls@) =~= texts_of(before).push(rest));
                assert(s.skip(len as int) =~= Seq::<char>::empty());
                assert(texts_of(before) + lines_of(rest) =~= texts_of(ls@) + lines_of(s.skip(len as int)));
            }
            start = len;
        } else {
            let end = if j > start && code.get_char(j - 1) == '\r' { j - 1 } else { j };
            let line = code.substring_char(start, end);
            ls.push(line.to_owned());
            proof {
                let n = (j - start) as int;
                assert(line@ =~= strip_cr(rest.take(n)));
                assert(rest.skip(n + 1) =~= s.skip(j + 1));
                assert(lines_of(rest) == seq![strip_cr(rest.take(n))] + lines_of(rest.skip(n + 1)));
                assert(texts_of(ls@) =~= texts_of(before).push(line@));
                assert(texts_of(before) + lines_of(rest) =~= texts_of(ls@) + lines_of(s.skip(j + 1)));
            }
            start = j + 1;
        }
    }
    proof {
        assert(s.skip(len as int) =~= Seq::<char>::empty());
        assert(texts_of(ls@) + Seq::<Seq<char>>::empty() =~= texts_of(ls@));
    }
    ls
}

/// The lines `ls`, each after a '+', joined by line feeds.
pub open spec fn added_lines(ls: Seq<Seq<char>>) -> Seq<char>
    decreases ls.len(),
{
    if ls.len() == 0 {
        Seq::empty()
    } else if ls.len() == 1 {
        "+"@ + ls[0]
    } else {
        added_lines(ls.drop_last()) + "\n+"@ + ls.last()
    }
}

/// Diff presenting `code` as the consciousness-enhanced version of
/// `target_file`: a header, a hunk header counting its lines, and each line
/// marked as added.
pub open spec fn conscious_diff_text(target_file: Seq<char>, code: Seq<char>) -> Seq<char> {
    "--- "@ + target_file + " (original)\n+++ "@ + target_file + " (consciousness-enhanced)\n@@ -1,1 +1,"@
        + decimal_text(lines_of(code).len()) + " @@\n"@ + added_lines(lines_of(code))
}

/// Diff presenting `code` as the new version of `target_file`: see
/// [`conscious_diff_text`].
pub fn generate_conscious_diff(target_file: &str, code: &str) -> (d: String)
    ensures
        d@ == conscious_diff_text(target_file@, code@),
{
    let ls = code_lines(code);
    let mut body = String::new();
    let mut i: usize = 0;
    proof {
        assert(texts_of(ls@).take(0) =~= Seq::<Seq<char>>::empty());
    }
    while i < ls.len()
        invariant
            i <= ls@.len(),
            body@ == added_lines(texts_of(ls@).take(i as int)),
        decreases ls@.len() - i,
    {
        let ghost prev = body@;
        if i == 0 {
            body.append("+");
        } else {
            body.append("\n+");
        }
        body.append(ls[i].as_str());
        proof {
            let t = texts_of(ls@);
            assert(t.take(i + 1).drop_last() =~= t.take(i as int));
            assert(t.take(i + 1).last() == ls@[i as int]@);
            if i == 0 {
                assert(t.take(1) =~= seq![t[0]]);
            }
            assert(body@ =~= added_lines(t.take(i + 1)));
        }
        i = i + 1;
    }
    proof {
        assert(texts_of(ls@).take(ls@.len() as int) =~= texts_of(ls@));
    }
    let mut d = "--- ".to_owned();
    d.append(target_file);
    d.append(" (original)\n+++ ");
    d.append(target_file);
    d.append(" (consciousness-enhanced)\n@@ -1,1 +1,");
    let count = decimal(ls.len() as u64);
    d.append(count.as_str());
    d.append(" @@\n");
    d.append(body.as_str());
    proof {
        assert(texts_of(ls@).len() == ls@.len());
        assert(d@ =~= conscious_diff_text(target_file@, code@));
    }
    d
}

/// Diff of the `index`-th solution candidate for `problem`: the original
/// line kept and a comment naming the candidate added.
pub open spec fn candidate_diff_text(target_file: Seq<char>, original: Seq<char>, index: nat, problem: Seq<char>) -> Seq<char> {
    "--- "@ + target_file + "\n+++ "@ + target_file + "\n@@ -1,1 +1,2 @@\n "@ + original
        + "\n+// Solution candidate "@ + decimal_text(index) + " for problem: "@ + problem
}

/// Diff of the `index`-th solution candidate for `problem`: see
/// [`candidate_diff_text`].
pub fn candidate_diff(target_file: &str, original: &str, index: u64, problem: &str) -> (d: String)
    ensures
        d@ == candidate_diff_text(target_file@, original@, index as nat, problem@),
{
    let mut d = "--- ".to_owned();
    d.append(target_file);
    d.append("\n+++ ");
    d.append(target_file);
    d.append("\n@@ -1,1 +1,2 @@\n ");
    d.append(original);
    d.append("\n+// Solution candidate ");
    let n = decimal(index);
    d.append(n.as_str());
    d.append(" for problem: ");
    d.append(problem);
    assert(d@ =~= candidate_diff_text(target_file@, original@, index as nat, problem@));
    d
}

/// Message of the documentation warning for code in `language`.
pub open spec fn documentation_message(language: ProgrammingLanguage) -> Seq<char> {
    "Consider adding documentation for "@ + language_name(language)
}

/// Issues static analysis reports on code in `language`: none when the
/// analysis is disabled, else a documentation warning at line 1, column 1.
pub fn analyze_code(enable_static_analysis: bool, language: ProgrammingLanguage) -> (issues: Vec<CodeIssue>)
    ensures
        !enable_static_analysis ==> issues@.len() == 0,
        enable_static_analysis ==> issues@.len() == 1 && issues@[0].line == 1 && issues@[0].column == 1
            && issues@[0].severity == IssueSeverity::Warning
            && issues@[0].message@ == documentation_message(language)
            && issues@[0].language == language,
{
    let mut issues: Vec<CodeIssue> = Vec::new();
    if !enable_static_analysis {
        return issues;
    }
    let mut message = "Consider adding documentation for ".to_owned();
    message.append(language.as_str());
    issues.push(CodeIssue { line: 1, column: 1, severity: IssueSeverity::Warning, message, language });
    issues
}

/// Most solutions the archive keeps.
pub const MAX_ARCHIVE_SIZE: usize = 1000;

/// An archived solution: what solved the problem, the problem's
/// description and its tags.
#[derive(Debug)]
pub struct ArchiveEntry<T> {
    pub solution: T,
    pub problem_description: String,
    pub tags: Vec<String>,
}

/// Timestamped entries after one more was added: beyond
/// [`MAX_ARCHIVE_SIZE`], only the newest are kept, newest first.
pub open spec fn capped<T>(s: Seq<(i64, ArchiveEntry<T>)>) -> Seq<(i64, ArchiveEntry<T>)> {
    if s.len() > MAX_ARCHIVE_SIZE {
        by_time(s, true).take(MAX_ARCHIVE_SIZE as int)
    } else {
        s
    }
}

/// The entry answers a search for `query`: its description or one of its
/// tags contains it.
pub open spec fn entry_matches<T>(e: ArchiveEntry<T>, query: Seq<char>) -> bool {
    text_contains(e.problem_description@, query)
        || exists|i: int| 0 <= i < e.tags@.len() && text_contains(#[trigger] e.tags@[i]@, query)
}

/// Solutions of the entries of `s` that answer `query`, in order.
pub open spec fn matching_solutions<T>(s: Seq<(i64, ArchiveEntry<T>)>, query: Seq<char>) -> Seq<T>
    decreases s.len(),
{
    if s.len() == 0 {
        Seq::empty()
    } else {
        let rest = matching_solutions(s.drop_last(), query);
        if entry_matches(s.last().1, query) {
            rest.push(s.last().1.solution)
        } else {
            rest
        }
    }
}

/// An overflowing archive keeps its newest entries, newest first: what it
/// keeps is ordered newest first, no entry it drops is newer than one it
/// keeps, and the kept and dropped entries are exactly the ones it had.
pub proof fn lemma_capped_keeps_newest<T>(s: Seq<(i64, ArchiveEntry<T>)>)
    requires
        s.len() > MAX_ARCHIVE_SIZE,
    ensures
        capped(s).len() == MAX_ARCHIVE_SIZE,
        is_ordered_by_time(capped(s), true),
        forall|i: int, j: int| 0 <= i < MAX_ARCHIVE_SIZE <= j < s.len()
            ==> #[trigger] by_time(s, true)[i].0 >= #[trigger] by_time(s, true)[j].0,
        capped(s) + by_time(s, true).skip(MAX_ARCHIVE_SIZE as int) == by_time(s, true),
        by_time(s, true).to_multiset() == s.to_multiset(),
{
    lemma_by_time_orders(s, true);
    lemma_by_time_len(s, true);
    let r = by_time(s, true);
    assert forall|i: int, j: int| 0 <= i < j < capped(s).len() implies
        !goes_before(#[trigger] capped(s)[i].0, #[trigger] capped(s)[j].0, true) by {
        assert(capped(s)[i] == r[i] && capped(s)[j] == r[j]);
    }
    assert forall|i: int, j: int| 0 <= i < MAX_ARCHIVE_SIZE <= j < s.len() implies #[trigger] r[i].0 >= #[trigger] r[j].0 by {
        assert(!goes_before(r[i].0, r[j].0, true));
    }
    assert(capped(s) + r.skip(MAX_ARCHIVE_SIZE as int) =~= r);
}

/// Whether some text of `texts` contains `query`.
fn any_contains(texts: &Vec<String>, query: &str) -> (b: bool)
    ensures
        b == exists|i: int| 0 <= i < texts@.len() && text_contains(#[trigger] texts@[i]@, query@),
{
    let mut i: usize = 0;
    while i < texts.len()
        invariant
            i <= texts@.len(),
            forall|j: int| 0 <= j < i ==> !text_contains(#[trigger] texts@[j]@, query@),
        decreases texts@.len() - i,
    {
        if str_contains(texts[i].as_str(), query) {
            return true;
        }
        i = i + 1;
    }
    false
}

/// Past solutions with the problems they solved, stamped with the time they
/// were archived.
#[derive(Debug)]
pub struct SolutionArchive<T> {
    entries: Vec<(i64, ArchiveEntry<T>)>,
}

impl<T> SolutionArchive<T> {
    /// The timestamped entries, in the order they are kept.
    pub closed spec fn entries(&self) -> Seq<(i64, ArchiveEntry<T>)> {
        self.entries@
    }

    /// An empty archive.
    pub fn new() -> (a: Self)
        ensures
            a.entries() == Seq::<(i64, ArchiveEntry<T>)>::empty(),
    {
        SolutionArchive { entries: Vec::new() }
    }

    /// Number of archived solutions.
    pub fn len(&self) -> (n: usize)
        ensures
            n == self.entries().len(),
    {
        self.entries.len()
    }

    /// Archives `solution` of a problem of type `problem_type` at `now`,
    /// tagged with that type; beyond [`MAX_ARCHIVE_SIZE`] entries only the
    /// newest are kept, newest first.
    pub fn archive_solution_at(&mut self, solution: T, problem_type: &str, now: i64)
        ensures
            exists|e: ArchiveEntry<T>| {
                &&& e.solution == solution
                &&& e.problem_description@ == problem_type@
                &&& texts_of(e.tags@) == seq![problem_type@]
                &&& final(self).entries() == capped(old(self).entries().push((now, e)))
            },
            old(self).entries().len() <= MAX_ARCHIVE_SIZE ==> final(self).entries().len() <= MAX_ARCHIVE_SIZE,
    {
        let entry = ArchiveEntry {
            solution,
            problem_description: problem_type.to_owned(),
            tags: vec![problem_type.to_owned()],
        };
        let ghost e = entry;
        proof {
            assert(texts_of(e.tags@) =~= seq![problem_type@]);
        }
        self.entries.push((now, entry));
        let ghost pushed = self.entries@;
        assert(pushed == old(self).entries().push((now, e)));
        if self.entries.len() > MAX_ARCHIVE_SIZE {
            let mut all: Vec<(i64, ArchiveEntry<T>)> = Vec::new();
            std::mem::swap(&mut all, &mut self.entries);
            let mut kept = sort_by_time(all, true);
            proof {
                lemma_by_time_len(pushed, true);
            }
            kept.truncate(MAX_ARCHIVE_SIZE);
            assert(kept@ =~= by_time(pushed, true).take(MAX_ARCHIVE_SIZE as int));
            self.entries = kept;
        }
        assert(e.solution == solution);
        assert(e.problem_description@ == problem_type@);
        assert(self.entries() == capped(old(self).entries().push((now, e))));
        assert(texts_of(e.tags@) == seq![problem_type@]);
    }

    /// Archives `solution` of a problem of type `problem_type` now: see
    /// [`Self::archive_solution_at`].
    pub fn archive_solution(&mut self, solution: T, problem_type: &str)
        ensures
            exists|e: ArchiveEntry<T>, now: i64| {
                &&& e.solution == solution
                &&& e.problem_description@ == problem_type@
                &&& texts_of(e.tags@) == seq![problem_type@]
                &&& final(self).entries() == capped(old(self).entries().push((now, e)))
            },
    {
        let now = now_millis();
        self.archive_solution_at(solution, problem_type, now);
    }

    /// The archived solutions whose problem description or a tag contains
    /// `problem_description`, in the order they are kept.
    pub fn search_archived_solutions(&self, problem_description: &str) -> (r: Vec<&T>)
        ensures
            r@.len() == matching_solutions(self.entries(), problem_description@).len(),
            forall|i: int| 0 <= i < r@.len()
                ==> *(#[trigger] r@[i]) == matching_solutions(self.entries(), problem_description@)[i],
    {
        let mut r: Vec<&T> = Vec::new();
        let mut i: usize = 0;
        while i < self.entries.len()
            invariant
                i <= self.entries@.len(),
                r@.len() == matching_solutions(self.entries@.take(i as int), problem_description@).len(),
                forall|j: int| 0 <= j < r@.len()
                    ==> *(#[trigger] r@[j]) == matching_solutions(self.entries@.take(i as int), problem_description@)[j],
            decreases self.entries@.len() - i,
        {
            let entry = &self.entries[i].1;
            let found = str_contains(entry.problem_description.as_str(), problem_description)
                || any_contains(&entry.tags, problem_description);
            proof {
                assert(self.entries@.take(i + 1).drop_last() =~= self.entries@.take(i as int));
                assert(self.entries@.take(i + 1).last() == self.entries@[i as int]);
            }
            if found {
                r.push(&entry.solution);
            }
            i = i + 1;
        }
        proof {
            assert(self.entries@.take(self.entries@.len() as int) =~= self.entries@);
        }
        r
    }
}

} // verus!
