//! Programming languages the coding agent works in: their names, file
//! extensions, and the language of a file judged by its extension.

use vstd::prelude::*;
use vstd::string::StrSliceExecFns;
use crate::sharding::vector_index::lowercase;
use crate::sharding::vector_index::to_lowercase;
use crate::sharding::vector_index::{ascii_lower, is_ascii_lower_word, is_ascii_text};

verus! {

/// A language the coding agent can read and write.
#[derive(Debug, Clone, Copy, PartialEq, Eq, Hash, Structural)]
pub enum ProgrammingLanguage {
    Rust,
    Python,
    JavaScript,
    TypeScript,
    Go,
    Java,
    CSharp,
    Cpp,
}

/// Canonical lower-case name of a language.
pub open spec fn language_name(l: ProgrammingLanguage) -> Seq<char> {
    match l {
        ProgrammingLanguage::Rust => "rust"@,
        ProgrammingLanguage::Python => "python"@,
        ProgrammingLanguage::JavaScript => "javascript"@,
        ProgrammingLanguage::TypeScript => "typescript"@,
        ProgrammingLanguage::Go => "go"@,
        ProgrammingLanguage::Java => "java"@,
        ProgrammingLanguage::CSharp => "csharp"@,
        ProgrammingLanguage::Cpp => "cpp"@,
    }
}

/// Usual file extension of a language.
pub open spec fn language_extension(l: ProgrammingLanguage) -> Seq<char> {
    match l {
        ProgrammingLanguage::Rust => "rs"@,
        ProgrammingLanguage::Python => "py"@,
        ProgrammingLanguage::JavaScript => "js"@,
        ProgrammingLanguage::TypeScript => "ts"@,
        ProgrammingLanguage::Go => "go"@,
        ProgrammingLanguage::Java => "java"@,
        ProgrammingLanguage::CSharp => "cs"@,
        ProgrammingLanguage::Cpp => "cpp"@,
    }
}

/// Language called `name` (a lower-case name or short name), if any.
pub open spec fn language_named(name: Seq<char>) -> Option<ProgrammingLanguage> {
    if name == "rust"@ || name == "rs"@ {
        Some(ProgrammingLanguage::Rust)
    } else if name == "python"@ || name == "py"@ {
        Some(ProgrammingLanguage::Python)
    } else if name == "javascript"@ || name == "js"@ {
        Some(ProgrammingLanguage::JavaScript)
    } else if name == "typescript"@ || name == "ts"@ {
        Some(ProgrammingLanguage::TypeScript)
    } else if name == "go"@ {
        Some(ProgrammingLanguage::Go)
    } else if name == "java"@ {
        Some(ProgrammingLanguage::Java)
    } else if name == "csharp"@ || name == "cs"@ {
        Some(ProgrammingLanguage::CSharp)
    } else if name == "cpp"@ || name == "c++"@ {
        Some(ProgrammingLanguage::Cpp)
    } else {
        None
    }
}

/// Language of a file whose extension is `ext`, if known.
pub open spec fn language_of_extension(ext: Seq<char>) -> Option<ProgrammingLanguage> {
    if ext == "rs"@ {
        Some(ProgrammingLanguage::Rust)
    } else if ext == "py"@ {
        Some(ProgrammingLanguage::Python)
    } else if ext == "js"@ {
        Some(ProgrammingLanguage::JavaScript)
    } else if ext == "ts"@ {
        Some(ProgrammingLanguage::TypeScript)
    } else if ext == "go"@ {
        Some(ProgrammingLanguage::Go)
    } else if ext == "java"@ {
        Some(ProgrammingLanguage::Java)
    } else if ext == "cs"@ {
        Some(ProgrammingLanguage::CSharp)
    } else if ext == "cpp"@ || ext == "cc"@ || ext == "cxx"@ {
        Some(ProgrammingLanguage::Cpp)
    } else {
        None
    }
}

/// Position of the last '.' among the first `n` characters of `s`, or -1.
pub open spec fn last_dot_before(s: Seq<char>, n: int) -> int
    decreases n,
{
    if n <= 0 {
        -1
    } else if s[n - 1] == '.' {
        n - 1
    } else {
        last_dot_before(s, n - 1)
    }
}

/// Text after the last '.' of `path`, or the whole path when it has none.
pub open spec fn extension_of(path: Seq<char>) -> Seq<char> {
    path.subrange(last_dot_before(path, path.len() as int) + 1, path.len() as int)
}

proof fn lemma_last_dot_range(s: Seq<char>, n: int)
    requires
        0 <= n <= s.len(),
    ensures
        -1 <= last_dot_before(s, n) < n,
    decreases n,
{
    if n > 0 {
        lemma_last_dot_range(s, n - 1);
    }
}

/// Whether `a` spells `lit`.
fn spells(a: &String, lit: &str) -> (b: bool)
    ensures
        b == (a@ == lit@),
{
    *a == lit.to_owned()
}

impl ProgrammingLanguage {
    /// Canonical lower-case name.
    pub fn as_str(&self) -> (s: &'static str)
        ensures
            s@ == language_name(*self),
    {
        match self {
            ProgrammingLanguage::Rust => "rust",
            ProgrammingLanguage::Python => "python",
            ProgrammingLanguage::JavaScript => "javascript",
            ProgrammingLanguage::TypeScript => "typescript",
            ProgrammingLanguage::Go => "go",
            ProgrammingLanguage::Java => "java",
            ProgrammingLanguage::CSharp => "csharp",
            ProgrammingLanguage::Cpp => "cpp",
        }
    }

    /// Language named `s` in any letter case (full or short name), if any.
    pub fn from_str(s: &str) -> (l: Option<ProgrammingLanguage>)
        ensures
            l == language_named(lowercase(s@)),
            is_ascii_text(s@) ==> l == language_named(ascii_lower(s@)),
            is_ascii_lower_word(s@) ==> l == language_named(s@),
    {
        let lower = to_lowercase(s);
        Self::from_lowercase(&lower)
    }

    /// Language named by the lower-case text `name`, if any.
    pub fn from_lowercase(name: &String) -> (l: Option<ProgrammingLanguage>)
        ensures
            l == language_named(name@),
    {
        if spells(name, "rust") || spells(name, "rs") {
            Some(ProgrammingLanguage::Rust)
        } else if spells(name, "python") || spells(name, "py") {
            Some(ProgrammingLanguage::Python)
        } else if spells(name, "javascript") || spells(name, "js") {
            Some(ProgrammingLanguage::JavaScript)
        } else if spells(name, "typescript") || spells(name, "ts") {
            Some(ProgrammingLanguage::TypeScript)
        } else if spells(name, "go") {
            Some(ProgrammingLanguage::Go)
        } else if spells(name, "java") {
            Some(ProgrammingLanguage::Java)
        } else if spells(name, "csharp") || spells(name, "cs") {
            Some(ProgrammingLanguage::CSharp)
        } else if spells(name, "cpp") || spells(name, "c++") {
            Some(ProgrammingLanguage::Cpp)
        } else {
            None
        }
    }

    /// Usual file extension.
    pub fn file_extension(&self) -> (s: &'static str)
        ensures
            s@ == language_extension(*self),
    {
        match self {
            ProgrammingLanguage::Rust => "rs",
            ProgrammingLanguage::Python => "py",
            ProgrammingLanguage::JavaScript => "js",
            ProgrammingLanguage::TypeScript => "ts",
            ProgrammingLanguage::Go => "go",
            ProgrammingLanguage::Java => "java",
            ProgrammingLanguage::CSharp => "cs",
            ProgrammingLanguage::Cpp => "cpp",
        }
    }
}

/// Language of the file at `file_path`, judged by the text after its last
/// '.' (the whole path when it has none), if that names a known extension.
pub fn detect_language(file_path: &str) -> (l: Option<ProgrammingLanguage>)
    ensures
        l == language_of_extension(extension_of(file_path@)),
{
    let n = file_path.unicode_len();
    let mut i: usize = n;
    while i > 0
        invariant
            n == file_path@.len(),
            i <= n,
            last_dot_before(file_path@, n as int) == last_dot_before(file_path@, i as int),
            forall|j: int| i <= j < n ==> file_path@[j] != '.',
        ensures
            i as int == last_dot_before(file_path@, n as int) + 1,
        decreases i,
    {
        if file_path.get_char(i - 1) == '.' {
            break;
        }
        i = i - 1;
    }
    proof {
        lemma_last_dot_range(file_path@, n as int);
    }
    let start: usize = i;
    let ext = file_path.substring_char(start, n).to_owned();
    if spells(&ext, "rs") {
        Some(ProgrammingLanguage::Rust)
    } else if spells(&ext, "py") {
        Some(ProgrammingLanguage::Python)
    } else if spells(&ext, "js") {
        Some(ProgrammingLanguage::JavaScript)
    } else if spells(&ext, "ts") {
        Some(ProgrammingLanguage::TypeScript)
    } else if spells(&ext, "go") {
        Some(ProgrammingLanguage::Go)
    } else if spells(&ext, "java") {
        Some(ProgrammingLanguage::Java)
    } else if spells(&ext, "cs") {
        Some(ProgrammingLanguage::CSharp)
    } else if spells(&ext, "cpp") || spells(&ext, "cc") || spells(&ext, "cxx") {
        Some(ProgrammingLanguage::Cpp)
    } else {
        None
    }
}

/// Name of the language whose validator handles the file at `file_path`:
/// the language of its extension (see [`detect_language`]), or "unknown".
pub fn validation_language(file_path: &str) -> (s: &'static str)
    ensures
        s@ == (match language_of_extension(extension_of(file_path@)) {
            Some(l) => language_name(l),
            None => "unknown"@,
        }),
{
    match detect_language(file_path) {
        Some(l) => l.as_str(),
        None => "unknown",
    }
}

/// Every language's name and usual extension name it again.
pub proof fn lemma_language_names_roundtrip(l: ProgrammingLanguage)
    ensures
        is_ascii_lower_word(language_name(l)),
        language_named(language_name(l)) == Some(l),
        is_ascii_lower_word(language_extension(l)),
        language_named(language_extension(l)) == Some(l),
{
    reveal_strlit("rust");
    reveal_strlit("rs");
    reveal_strlit("python");
    reveal_strlit("py");
    reveal_strlit("javascript");
    reveal_strlit("js");
    reveal_strlit("typescript");
    reveal_strlit("ts");
    reveal_strlit("go");
    reveal_strlit("java");
    reveal_strlit("csharp");
    reveal_strlit("cs");
    reveal_strlit("cpp");
    reveal_strlit("c++");
    assert("rust"@.len() == 4 && "rust"@[0] == 'r');
    assert("rs"@.len() == 2 && "rs"@[0] == 'r');
    assert("python"@.len() == 6 && "python"@[0] == 'p');
    assert("py"@.len() == 2 && "py"@[0] == 'p');
    assert("javascript"@.len() == 10 && "javascript"@[0] == 'j');
    assert("js"@.len() == 2 && "js"@[0] == 'j');
    assert("typescript"@.len() == 10 && "typescript"@[0] == 't');
    assert("ts"@.len() == 2 && "ts"@[0] == 't');
    assert("go"@.len() == 2 && "go"@[0] == 'g');
    assert("java"@.len() == 4 && "java"@[0] == 'j');
    assert("csharp"@.len() == 6 && "csharp"@[0] == 'c');
    assert("cs"@.len() == 2 && "cs"@[0] == 'c');
    assert("cpp"@.len() == 3 && "cpp"@[0] == 'c');
    assert("c++"@.len() == 3 && "c++"@[0] == 'c');
}

} // verus!
