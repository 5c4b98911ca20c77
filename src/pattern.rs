//! The built-in ignore patterns: regular expressions matched against the
//! text of a path.

use vstd::prelude::*;
use vstd::string::StringExecFns;

verus! {

#[verifier::external_type_specification]
#[verifier::external_body]
pub struct ExRegex(regex::Regex);

/// Whether regex accepts `pattern` as a regular expression.
pub uninterp spec fn regex_accepts(pattern: Seq<char>) -> bool;

/// Whether the regular expression `pattern` matches somewhere in `text`.
pub uninterp spec fn regex_finds(pattern: Seq<char>, text: Seq<char>) -> bool;

/// A compiled ignore pattern. The regex is always the one compiled from
/// `source`: only `compile` builds a value of this type.
pub struct IgnorePattern {
    source: String,
    regex: regex::Regex,
}

impl View for IgnorePattern {
    type V = Seq<char>;

    /// The pattern's source text.
    closed spec fn view(&self) -> Seq<char> {
        self.source@
    }
}

/// Relies on regex::Regex::new: it succeeds exactly on the patterns that
/// regex accepts; the source text is kept beside the compiled regex.
#[verifier::external_body]
fn compile(source: &str) -> (r: Option<IgnorePattern>)
    ensures
        r is Some == regex_accepts(source@),
        r matches Some(p) ==> p@ == source@,
{
    match regex::Regex::new(source) {
        Ok(regex) => Some(IgnorePattern { source: String::from_str(source), regex }),
        Err(_) => None,
    }
}

/// Relies on regex::Regex::is_match: whether the regex compiled from the
/// pattern's source matches anywhere in `text`.
#[verifier::external_body]
fn pattern_is_match(p: &IgnorePattern, text: &str) -> (r: bool)
    ensures
        r == regex_finds(p@, text@),
{
    p.regex.is_match(text)
}

impl IgnorePattern {
    /// Compiles `source`; none where regex refuses it.
    pub fn new(source: &str) -> (r: Option<IgnorePattern>)
        ensures
            r is Some == regex_accepts(source@),
            r matches Some(p) ==> p@ == source@,
    {
        compile(source)
    }

    /// Whether the pattern matches somewhere in `text`.
    pub fn is_match(&self, text: &str) -> (r: bool)
        ensures
            r == regex_finds(self@, text@),
    {
        pattern_is_match(self, text)
    }
}

/// The sources of the built-in patterns: compiled caches and bytecode,
/// tool caches, virtual environments, editor metadata, OS metadata files and
/// version-control metadata.
pub open spec fn ignore_sources() -> Seq<Seq<char>> {
    seq![
        r"\.pyc$"@,
        r"\.pyo$"@,
        r"\.pyd$"@,
        r"__pycache__"@,
        r"\.pytest_cache"@,
        r"\.mypy_cache"@,
        r"\.ipynb_checkpoints"@,
        r"venv"@,
        r"\.venv"@,
        r"\.env"@,
        r"\.idea"@,
        r"\.vscode"@,
        r"\.DS_Store"@,
        r"\.git"@,
    ]
}

/// The source of the built-in pattern at `i`.
fn ignore_source(i: usize) -> (r: &'static str)
    requires
        i < ignore_sources().len(),
    ensures
        r@ == ignore_sources()[i as int],
{
    match i {
        0 => r"\.pyc$",
        1 => r"\.pyo$",
        2 => r"\.pyd$",
        3 => r"__pycache__",
        4 => r"\.pytest_cache",
        5 => r"\.mypy_cache",
        6 => r"\.ipynb_checkpoints",
        7 => r"venv",
        8 => r"\.venv",
        9 => r"\.env",
        10 => r"\.idea",
        11 => r"\.vscode",
        12 => r"\.DS_Store",
        _ => r"\.git",
    }
}

/// The built-in patterns, compiled in their fixed order; none where regex
/// refuses one of them.
pub fn get_ignore_patterns() -> (r: Option<Vec<IgnorePattern>>)
    ensures
        r is Some == (forall|i: int|
            0 <= i < ignore_sources().len() ==> regex_accepts(#[trigger] ignore_sources()[i])),
        r matches Some(v) ==> v@.map_values(|p: IgnorePattern| p@) == ignore_sources(),
{
    let n: usize = 14;
    let mut out: Vec<IgnorePattern> = Vec::new();
    let mut i: usize = 0;
    while i < n
        invariant
            n == ignore_sources().len(),
            i <= n,
            out@.len() == i,
            forall|j: int| 0 <= j < i ==> regex_accepts(#[trigger] ignore_sources()[j]),
            forall|j: int| 0 <= j < i ==> (#[trigger] out@[j])@ == ignore_sources()[j],
        decreases n - i,
    {
        match compile(ignore_source(i)) {
            Some(p) => out.push(p),
            None => return None,
        }
        i = i + 1;
    }
    assert(out@.map_values(|p: IgnorePattern| p@) =~= ignore_sources());
    Some(out)
}

} // verus!
