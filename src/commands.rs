use vstd::prelude::*;

use crate::text::{chars_of, slice_chars, string_of};

pub mod gitignore;
pub mod issue;
pub mod license;
pub mod pr;

verus! {

/// The kinds of template that the tool handles.
#[derive(Debug, Clone, Copy, PartialEq, Eq, Structural)]
pub enum TemplateCategory {
    Issue,
    License,
    PR,
    Gitignore,
}

/// A request to add templates of some category: where, which, and how.
#[derive(Debug)]
pub struct AddTemplateRequest {
    pub dir: Option<String>,
    pub args: Vec<String>,
    pub force: bool,
    pub all: bool,
}

/// One file to fetch: its address, where it goes, and whether an existing
/// file there may be overwritten.
#[derive(Debug)]
pub struct Download {
    pub url: String,
    pub dest: String,
    pub force: bool,
}

impl View for Download {
    type V = (Seq<char>, Seq<char>, bool);

    open spec fn view(&self) -> Self::V {
        (self.url@, self.dest@, self.force)
    }
}

/// The views of a sequence of downloads.
pub open spec fn download_views(s: Seq<Download>) -> Seq<(Seq<char>, Seq<char>, bool)> {
    s.map_values(|d: Download| d@)
}

/// What a command comes down to.
#[derive(Debug)]
pub enum Plan {
    /// Fetch these files, in order, stopping at the first failure.
    Fetch(Vec<Download>),
    /// Fetch every template that the manifest lists, into `dir` (or the
    /// default place), reporting failures at the end.
    FetchAll { manifest_url: String, dir: Option<String>, force: bool },
    /// Show the templates that are available.
    List,
    /// Show these files, in order.
    Preview(Vec<String>),
}

/// Why a command was refused.
#[derive(Debug, Clone, Copy, PartialEq, Eq, Structural)]
pub enum CommandError {
    /// No template was named, and `--all` was not given.
    NoTemplate,
    /// Output names were given, but not one per template.
    OutputCountMismatch,
}

impl CommandError {
    /// The message shown for the error.
    pub fn message(&self) -> (r: String)
        ensures
            r@ == match self {
                CommandError::NoTemplate => "No template specified. Use `--all` or pass template names."@,
                CommandError::OutputCountMismatch => "The number of templates and output file names must match."@,
            },
    {
        match self {
            CommandError::NoTemplate => String::from_str(
                "No template specified. Use `--all` or pass template names.",
            ),
            CommandError::OutputCountMismatch => String::from_str(
                "The number of templates and output file names must match.",
            ),
        }
    }
}

/// Whether `Path::extension` finds an extension in the path `p`.
pub uninterp spec fn path_has_extension(p: Seq<char>) -> bool;

/// Relies on `Path::extension`: whether the last component of the path has
/// an extension. With Unix separators, a name without `/` has one when it is
/// not `..` and holds a `.` after its first character.
#[verifier::external_body]
pub(crate) fn has_extension(p: &str) -> (r: bool)
    ensures
        r == path_has_extension(p@),
        (forall|i: int| 0 <= i < p@.len() ==> p@[i] != '/') ==> r == (p@ != ".."@ && exists|i: int|
            1 <= i < p@.len() && p@[i] == '.'),
{
    std::path::Path::new(p).extension().is_some()
}

/// `a` followed by `b`.
pub fn concat(a: &str, b: &str) -> (r: String)
    ensures
        r@ == a@ + b@,
{
    let mut r = String::from_str(a);
    r.append(b);
    r
}

/// `a` followed by `b` and `c`.
pub fn concat3(a: &str, b: &str, c: &str) -> (r: String)
    ensures
        r@ == a@ + b@ + c@,
{
    let mut r = String::from_str(a);
    r.append(b);
    r.append(c);
    r
}

/// What `Path::join` makes of a directory and a file name.
pub uninterp spec fn path_join_of(dir: Seq<char>, file: Seq<char>) -> Seq<char>;

/// Relies on `Path::join`: the path of `file` inside `dir`. With Unix
/// separators, a relative non-empty `file` joined to a non-empty `dir` that
/// does not end in `/` gets one `/` between them.
#[verifier::external_body]
pub(crate) fn join(dir: &str, file: &str) -> (r: String)
    ensures
        r@ == path_join_of(dir@, file@),
        dir@.len() > 0 && dir@.last() != '/' && file@.len() > 0 && file@[0] != '/' ==> r@ == dir@
            + "/"@ + file@,
{
    std::path::Path::new(dir).join(file).to_string_lossy().into_owned()
}

/// The view of an optional string.
pub open spec fn opt_str(o: Option<String>) -> Option<Seq<char>> {
    match o {
        Some(s) => Some(s@),
        None => None,
    }
}

/// The last position before `i` that holds `c`.
pub open spec fn last_index_before(s: Seq<char>, c: char, i: int) -> Option<int>
    decreases i,
{
    if i <= 0 || i > s.len() {
        None
    } else if s[i - 1] == c {
        Some(i - 1)
    } else {
        last_index_before(s, c, i - 1)
    }
}

/// A template's name without its extension: what comes before its last `.`,
/// or the whole name when it has none.
pub open spec fn stem_of(name: Seq<char>) -> Seq<char> {
    match last_index_before(name, '.', name.len() as int) {
        Some(i) => name.take(i),
        None => name,
    }
}

/// A template's name without its extension.
pub fn template_stem(name: &str) -> (r: String)
    ensures
        r@ == stem_of(name@),
{
    let c = chars_of(name);
    let mut i: usize = c.len();
    while i > 0
        invariant
            i <= c.len(),
            c@ == name@,
            last_index_before(c@, '.', c.len() as int) == last_index_before(c@, '.', i as int),
        decreases i,
    {
        if c[i - 1] == '.' {
            let r = slice_chars(&c, 0, i - 1);
            proof {
                assert(r@ =~= c@.take(i - 1));
            }
            return string_of(&r);
        }
        i = i - 1;
    }
    string_of(&c)
}

/// A command of one of the template categories.
#[derive(Debug)]
pub enum CategoryCommand {
    Issue(issue::Command),
    License(license::Command),
    PR(pr::Command),
    Gitignore(gitignore::Command),
}

/// What a category command comes down to.
#[derive(Debug)]
pub enum CategoryTask {
    Template(Plan),
    License(license::LicenseTask),
    Gitignore(gitignore::GitignoreTask),
}

/// Why a category command was refused.
#[derive(Debug, Clone, Copy, PartialEq, Eq, Structural)]
pub enum CategoryError {
    Template(CommandError),
    License(license::LicenseCommandError),
    Gitignore(gitignore::GitignoreCommandError),
}

impl CategoryCommand {
    /// What the command comes down to: what its category's command gives.
    pub fn execute(&self) -> (r: Result<CategoryTask, CategoryError>)
        ensures
            match self {
                CategoryCommand::Issue(c) => match r {
                    Ok(CategoryTask::Template(p)) => issue::executes_to(c, Ok(p)),
                    Err(CategoryError::Template(e)) => issue::executes_to(c, Err(e)),
                    _ => false,
                },
                CategoryCommand::PR(c) => match r {
                    Ok(CategoryTask::Template(p)) => pr::executes_to(c, Ok(p)),
                    Err(CategoryError::Template(e)) => pr::executes_to(c, Err(e)),
                    _ => false,
                },
                CategoryCommand::License(c) => match r {
                    Ok(CategoryTask::License(t)) => license::executes_to(c, Ok(t)),
                    Err(CategoryError::License(e)) => license::executes_to(c, Err(e)),
                    _ => false,
                },
                CategoryCommand::Gitignore(c) => match r {
                    Ok(CategoryTask::Gitignore(t)) => gitignore::executes_to(c, Ok(t)),
                    Err(CategoryError::Gitignore(e)) => gitignore::executes_to(c, Err(e)),
                    _ => false,
                },
            },
    {
        match self {
            CategoryCommand::Issue(c) => match c.execute() {
                Ok(p) => Ok(CategoryTask::Template(p)),
                Err(e) => Err(CategoryError::Template(e)),
            },
            CategoryCommand::PR(c) => match c.execute() {
                Ok(p) => Ok(CategoryTask::Template(p)),
                Err(e) => Err(CategoryError::Template(e)),
            },
            CategoryCommand::License(c) => match c.execute() {
                Ok(t) => Ok(CategoryTask::License(t)),
                Err(e) => Err(CategoryError::License(e)),
            },
            CategoryCommand::Gitignore(c) => match c.execute() {
                Ok(t) => Ok(CategoryTask::Gitignore(t)),
                Err(e) => Err(CategoryError::Gitignore(e)),
            },
        }
    }
}

} // verus!
