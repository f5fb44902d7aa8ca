use vstd::prelude::*;

use crate::manifest::ends_with;
use crate::text::{chars_at, chars_of, slice_chars, string_of, string_views};

verus! {

/// `gitignore add`: templates by name, an output directory, overwrite, all of
/// them, appending, refreshing the cache, remote file names, output names.
#[derive(Debug)]
pub struct AddArgs {
    pub templates: Vec<String>,
    pub dir: Option<String>,
    pub force: bool,
    pub all: bool,
    pub append: bool,
    pub update_cache: bool,
    pub use_remote_name: bool,
    pub output: Vec<String>,
}

/// `gitignore list`: the groups to show.
#[derive(Debug)]
pub struct ListArgs {
    pub popular: bool,
    pub global: bool,
    pub community: bool,
    pub update_cache: bool,
}

/// `gitignore preview`: templates by name.
#[derive(Debug)]
pub struct PreviewArgs {
    pub args: Vec<String>,
    pub update_cache: bool,
}

/// The gitignore template commands.
#[derive(Debug)]
pub enum Command {
    Add(AddArgs),
    List(ListArgs),
    Preview(PreviewArgs),
}

/// What a gitignore command comes down to.
#[derive(Debug)]
pub enum GitignoreTask {
    /// Add the templates that the arguments name (or all of them).
    Add,
    /// Show the templates of the groups asked for.
    List,
    /// Show these templates.
    Preview(Vec<String>),
}

/// Why a gitignore command was refused.
#[derive(Debug, Clone, Copy, PartialEq, Eq, Structural)]
pub enum GitignoreCommandError {
    /// No template was named, and `--all` was not given.
    NoTemplate,
}

/// A template name as typed, without a `.gitignore` suffix.
pub open spec fn bare_name(s: Seq<char>) -> Seq<char> {
    if ends_with(s, ".gitignore"@) {
        s.take(s.len() - 10)
    } else {
        s
    }
}

/// What the gitignore command `c` gives.
pub open spec fn executes_to(c: &Command, r: Result<GitignoreTask, GitignoreCommandError>) -> bool {
    match c {
        Command::Add(a) => if !a.all && a.templates@.len() == 0 {
            r == Err::<GitignoreTask, GitignoreCommandError>(GitignoreCommandError::NoTemplate)
        } else {
            r matches Ok(GitignoreTask::Add)
        },
        Command::List(_) => r matches Ok(GitignoreTask::List),
        Command::Preview(p) => if p.args@.len() == 0 {
            r == Err::<GitignoreTask, GitignoreCommandError>(GitignoreCommandError::NoTemplate)
        } else {
            r matches Ok(GitignoreTask::Preview(names)) && string_views(names@) == string_views(
                p.args@,
            ).map_values(|s: Seq<char>| bare_name(s))
        },
    }
}

fn strip_gitignore(name: &String) -> (r: String)
    ensures
        r@ == bare_name(name@),
{
    let c = chars_of(name.as_str());
    let suffix = chars_of(".gitignore");
    proof {
        reveal_strlit(".gitignore");
    }
    if c.len() >= 10 && chars_at(&c, &suffix, c.len() - 10) {
        proof {
            assert(c@.skip(c.len() - 10) =~= c@.subrange(c.len() - 10, c.len() as int));
            assert(c@.subrange(0, c.len() - 10) =~= c@.take(c.len() - 10));
        }
        string_of(&slice_chars(&c, 0, c.len() - 10))
    } else {
        proof {
            if c.len() >= 10 {
                assert(c@.skip(c.len() - 10) =~= c@.subrange(c.len() - 10, c.len() as int));
            }
        }
        name.clone()
    }
}

impl Command {
    /// What the command comes down to: `add` and `preview` are refused when
    /// no template is named (`add --all` names them all); `preview` takes each
    /// name without a `.gitignore` suffix.
    pub fn execute(&self) -> (r: Result<GitignoreTask, GitignoreCommandError>)
        ensures
            executes_to(self, r),
    {
        match self {
            Command::Add(a) => {
                if !a.all && a.templates.len() == 0 {
                    Err(GitignoreCommandError::NoTemplate)
                } else {
                    Ok(GitignoreTask::Add)
                }
            },
            Command::List(_) => Ok(GitignoreTask::List),
            Command::Preview(p) => {
                if p.args.len() == 0 {
                    return Err(GitignoreCommandError::NoTemplate);
                }
                let mut names: Vec<String> = Vec::new();
                let mut i: usize = 0;
                while i < p.args.len()
                    invariant
                        *self == Command::Preview(*p),
                        i <= p.args@.len(),
                        string_views(names@) == string_views(p.args@.take(i as int)).map_values(
                            |s: Seq<char>| bare_name(s),
                        ),
                    decreases p.args@.len() - i,
                {
                    let n = strip_gitignore(&p.args[i]);
                    let ghost before = names@;
                    names.push(n);
                    proof {
                        assert(string_views(names@) =~= string_views(before).push(n@));
                        assert(string_views(p.args@.take(i + 1)) =~= string_views(
                            p.args@.take(i as int),
                        ).push(p.args@[i as int]@));
                        assert(string_views(names@) =~= string_views(p.args@.take(i + 1)).map_values(
                            |s: Seq<char>| bare_name(s),
                        ));
                    }
                    i = i + 1;
                }
                proof {
                    assert(p.args@.take(i as int) =~= p.args@);
                }
                Ok(GitignoreTask::Preview(names))
            },
        }
    }
}

} // verus!
