use vstd::prelude::*;

use crate::commands::{
    concat, concat3, download_views, has_extension, join, path_join_of, opt_str, path_has_extension,
    CommandError, Download, Plan,
};

verus! {

/// Where the issue templates are published.
pub const GITHUB_RAW_BASE: &'static str =
    "https://raw.githubusercontent.com/rafaeljohn9/gh-templates/main/templates";

/// Where issue templates go when no directory is given.
pub const OUTPUT_DIR: &'static str = ".github/ISSUE_TEMPLATE";

/// `issue add`: templates by name, an output directory, overwrite, all of
/// them, and output file names (one per template, when given).
#[derive(Debug)]
pub struct AddArgs {
    pub templates: Vec<String>,
    pub dir: Option<String>,
    pub force: bool,
    pub all: bool,
    pub output: Vec<String>,
}

/// `issue list`.
#[derive(Debug)]
pub struct ListArgs {}

/// `issue preview`: templates by name.
#[derive(Debug)]
pub struct PreviewArgs {
    pub templates: Vec<String>,
}

/// The issue template commands.
#[derive(Debug)]
pub enum Command {
    Add(AddArgs),
    List(ListArgs),
    Preview(PreviewArgs),
}

/// The address of the issue template `name`.
pub open spec fn template_url(name: Seq<char>) -> Seq<char> {
    GITHUB_RAW_BASE@ + "/issue-templates/"@ + name + ".yml"@
}

/// The file that issue template `name` is saved as: the output name given
/// (with `.yml` added when it has no extension), else `name.yml`; in `dir`,
/// or else in the default directory.
pub open spec fn template_dest(name: Seq<char>, output: Option<Seq<char>>, dir: Option<Seq<char>>) -> Seq<
    char,
> {
    let file = match output {
        Some(o) => if path_has_extension(o) {
            o
        } else {
            o + ".yml"@
        },
        None => name + ".yml"@,
    };
    match dir {
        Some(d) => path_join_of(d, file),
        None => path_join_of(OUTPUT_DIR@, file),
    }
}

/// What adding issue template `i` of `a` fetches.
pub open spec fn add_download(a: &AddArgs, i: int) -> (Seq<char>, Seq<char>, bool) {
    let name = a.templates@[i]@;
    let output = if a.output@.len() > 0 {
        Some(a.output@[i]@)
    } else {
        None
    };
    (template_url(name), template_dest(name, output, opt_str(a.dir)), a.force)
}

fn download_for(name: &String, output: Option<&String>, dir: &Option<String>, force: bool) -> (r:
    Download)
    ensures
        r@ == (
            template_url(name@),
            template_dest(
                name@,
                match output {
                    Some(o) => Some(o@),
                    None => None,
                },
                opt_str(*dir),
            ),
            force,
        ),
{
    let url = concat3(GITHUB_RAW_BASE, "/issue-templates/", name.as_str());
    let url = concat(url.as_str(), ".yml");
    let file = match output {
        Some(o) => if has_extension(o.as_str()) {
            o.clone()
        } else {
            concat(o.as_str(), ".yml")
        },
        None => concat(name.as_str(), ".yml"),
    };
    let dest = match dir {
        Some(d) => join(d.as_str(), file.as_str()),
        None => join(OUTPUT_DIR, file.as_str()),
    };
    Download { url, dest, force }
}

/// What the command `c` gives.
pub open spec fn executes_to(c: &Command, r: Result<Plan, CommandError>) -> bool {
    match c {
        Command::Add(a) => if a.all {
            r matches Ok(Plan::FetchAll { manifest_url, dir, force }) && manifest_url@
                == GITHUB_RAW_BASE@ + "/issue-templates/manifest.yml"@ && opt_str(dir)
                == opt_str(a.dir) && force == a.force
        } else if a.templates@.len() == 0 {
            r == Err::<Plan, CommandError>(CommandError::NoTemplate)
        } else if a.output@.len() > 0 && a.output@.len() != a.templates@.len() {
            r == Err::<Plan, CommandError>(CommandError::OutputCountMismatch)
        } else {
            r matches Ok(Plan::Fetch(ds)) && ds@.len() == a.templates@.len() && forall|
                i: int,
            |
                0 <= i < ds@.len() ==> #[trigger] download_views(ds@)[i] == add_download(
                    a,
                    i,
                )
        },
        Command::List(_) => r matches Ok(Plan::List),
        Command::Preview(p) => if p.templates@.len() == 0 {
            r == Err::<Plan, CommandError>(CommandError::NoTemplate)
        } else {
            r matches Ok(Plan::Preview(urls)) && urls@.len() == p.templates@.len()
                && forall|i: int|
                0 <= i < urls@.len() ==> #[trigger] urls@[i]@ == template_url(
                    p.templates@[i]@,
                )
        },
    }
}

impl Command {
    /// What the command comes down to. `add --all` fetches what the manifest
    /// lists; `add` with names fetches each named template, and is refused
    /// without names or with output names that are not one per template;
    /// `preview` shows each named template, and is refused without names.
    pub fn execute(&self) -> (r: Result<Plan, CommandError>)
        ensures
            executes_to(self, r),
    {
        match self {
            Command::Add(a) => {
                if a.all {
                    let manifest_url = concat(GITHUB_RAW_BASE, "/issue-templates/manifest.yml");
                    let dir = match &a.dir {
                        Some(d) => Some(d.clone()),
                        None => None,
                    };
                    return Ok(Plan::FetchAll { manifest_url, dir, force: a.force });
                }
                if a.templates.len() == 0 {
                    return Err(CommandError::NoTemplate);
                }
                if a.output.len() > 0 && a.output.len() != a.templates.len() {
                    return Err(CommandError::OutputCountMismatch);
                }
                let mut ds: Vec<Download> = Vec::new();
                let mut i: usize = 0;
                while i < a.templates.len()
                    invariant
                        i <= a.templates@.len(),
                        a.output@.len() == 0 || a.output@.len() == a.templates@.len(),
                        ds@.len() == i,
                        forall|k: int|
                            0 <= k < i ==> #[trigger] download_views(ds@)[k] == add_download(a, k),
                    decreases a.templates@.len() - i,
                {
                    let output = if a.output.len() > 0 {
                        Some(&a.output[i])
                    } else {
                        None
                    };
                    let d = download_for(&a.templates[i], output, &a.dir, a.force);
                    let ghost dv = d@;
                    let ghost before = ds@;
                    ds.push(d);
                    proof {
                        assert(dv == add_download(a, i as int));
                        assert(download_views(ds@) =~= download_views(before).push(dv));
                        assert forall|k: int| 0 <= k <= i implies #[trigger] download_views(ds@)[k]
                            == add_download(a, k) by {
                            if k < i {
                                assert(download_views(ds@)[k] == download_views(before)[k]);
                            }
                        }
                    }
                    i = i + 1;
                }
                Ok(Plan::Fetch(ds))
            },
            Command::List(_) => Ok(Plan::List),
            Command::Preview(p) => {
                if p.templates.len() == 0 {
                    return Err(CommandError::NoTemplate);
                }
                let mut urls: Vec<String> = Vec::new();
                let mut i: usize = 0;
                while i < p.templates.len()
                    invariant
                        i <= p.templates@.len(),
                        urls@.len() == i,
                        forall|k: int|
                            0 <= k < i ==> #[trigger] urls@[k]@ == template_url(p.templates@[k]@),
                    decreases p.templates@.len() - i,
                {
                    let url = concat3(GITHUB_RAW_BASE, "/issue-templates/", p.templates[i].as_str());
                    urls.push(concat(url.as_str(), ".yml"));
                    i = i + 1;
                }
                Ok(Plan::Preview(urls))
            },
        }
    }
}

} // verus!
