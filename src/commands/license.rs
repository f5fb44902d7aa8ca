use vstd::prelude::*;

use crate::license::{param_of, parse_param, LicenseQuery};
use crate::text::{chars_of, lower_of, lowercase, string_of, trim_chars, trim_of};

verus! {

/// `license add`: license ids, an output directory, overwrite, all of them,
/// prompting for placeholders, refreshing the cache, and `KEY=VALUE`
/// placeholder parameters.
#[derive(Debug)]
pub struct AddArgs {
    pub licenses: Vec<String>,
    pub dir: Option<String>,
    pub force: bool,
    pub all: bool,
    pub interactive: bool,
    pub update_cache: bool,
    pub params: Vec<String>,
}

/// `license list`: which licenses to show, and any stray arguments.
#[derive(Debug)]
pub struct ListArgs {
    pub popular: bool,
    pub non_software: bool,
    pub search: Option<String>,
    pub include_deprecated: bool,
    pub update_cache: bool,
    pub args: Vec<String>,
    pub osi_approved: bool,
    pub fsf_libre: bool,
}

/// `license preview`: a license id and the sections to show.
#[derive(Debug)]
pub struct PreviewArgs {
    pub id: String,
    pub description: bool,
    pub permissions: bool,
    pub limitations: bool,
    pub conditions: bool,
    pub details: bool,
    pub update_cache: bool,
}

/// The license commands.
#[derive(Debug)]
pub enum Command {
    Add(AddArgs),
    List(ListArgs),
    Preview(PreviewArgs),
}

/// What to show of a license.
#[derive(Debug, Clone, Copy, PartialEq, Eq, Structural)]
pub struct PreviewSections {
    pub text: bool,
    pub description: bool,
    pub permissions: bool,
    pub limitations: bool,
    pub conditions: bool,
    pub metadata: bool,
}

/// What a license command comes down to.
#[derive(Debug)]
pub enum LicenseTask {
    /// Add these licenses (every active one when `all` is set), filling
    /// placeholders from `params`.
    Add { ids: Vec<String>, all: bool, params: Vec<(String, String)> },
    /// Show the popular licenses, those that `search` matches when given.
    ListPopular { search: Option<String> },
    /// Show the licenses for works other than software.
    ListNonSoftware,
    /// Show the SPDX licenses that the query selects.
    ListAll(LicenseQuery),
    /// Show a license: `id` trimmed and lower-cased, and the sections asked for.
    Preview { id: String, sections: PreviewSections },
}

/// Why a license command was refused.
#[derive(Debug, Clone, Copy, PartialEq, Eq, Structural)]
pub enum LicenseCommandError {
    /// The parameter at this position has no `=`.
    InvalidParam(usize),
    /// No license was named, and `--all` was not given.
    NoLicense,
    /// A stray argument was given to `list`.
    UnknownArgument,
}

/// The sections that the preview flags ask for: the license text when none
/// is set; `details` asks for every other section.
pub open spec fn sections_of(p: &PreviewArgs) -> PreviewSections {
    PreviewSections {
        text: !p.description && !p.permissions && !p.limitations && !p.conditions && !p.details,
        description: p.description || p.details,
        permissions: p.permissions || p.details,
        limitations: p.limitations || p.details,
        conditions: p.conditions || p.details,
        metadata: p.details,
    }
}

fn clone_strings(v: &Vec<String>) -> (r: Vec<String>)
    ensures
        r@ == v@,
{
    let mut r: Vec<String> = Vec::new();
    let mut i: usize = 0;
    while i < v.len()
        invariant
            i <= v.len(),
            r@ == v@.take(i as int),
        decreases v.len() - i,
    {
        r.push(v[i].clone());
        proof {
            assert(r@ =~= v@.take(i + 1));
        }
        i = i + 1;
    }
    proof {
        assert(v@.take(i as int) =~= v@);
    }
    r
}

fn clone_opt(o: &Option<String>) -> (r: Option<String>)
    ensures
        r == *o,
{
    match o {
        Some(s) => Some(s.clone()),
        None => None,
    }
}

/// What the command `c` gives.
pub open spec fn executes_to(c: &Command, r: Result<LicenseTask, LicenseCommandError>) -> bool {
    match c {
        Command::Add(a) => {
            &&& ((exists|k: int|
                0 <= k < a.params@.len() && param_of(#[trigger] a.params@[k]@) is None) ==> r matches Err(
                LicenseCommandError::InvalidParam(_),
            ))
            &&& (r matches Err(LicenseCommandError::InvalidParam(i)) ==> i < a.params@.len()
                && param_of(a.params@[i as int]@) is None && forall|k: int|
                0 <= k < i ==> param_of(#[trigger] a.params@[k]@) is Some)
            &&& ((forall|k: int|
                0 <= k < a.params@.len() ==> param_of(#[trigger] a.params@[k]@) is Some)
                ==> if !a.all && a.licenses@.len() == 0 {
                r == Err::<LicenseTask, LicenseCommandError>(LicenseCommandError::NoLicense)
            } else {
                r matches Ok(LicenseTask::Add { ids, all, params }) && all == a.all && ids@
                    == a.licenses@ && params@.len() == a.params@.len() && forall|k: int|
                    0 <= k < params@.len() ==> param_of(#[trigger] a.params@[k]@) == Some(
                        (params@[k].0@, params@[k].1@),
                    )
            })
        },
        Command::List(l) => if l.args@.len() > 0 {
            r == Err::<LicenseTask, LicenseCommandError>(
                LicenseCommandError::UnknownArgument,
            )
        } else if l.popular {
            r matches Ok(LicenseTask::ListPopular { search }) && search == l.search
        } else if l.non_software {
            r matches Ok(LicenseTask::ListNonSoftware)
        } else {
            r matches Ok(LicenseTask::ListAll(q)) && q.search == l.search
                && q.include_deprecated == l.include_deprecated && q.osi_approved
                == l.osi_approved && q.fsf_libre == l.fsf_libre
        },
        Command::Preview(p) => r matches Ok(LicenseTask::Preview { id, sections }) && id@
            == lower_of(trim_of(p.id@)) && sections == sections_of(p),
    }
}

impl Command {
    /// What the command comes down to. `add` is refused for the first
    /// parameter without `=`, then when no license is named without `--all`;
    /// `list` is refused for a stray argument, and otherwise shows the popular,
    /// the non-software, or the selected SPDX licenses, in that order of
    /// precedence; `preview` names the license and the sections to show.
    pub fn execute(&self) -> (r: Result<LicenseTask, LicenseCommandError>)
        ensures
            executes_to(self, r),
    {
        match self {
            Command::Add(a) => {
                let mut params: Vec<(String, String)> = Vec::new();
                let mut i: usize = 0;
                while i < a.params.len()
                    invariant
                        *self == Command::Add(*a),
                        i <= a.params@.len(),
                        params@.len() == i,
                        forall|k: int|
                            0 <= k < i ==> param_of(#[trigger] a.params@[k]@) == Some(
                                (params@[k].0@, params@[k].1@),
                            ),
                    decreases a.params@.len() - i,
                {
                    match parse_param(a.params[i].as_str()) {
                        Ok(p) => params.push(p),
                        Err(_) => {
                            assert(param_of(a.params@[i as int]@) is None);
                            assert(forall|k: int|
                                0 <= k < i ==> param_of(#[trigger] a.params@[k]@) is Some);
                            assert(!(forall|k: int|
                                0 <= k < a.params@.len() ==> param_of(#[trigger] a.params@[k]@) is Some));
                            return Err(LicenseCommandError::InvalidParam(i));
                        },
                    }
                    i = i + 1;
                }
                if !a.all && a.licenses.len() == 0 {
                    return Err(LicenseCommandError::NoLicense);
                }
                Ok(LicenseTask::Add { ids: clone_strings(&a.licenses), all: a.all, params })
            },
            Command::List(l) => {
                if l.args.len() > 0 {
                    Err(LicenseCommandError::UnknownArgument)
                } else if l.popular {
                    Ok(LicenseTask::ListPopular { search: clone_opt(&l.search) })
                } else if l.non_software {
                    Ok(LicenseTask::ListNonSoftware)
                } else {
                    Ok(
                        LicenseTask::ListAll(
                            LicenseQuery {
                                search: clone_opt(&l.search),
                                include_deprecated: l.include_deprecated,
                                osi_approved: l.osi_approved,
                                fsf_libre: l.fsf_libre,
                            },
                        ),
                    )
                }
            },
            Command::Preview(p) => {
                let trimmed = string_of(&trim_chars(&chars_of(p.id.as_str())));
                let id = lowercase(trimmed.as_str());
                let sections = PreviewSections {
                    text: !p.description && !p.permissions && !p.limitations && !p.conditions
                        && !p.details,
                    description: p.description || p.details,
                    permissions: p.permissions || p.details,
                    limitations: p.limitations || p.details,
                    conditions: p.conditions || p.details,
                    metadata: p.details,
                };
                Ok(LicenseTask::Preview { id, sections })
            },
        }
    }
}

} // verus!
