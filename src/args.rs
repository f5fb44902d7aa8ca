use vstd::prelude::*;

use crate::text::{chars_of, same_chars, string_views};

verus! {

/// What a template command was asked for: the names, an output directory,
/// and the `--all` and `--force` switches.
#[derive(Debug)]
pub struct TemplateArgs {
    pub names: Vec<String>,
    pub dir: Option<String>,
    pub all: bool,
    pub force: bool,
}

/// Why a list of template arguments was refused.
#[derive(Debug, Clone, Copy, PartialEq, Eq, Structural)]
pub enum ArgsError {
    /// `--dir` came last, with no path after it.
    MissingDirectory,
}

impl ArgsError {
    /// The message shown for the error.
    pub fn message(&self) -> (r: String)
        ensures
            r@ == "Expected a directory path after `--dir`"@,
    {
        String::from_str("Expected a directory path after `--dir`")
    }
}

/// The parsed arguments as plain values: names, directory, `--all`, `--force`.
pub type ArgsModel = (Seq<Seq<char>>, Option<Seq<char>>, bool, bool);

/// The view of an optional string.
pub open spec fn opt_view(o: Option<String>) -> Option<Seq<char>> {
    match o {
        Some(s) => Some(s@),
        None => None,
    }
}

/// Reads the arguments from position `i` on into `acc`: `--dir` takes the
/// next argument as the directory (a later one wins), `--all` and `--force`
/// (or `-f`) set their switch, and anything else is a name. `None` when
/// `--dir` comes last.
pub open spec fn parse_from(args: Seq<Seq<char>>, i: int, acc: ArgsModel) -> Option<ArgsModel>
    decreases args.len() - i,
{
    if i < 0 || i >= args.len() {
        Some(acc)
    } else if args[i] == "--dir"@ {
        if i + 1 < args.len() {
            parse_from(args, i + 2, (acc.0, Some(args[i + 1]), acc.2, acc.3))
        } else {
            None
        }
    } else if args[i] == "--all"@ {
        parse_from(args, i + 1, (acc.0, acc.1, true, acc.3))
    } else if args[i] == "--force"@ || args[i] == "-f"@ {
        parse_from(args, i + 1, (acc.0, acc.1, acc.2, true))
    } else {
        parse_from(args, i + 1, (acc.0.push(args[i]), acc.1, acc.2, acc.3))
    }
}

/// The meaning of a whole argument list.
pub open spec fn parse_spec(args: Seq<Seq<char>>) -> Option<ArgsModel> {
    parse_from(args, 0, (Seq::empty(), None, false, false))
}

impl TemplateArgs {
    /// The arguments as plain values.
    pub open spec fn model(&self) -> ArgsModel {
        (string_views(self.names@), opt_view(self.dir), self.all, self.force)
    }
}

/// Splits template arguments into names, `--dir <path>`, `--all` and
/// `--force` / `-f`.
pub fn parse_template_args(args: &[String]) -> (r: Result<TemplateArgs, ArgsError>)
    ensures
        match r {
            Ok(ta) => parse_spec(string_views(args@)) == Some(ta.model()),
            Err(e) => parse_spec(string_views(args@)) is None && e == ArgsError::MissingDirectory,
        },
{
    let ghost a = string_views(args@);
    let dir_flag = chars_of("--dir");
    let all_flag = chars_of("--all");
    let force_flag = chars_of("--force");
    let force_short = chars_of("-f");
    let mut names: Vec<String> = Vec::new();
    let mut dir: Option<String> = None;
    let mut all = false;
    let mut force = false;
    let mut i: usize = 0;
    proof {
        assert(string_views(names@) =~= Seq::<Seq<char>>::empty());
    }
    while i < args.len()
        invariant
            i <= args.len(),
            a == string_views(args@),
            dir_flag@ == "--dir"@,
            all_flag@ == "--all"@,
            force_flag@ == "--force"@,
            force_short@ == "-f"@,
            parse_spec(a) == parse_from(
                a,
                i as int,
                (string_views(names@), opt_view(dir), all, force),
            ),
        decreases args.len() - i,
    {
        let tok = chars_of(args[i].as_str());
        assert(a[i as int] == args@[i as int]@);
        if same_chars(&tok, &dir_flag) {
            if i + 1 < args.len() {
                dir = Some(args[i + 1].clone());
                i = i + 2;
            } else {
                return Err(ArgsError::MissingDirectory);
            }
        } else if same_chars(&tok, &all_flag) {
            all = true;
            i = i + 1;
        } else if same_chars(&tok, &force_flag) || same_chars(&tok, &force_short) {
            force = true;
            i = i + 1;
        } else {
            let ghost before = names@;
            names.push(args[i].clone());
            proof {
                assert(string_views(names@) =~= string_views(before).push(a[i as int]));
            }
            i = i + 1;
        }
    }
    Ok(TemplateArgs { names, dir, all, force })
}

} // verus!
