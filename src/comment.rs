use vstd::prelude::*;

use crate::text::{
    chars_of, find_chars, find_first, occurs_at, same_chars, slice_chars, string_of, trim_chars, trim_of,
};

verus! {

/// The text between the first `open` and the first `close` of `c`, trimmed;
/// `None` when either is missing or the close does not come after the open.
pub open spec fn block_comment(c: Seq<char>, open: Seq<char>, close: Seq<char>) -> Option<
    Seq<char>,
> {
    match (find_first(c, open), find_first(c, close)) {
        (Some(s), Some(e)) => if s + open.len() <= e {
            Some(trim_of(c.subrange(s + open.len(), e)))
        } else {
            None
        },
        _ => None,
    }
}

/// The text after the first `marker` of `c`, trimmed.
pub open spec fn line_comment(c: Seq<char>, marker: Seq<char>) -> Option<Seq<char>> {
    match find_first(c, marker) {
        Some(s) => Some(trim_of(c.skip(s + marker.len()))),
        None => None,
    }
}

/// Whether files with extension `ext` use C-like comments.
pub open spec fn c_like(ext: Seq<char>) -> bool {
    ext == "rs"@ || ext == "c"@ || ext == "cpp"@ || ext == "js"@ || ext == "ts"@ || ext
        == "java"@
}

/// Whether files with extension `ext` use `#` comments.
pub open spec fn hash_like(ext: Seq<char>) -> bool {
    ext == "yml"@ || ext == "py"@ || ext == "sh"@ || ext == "rb"@
}

/// Whether files with extension `ext` use HTML comments.
pub open spec fn html_like(ext: Seq<char>) -> bool {
    ext == "md"@ || ext == "html"@
}

/// The comment that `content` holds, by the comment syntax of `ext`.
pub open spec fn comment_of(content: Seq<char>, ext: Seq<char>) -> Option<Seq<char>> {
    if c_like(ext) {
        match block_comment(content, "/*"@, "*/"@) {
            Some(b) => Some(b),
            None => line_comment(content, "//"@),
        }
    } else if hash_like(ext) {
        line_comment(content, "#"@)
    } else if html_like(ext) {
        block_comment(content, "<!--"@, "-->"@)
    } else {
        None
    }
}

fn is_one_of(e: &Vec<char>, names: &Vec<&str>) -> (r: bool)
    ensures
        r == exists|i: int| 0 <= i < names.len() && e@ == names@[i]@,
{
    let mut i: usize = 0;
    while i < names.len()
        invariant
            i <= names.len(),
            forall|j: int| 0 <= j < i ==> e@ != names@[j]@,
        decreases names.len() - i,
    {
        let n = chars_of(names[i]);
        if same_chars(e, &n) {
            return true;
        }
        i = i + 1;
    }
    false
}

fn block(c: &Vec<char>, open: &str, close: &str) -> (r: Option<Vec<char>>)
    ensures
        match r {
            Some(v) => block_comment(c@, open@, close@) == Some(v@),
            None => block_comment(c@, open@, close@) is None,
        },
{
    let o = chars_of(open);
    let cl = chars_of(close);
    match (find_chars(c, &o), find_chars(c, &cl)) {
        (Some(s), Some(e)) => {
            if o.len() <= e && s <= e - o.len() {
                let inner = slice_chars(c, s + o.len(), e);
                Some(trim_chars(&inner))
            } else {
                None
            }
        },
        _ => None,
    }
}

fn line(c: &Vec<char>, marker: &str) -> (r: Option<Vec<char>>)
    ensures
        match r {
            Some(v) => line_comment(c@, marker@) == Some(v@),
            None => line_comment(c@, marker@) is None,
        },
{
    let m = chars_of(marker);
    match find_chars(c, &m) {
        Some(s) => {
            assert(occurs_at(c@, m@, s as int));
            let ml = m.len();
            assert(s + ml <= c.len());
            let rest = slice_chars(c, s + ml, c.len());
            proof {
                assert(rest@ =~= c@.skip(s + m.len()));
            }
            Some(trim_chars(&rest))
        },
        None => None,
    }
}

/// The comment on a template's first line, read by the comment syntax of the
/// file extension `ext`: `/* */` or `//` for C-like sources, `#` for YAML and
/// scripts, `<!-- -->` for Markdown and HTML. A block comment counts only when
/// its close comes after its open.
pub fn extract_comment(content: &str, ext: &str) -> (r: Option<String>)
    ensures
        match r {
            Some(s) => comment_of(content@, ext@) == Some(s@),
            None => comment_of(content@, ext@) is None,
        },
{
    let c = chars_of(content);
    let e = chars_of(ext);
    let found = if is_one_of(&e, &vec!["rs", "c", "cpp", "js", "ts", "java"]) {
        match block(&c, "/*", "*/") {
            Some(b) => Some(b),
            None => line(&c, "//"),
        }
    } else if is_one_of(&e, &vec!["yml", "py", "sh", "rb"]) {
        line(&c, "#")
    } else if is_one_of(&e, &vec!["md", "html"]) {
        block(&c, "<!--", "-->")
    } else {
        None
    };
    match found {
        Some(v) => Some(string_of(&v)),
        None => None,
    }
}

} // verus!
