use vstd::multiset::Multiset;
use vstd::prelude::*;

use crate::cache::{Cache, CacheEntry};
use crate::license::key_like_from;
use crate::manifest::{lemma_seq_lt_irreflexive, lemma_seq_lt_transitive, name_lt, seq_lt};
use crate::commands::{concat, concat3, join, path_join_of, last_index_before};
use crate::manifest::ends_with;
use crate::text::{chars_at, chars_of, lower_of, lowercase, occurs_at, slice_chars, string_of};

verus! {

/// The group of a gitignore template by its path in the template
/// repository: `Global/...` is global, `community/...` is community, the
/// rest is popular.
pub open spec fn category_of(path: Seq<char>) -> Seq<char> {
    if occurs_at(path, "Global/"@, 0) {
        "global"@
    } else if occurs_at(path, "community/"@, 0) {
        "community"@
    } else {
        "popular"@
    }
}

/// The group of a gitignore template by its path in the template repository.
pub fn determine_category(path: &str) -> (r: String)
    ensures
        r@ == category_of(path@),
{
    let p = chars_of(path);
    if chars_at(&p, &chars_of("Global/"), 0) {
        String::from_str("global")
    } else if chars_at(&p, &chars_of("community/"), 0) {
        String::from_str("community")
    } else {
        String::from_str("popular")
    }
}

/// A gitignore template as the listing shows it.
#[derive(Debug)]
pub struct GitIgnoreTemplate {
    pub name: String,
    pub path: String,
    pub category: String,
}

impl View for GitIgnoreTemplate {
    type V = (Seq<char>, Seq<char>, Seq<char>);

    open spec fn view(&self) -> Self::V {
        (self.name@, self.path@, self.category@)
    }
}

/// The views of a sequence of templates.
pub open spec fn template_views(s: Seq<GitIgnoreTemplate>) -> Seq<(Seq<char>, Seq<char>, Seq<char>)> {
    s.map_values(|t: GitIgnoreTemplate| t@)
}

/// Whether the listing shows the group `cat`: popular ones when asked for or
/// when no group is asked for, the others when asked for.
pub open spec fn group_shown(cat: Seq<char>, popular: bool, global: bool, community: bool) -> bool {
    if cat == "popular"@ {
        popular || (!global && !community)
    } else if cat == "global"@ {
        global
    } else {
        cat == "community"@ && community
    }
}

/// The templates of the cache entries `e` that the listing shows, in order.
pub open spec fn templates_shown(
    e: Seq<(String, CacheEntry<String>)>,
    popular: bool,
    global: bool,
    community: bool,
) -> Seq<(Seq<char>, Seq<char>, Seq<char>)>
    decreases e.len(),
{
    if e.len() == 0 {
        Seq::empty()
    } else {
        let rest = templates_shown(e.drop_last(), popular, global, community);
        let path = e.last().1.data@;
        if group_shown(category_of(path), popular, global, community) {
            rest.push((e.last().0@, path, category_of(path)))
        } else {
            rest
        }
    }
}

/// Whether the templates are in the order of their names.
pub open spec fn sorted_by_name(s: Seq<(Seq<char>, Seq<char>, Seq<char>)>) -> bool {
    forall|i: int, j: int| 0 <= i < j < s.len() ==> !seq_lt(s[j].0, s[i].0)
}

fn same(a: &String, b: &str) -> (r: bool)
    ensures
        r == (a@ == b@),
{
    *a == String::from_str(b)
}

/// The templates of `cache` (name to path) in the groups asked for, by name.
pub fn filter_templates(cache: &Cache<String>, popular: bool, global: bool, community: bool) -> (r:
    Vec<GitIgnoreTemplate>)
    ensures
        template_views(r@).to_multiset() == templates_shown(
            cache.entries@,
            popular,
            global,
            community,
        ).to_multiset(),
        sorted_by_name(template_views(r@)),
{
    broadcast use vstd::seq_lib::group_to_multiset_ensures;

    let ghost all = templates_shown(cache.entries@, popular, global, community).to_multiset();
    let mut r: Vec<GitIgnoreTemplate> = Vec::new();
    let mut n: usize = cache.entries.len();
    proof {
        assert(template_views(r@) =~= Seq::empty());
        assert(template_views(r@).to_multiset() =~= Multiset::empty());
        assert(cache.entries@.take(n as int) =~= cache.entries@);
    }
    while n > 0
        invariant
            n <= cache.entries@.len(),
            template_views(r@).to_multiset().add(
                templates_shown(cache.entries@.take(n as int), popular, global, community).to_multiset(),
            ) == all,
            sorted_by_name(template_views(r@)),
        decreases n,
    {
        let ghost before = cache.entries@.take(n as int);
        let ghost after = cache.entries@.take(n - 1);
        proof {
            assert(before.drop_last() =~= after);
            assert(before.last() == cache.entries@[n - 1]);
        }
        let entry = &cache.entries[n - 1];
        let category = determine_category(entry.1.data.as_str());
        let show = if same(&category, "popular") {
            popular || (!global && !community)
        } else if same(&category, "global") {
            global
        } else {
            same(&category, "community") && community
        };
        if show {
            let e = GitIgnoreTemplate {
                name: entry.0.clone(),
                path: entry.1.data.clone(),
                category,
            };
            let eid = chars_of(e.name.as_str());
            let mut pos: usize = 0;
            while pos < r.len() && !name_lt(&eid, &chars_of(r[pos].name.as_str()))
                invariant
                    pos <= r.len(),
                    eid@ == e.name@,
                    forall|k: int| 0 <= k < pos ==> !seq_lt(e.name@, #[trigger] r@[k].name@),
                decreases r.len() - pos,
            {
                pos = pos + 1;
            }
            let ghost rb = template_views(r@);
            let ghost ev = e@;
            r.insert(pos, e);
            proof {
                let rv = template_views(r@);
                assert(rv =~= rb.insert(pos as int, ev));
                assert(rv.remove(pos as int) =~= rb);
                rv.to_multiset_ensures();
                assert(rv[pos as int] == ev);
                assert(rv.contains(ev));
                assert(rv.to_multiset() =~= rb.to_multiset().insert(ev));
                let sl = templates_shown(after, popular, global, community);
                sl.to_multiset_ensures();
                assert(templates_shown(before, popular, global, community) == sl.push(ev));
                assert(rv.to_multiset().add(sl.to_multiset()) =~= all);
                assert forall|i: int, j: int| 0 <= i < j < rv.len() implies !seq_lt(
                    rv[j].0,
                    rv[i].0,
                ) by {
                    if i < pos && j == pos {
                        assert(rv[i] == rb[i]);
                        assert(r@[i]@ == rb[i]);
                    } else if i == pos && j > pos {
                        assert(rv[j] == rb[j - 1]);
                        lemma_seq_lt_irreflexive(ev.0);
                        if pos < rb.len() {
                            assert(seq_lt(ev.0, rb[pos as int].0));
                            if seq_lt(rb[j - 1].0, ev.0) {
                                lemma_seq_lt_transitive(rb[j - 1].0, ev.0, rb[pos as int].0);
                                if j - 1 > pos {
                                    assert(!seq_lt(rb[j - 1].0, rb[pos as int].0));
                                } else {
                                    lemma_seq_lt_irreflexive(rb[pos as int].0);
                                }
                            }
                        }
                    } else if i < pos && j > pos {
                        assert(rv[i] == rb[i] && rv[j] == rb[j - 1]);
                    } else if i > pos {
                        assert(rv[i] == rb[i - 1] && rv[j] == rb[j - 1]);
                    } else {
                        assert(rv[i] == rb[i] && rv[j] == rb[j]);
                    }
                }
            }
        } else {
            proof {
                assert(templates_shown(before, popular, global, community) == templates_shown(
                    after,
                    popular,
                    global,
                    community,
                ));
            }
        }
        n = n - 1;
    }
    proof {
        assert(cache.entries@.take(0) =~= Seq::empty());
        assert(templates_shown(cache.entries@.take(0), popular, global, community).to_multiset()
            =~= Multiset::empty());
        assert(template_views(r@).to_multiset() =~= all);
    }
    r
}

/// The key that the template at `path` is cached under: the path without
/// its `.gitignore` suffix, lower-cased; `None` for other files.
pub open spec fn key_of_path(path: Seq<char>) -> Option<Seq<char>> {
    if ends_with(path, ".gitignore"@) {
        Some(lower_of(path.take(path.len() - 10)))
    } else {
        None
    }
}

/// The key that the template at `path` in the template repository is cached
/// under (`Global/Windows.gitignore` is `global/windows`).
pub fn template_key(path: &str) -> (r: Option<String>)
    ensures
        match r {
            Some(k) => key_of_path(path@) == Some(k@),
            None => key_of_path(path@) is None,
        },
{
    let p = chars_of(path);
    let suffix = chars_of(".gitignore");
    proof {
        reveal_strlit(".gitignore");
    }
    if p.len() >= 10 && chars_at(&p, &suffix, p.len() - 10) {
        proof {
            assert(p@.skip(p.len() - 10) =~= p@.subrange(p.len() - 10, p.len() as int));
        }
        let stem = string_of(&slice_chars(&p, 0, p.len() - 10));
        proof {
            assert(p@.subrange(0, p.len() - 10) =~= p@.take(p.len() - 10));
        }
        Some(lowercase(stem.as_str()))
    } else {
        proof {
            if p.len() >= 10 {
                assert(p@.skip(p.len() - 10) =~= p@.subrange(p.len() - 10, p.len() as int));
            }
        }
        None
    }
}

/// Why a template could not be found.
#[derive(Debug, Clone, Copy, PartialEq, Eq, Structural)]
pub enum TemplateError {
    /// No template of that name is cached.
    NotFound,
}

/// The path of the template named `name` (case aside) in `cache`.
pub fn find_template_in_cache(name: &str, cache: &Cache<String>) -> (r: Result<String, TemplateError>)
    ensures
        match r {
            Ok(p) => key_like_from(cache.entries@, lower_of(name@), 0) matches Some(i)
                && cache.entries@[i].1.data@ == p@,
            Err(e) => key_like_from(cache.entries@, lower_of(name@), 0) is None && e
                == TemplateError::NotFound,
        },
{
    let low = crate::text::lowercase(name);
    let mut i: usize = 0;
    while i < cache.entries.len()
        invariant
            i <= cache.entries@.len(),
            low@ == lower_of(name@),
            key_like_from(cache.entries@, low@, 0) == key_like_from(
                cache.entries@,
                low@,
                i as int,
            ),
        decreases cache.entries@.len() - i,
    {
        let k = crate::text::lowercase(cache.entries[i].0.as_str());
        if k == low {
            return Ok(cache.entries[i].1.data.clone());
        }
        i = i + 1;
    }
    Err(TemplateError::NotFound)
}

} // verus!

verus! {

/// Where the gitignore templates are published.
pub const GITHUB_RAW_BASE: &'static str = "https://raw.githubusercontent.com/github/gitignore/main";

/// What `Path::file_name` gives for a path.
pub uninterp spec fn path_file_name(path: Seq<char>) -> Option<Seq<char>>;

/// What follows the last `/` of a path (all of it when it has none).
pub open spec fn tail_of(path: Seq<char>) -> Seq<char> {
    match last_index_before(path, '/', path.len() as int) {
        Some(i) => path.skip(i + 1),
        None => path,
    }
}

/// The file name of a template path (empty when it has none).
pub open spec fn file_name_of(path: Seq<char>) -> Seq<char> {
    match path_file_name(path) {
        Some(n) => n,
        None => Seq::empty(),
    }
}

/// Whether the template named `name` is cached under a path that has a file name.
pub open spec fn has_file_name(cache: Cache<String>, name: Seq<char>) -> bool {
    match path_of(cache, name) {
        Some(p) => path_file_name(p) is Some,
        None => false,
    }
}

/// The address of the template at `path`.
pub open spec fn raw_url(path: Seq<char>) -> Seq<char> {
    GITHUB_RAW_BASE@ + "/"@ + path
}

/// The block that a template takes in a written file: a header line
/// naming it, its text, and a blank line.
pub open spec fn section_of(label: Seq<char>, content: Seq<char>) -> Seq<char> {
    "# ===== "@ + label + " =====\n"@ + content + "\n\n"@
}

/// The block that a template takes in a written file.
pub fn section(label: &str, content: &str) -> (r: String)
    ensures
        r@ == section_of(label@, content@),
{
    let head = concat3("# ===== ", label, " =====\n");
    concat3(head.as_str(), content, "\n\n")
}

/// One file to write: where, the templates that go in it (the label of each
/// block and the address of its text), and whether to add to an existing
/// file or to overwrite one.
#[derive(Debug)]
pub struct GitignoreWrite {
    pub dest: String,
    pub sections: Vec<(String, String)>,
    pub append: bool,
    pub force: bool,
}

/// The plain values of a write.
pub open spec fn write_view(w: GitignoreWrite) -> (Seq<char>, Seq<(Seq<char>, Seq<char>)>, bool, bool) {
    (w.dest@, crate::text::pairs_view(w.sections@), w.append, w.force)
}

/// The plain values of a sequence of writes.
pub open spec fn write_views(s: Seq<GitignoreWrite>) -> Seq<(Seq<char>, Seq<(Seq<char>, Seq<char>)>, bool, bool)> {
    s.map_values(|w: GitignoreWrite| write_view(w))
}

/// Why a set of gitignore templates could not be planned.
#[derive(Debug, Clone, Copy, PartialEq, Eq, Structural)]
pub enum PlanError {
    /// No template was named.
    NoTemplate,
    /// The template at this position of the request is not cached.
    NotFound(usize),
    /// Output names were given, neither one nor one per template.
    OutputCount,
    /// The template at this position is cached under a path with no file name.
    InvalidPath(usize),
}

/// Relies on `Path::file_name`: the last component of the path, when it is
/// a name. With Unix separators, a path whose part after its last `/` is
/// neither empty nor `.` nor `..` has that part as its file name.
#[verifier::external_body]
fn file_name(path: &str) -> (r: Option<String>)
    ensures
        match r {
            Some(n) => path_file_name(path@) == Some(n@),
            None => path_file_name(path@) is None,
        },
        tail_of(path@).len() > 0 && tail_of(path@) != "."@ && tail_of(path@) != ".."@ ==> r is Some
            && r->0@ == tail_of(path@),
{
    std::path::Path::new(path).file_name().map(|n| n.to_string_lossy().into_owned())
}

/// The cached path of the template named `name`, case aside.
pub open spec fn path_of(cache: Cache<String>, name: Seq<char>) -> Option<Seq<char>> {
    match key_like_from(cache.entries@, lower_of(name), 0) {
        Some(j) => if 0 <= j < cache.entries@.len() {
            Some(cache.entries@[j].1.data@)
        } else {
            None
        },
        None => None,
    }
}

proof fn lemma_key_like_bounds<T>(e: Seq<(String, CacheEntry<T>)>, low: Seq<char>, m: int)
    requires
        0 <= m,
    ensures
        key_like_from(e, low, m) matches Some(j) ==> m <= j < e.len(),
    decreases e.len() - m,
{
    if m < e.len() {
        lemma_key_like_bounds(e, low, m + 1);
    }
}

/// Whether `paths` are the cached paths of `names`, one for one (names
/// matched to keys case aside).
pub open spec fn resolved(cache: Cache<String>, names: Seq<String>, paths: Seq<String>) -> bool {
    &&& paths.len() == names.len()
    &&& forall|i: int| 0 <= i < names.len() ==> path_of(cache, names[i]@) == Some(#[trigger] paths[i]@)
}

/// The writes of `gitignore add` for `names`, whose cached paths are `paths`:
/// with remote names, each template goes to a file named as in the template
/// repository; with one output name per template, each goes to its own; with
/// a single output name, all go to that one, in order; any other number of
/// output names is refused. Each file lands in `dir`.
pub open spec fn add_writes(
    names: Seq<String>,
    paths: Seq<String>,
    output: Seq<String>,
    dir: Seq<char>,
    use_remote_name: bool,
    append: bool,
    force: bool,
) -> Option<Seq<(Seq<char>, Seq<(Seq<char>, Seq<char>)>, bool, bool)>> {
    if use_remote_name {
        Some(
            Seq::new(
                names.len(),
                |i: int|
                    (
                        path_join_of(dir, file_name_of(paths[i]@)),
                        seq![(file_name_of(paths[i]@), raw_url(paths[i]@))],
                        append,
                        force,
                    ),
            ),
        )
    } else if output.len() == names.len() {
        Some(
            Seq::new(
                names.len(),
                |i: int|
                    (
                        path_join_of(dir, output[i]@),
                        seq![(names[i]@ + ".gitignore"@, raw_url(paths[i]@))],
                        append,
                        force,
                    ),
            ),
        )
    } else if output.len() == 1 {
        Some(
            seq![
                (
                    path_join_of(dir, output[0]@),
                    Seq::new(
                        names.len(),
                        |i: int| (names[i]@ + ".gitignore"@, raw_url(paths[i]@)),
                    ),
                    append,
                    force,
                ),
            ],
        )
    } else {
        None
    }
}

/// What `gitignore add` writes for the templates `names` (looked up in
/// `cache`, case aside) into `dir`. Refused without names, for a name that is
/// not cached (the first such one), and for a number of output names that is
/// neither one nor one per template.
pub fn plan_add(
    cache: &Cache<String>,
    names: &Vec<String>,
    output: &Vec<String>,
    dir: &str,
    use_remote_name: bool,
    append: bool,
    force: bool,
) -> (r: Result<Vec<GitignoreWrite>, PlanError>)
    ensures
        (r == Err::<Vec<GitignoreWrite>, PlanError>(PlanError::NoTemplate)) <==> names@.len() == 0,
        names@.len() > 0 && !use_remote_name && output@.len() != names@.len() && output@.len() != 1
            ==> r == Err::<Vec<GitignoreWrite>, PlanError>(PlanError::OutputCount),
        r matches Err(PlanError::NotFound(i)) ==> i < names@.len() && path_of(
            *cache,
            names@[i as int]@,
        ) is None && (use_remote_name || output@.len() == names@.len() || output@.len() == 1)
            && forall|k: int| 0 <= k < i ==> path_of(*cache, #[trigger] names@[k]@) is Some,
        r matches Err(PlanError::OutputCount) ==> !use_remote_name && output@.len() != names@.len()
            && output@.len() != 1,
        r matches Err(PlanError::InvalidPath(i)) ==> use_remote_name && i < names@.len() && path_of(
            *cache,
            names@[i as int]@,
        ) is Some && !has_file_name(*cache, names@[i as int]@),
        r matches Ok(ws) ==> exists|paths: Seq<String>|
            resolved(*cache, names@, paths) && add_writes(
                names@,
                paths,
                output@,
                dir@,
                use_remote_name,
                append,
                force,
            ) == Some(write_views(ws@)),
        names@.len() > 0 && (forall|i: int|
            0 <= i < names@.len() ==> path_of(*cache, names@[i]@) is Some) && (use_remote_name
            ==> forall|i: int| 0 <= i < names@.len() ==> has_file_name(*cache, #[trigger] names@[i]@))
            && (use_remote_name || output@.len() == names@.len() || output@.len() == 1) ==> r is Ok,
{
    if names.len() == 0 {
        return Err(PlanError::NoTemplate);
    }
    if !use_remote_name && output.len() != names.len() && output.len() != 1 {
        return Err(PlanError::OutputCount);
    }
    let mut paths: Vec<String> = Vec::new();
    let mut i: usize = 0;
    while i < names.len()
        invariant
            i <= names@.len(),
            names@.len() > 0,
            use_remote_name || output@.len() == names@.len() || output@.len() == 1,
            paths@.len() == i,
            forall|k: int| 0 <= k < i ==> path_of(*cache, names@[k]@) == Some(#[trigger] paths@[k]@),
        decreases names@.len() - i,
    {
        let ghost before = paths@;
        match find_template_in_cache(names[i].as_str(), cache) {
            Ok(p) => paths.push(p),
            Err(_) => {
                assert forall|k: int| 0 <= k < i implies path_of(*cache, #[trigger] names@[k]@) is Some by {
                    assert(path_of(*cache, names@[k]@) == Some(paths@[k]@));
                }
                return Err(PlanError::NotFound(i));
            },
        }
        proof {
            lemma_key_like_bounds(cache.entries@, lower_of(names@[i as int]@), 0);
            assert(path_of(*cache, names@[i as int]@) == Some(paths@[i as int]@));
            assert forall|k: int| 0 <= k <= i implies path_of(*cache, names@[k]@) == Some(
                #[trigger] paths@[k]@,
            ) by {
                if k < i {
                    assert(paths@[k] == before[k]);
                }
            }
        }
        i = i + 1;
    }
    assert(resolved(*cache, names@, paths@));
    let mut ws: Vec<GitignoreWrite> = Vec::new();
    if use_remote_name || output.len() == names.len() {
        let mut k: usize = 0;
        while k < names.len()
            invariant
                k <= names@.len(),
                paths@.len() == names@.len(),
                resolved(*cache, names@, paths@),
                use_remote_name || output@.len() == names@.len(),
                ws@.len() == k,
                forall|m: int|
                    0 <= m < k ==> #[trigger] write_views(ws@)[m] == add_writes(
                        names@,
                        paths@,
                        output@,
                        dir@,
                        use_remote_name,
                        append,
                        force,
                    )->0[m],
            decreases names@.len() - k,
        {
            let url = concat3(GITHUB_RAW_BASE, "/", paths[k].as_str());
            let (dest, label) = if use_remote_name {
                let f = match file_name(paths[k].as_str()) {
                    Some(f) => f,
                    None => {
                        assert(path_of(*cache, names@[k as int]@) == Some(paths@[k as int]@));
                        return Err(PlanError::InvalidPath(k));
                    },
                };
                (join(dir, f.as_str()), f)
            } else {
                (join(dir, output[k].as_str()), concat(names[k].as_str(), ".gitignore"))
            };
            let ghost lv = label@;
            let ghost uv = url@;
            let ghost before = ws@;
            ws.push(GitignoreWrite { dest, sections: vec![(label, url)], append, force });
            proof {
                assert(crate::text::pairs_view(ws@[k as int].sections@) =~= seq![(lv, uv)]);
                assert forall|m: int| 0 <= m <= k implies #[trigger] write_views(ws@)[m]
                    == add_writes(names@, paths@, output@, dir@, use_remote_name, append, force)->0[m] by {
                    if m < k {
                        assert(ws@[m] == before[m]);
                        assert(write_views(before)[m] == write_views(ws@)[m]);
                    }
                }
            }
            k = k + 1;
        }
        proof {
            let expect = add_writes(names@, paths@, output@, dir@, use_remote_name, append, force)->0;
            assert(write_views(ws@) =~= expect);
        }
        Ok(ws)
    } else {
        let mut sections: Vec<(String, String)> = Vec::new();
        let mut k: usize = 0;
        while k < names.len()
            invariant
                k <= names@.len(),
                paths@.len() == names@.len(),
                sections@.len() == k,
                forall|m: int|
                    0 <= m < k ==> #[trigger] crate::text::pairs_view(sections@)[m] == (
                        names@[m]@ + ".gitignore"@,
                        raw_url(paths@[m]@),
                    ),
            decreases names@.len() - k,
        {
            let url = concat3(GITHUB_RAW_BASE, "/", paths[k].as_str());
            let label = concat(names[k].as_str(), ".gitignore");
            let ghost before = sections@;
            let ghost lv = label@;
            let ghost uv = url@;
            sections.push((label, url));
            proof {
                assert(crate::text::pairs_view(sections@)[k as int] == (lv, uv));
                assert forall|m: int| 0 <= m <= k implies #[trigger] crate::text::pairs_view(
                    sections@,
                )[m] == (names@[m]@ + ".gitignore"@, raw_url(paths@[m]@)) by {
                    if m < k {
                        assert(sections@[m] == before[m]);
                        assert(crate::text::pairs_view(before)[m] == crate::text::pairs_view(
                            sections@,
                        )[m]);
                    }
                }
            }
            k = k + 1;
        }
        let dest = join(dir, output[0].as_str());
        ws.push(GitignoreWrite { dest, sections, append, force });
        proof {
            let expect = add_writes(names@, paths@, output@, dir@, use_remote_name, append, force)->0;
            assert(crate::text::pairs_view(ws@[0].sections@) =~= expect[0].1);
            assert(write_views(ws@) =~= expect);
        }
        Ok(ws)
    }
}

/// The writes of `gitignore add --all`: with remote names, each cached
/// template goes to its own file named as in the template repository, over
/// any file there when `force` is set; else all of them go into one
/// `.gitignore` in cache order, added to an existing one unless `force` is
/// set. Each file lands in `dir`.
pub open spec fn all_writes(
    e: Seq<(String, CacheEntry<String>)>,
    dir: Seq<char>,
    use_remote_name: bool,
    force: bool,
) -> Seq<(Seq<char>, Seq<(Seq<char>, Seq<char>)>, bool, bool)> {
    if use_remote_name {
        Seq::new(
            e.len(),
            |i: int|
                (
                    path_join_of(dir, file_name_of(e[i].1.data@)),
                    seq![(file_name_of(e[i].1.data@), raw_url(e[i].1.data@))],
                    false,
                    force,
                ),
        )
    } else {
        seq![
            (
                path_join_of(dir, ".gitignore"@),
                Seq::new(e.len(), |i: int| (e[i].0@ + ".gitignore"@, raw_url(e[i].1.data@))),
                !force,
                force,
            ),
        ]
    }
}

/// What `gitignore add --all` writes into `dir`.
pub fn plan_all(cache: &Cache<String>, dir: &str, use_remote_name: bool, force: bool) -> (r: Result<
    Vec<GitignoreWrite>,
    PlanError,
>)
    ensures
        match r {
            Ok(ws) => write_views(ws@) == all_writes(cache.entries@, dir@, use_remote_name, force),
            Err(e) => use_remote_name && (e matches PlanError::InvalidPath(i) && i
                < cache.entries@.len() && path_file_name(cache.entries@[i as int].1.data@) is None),
        },
        !use_remote_name || (forall|i: int|
            0 <= i < cache.entries@.len() ==> path_file_name(#[trigger] cache.entries@[i].1.data@)
                is Some) ==> r is Ok,
{
    let ghost e = cache.entries@;
    let mut ws: Vec<GitignoreWrite> = Vec::new();
    let mut sections: Vec<(String, String)> = Vec::new();
    let mut k: usize = 0;
    while k < cache.entries.len()
        invariant
            k <= e.len(),
            e == cache.entries@,
            use_remote_name ==> ws@.len() == k && forall|m: int|
                0 <= m < k ==> #[trigger] write_views(ws@)[m] == all_writes(
                    e,
                    dir@,
                    use_remote_name,
                    force,
                )[m],
            !use_remote_name ==> ws@.len() == 0,
            !use_remote_name ==> sections@.len() == k && forall|m: int|
                0 <= m < k ==> #[trigger] crate::text::pairs_view(sections@)[m] == (
                    e[m].0@ + ".gitignore"@,
                    raw_url(e[m].1.data@),
                ),
        decreases e.len() - k,
    {
        let path = &cache.entries[k].1.data;
        let url = concat3(GITHUB_RAW_BASE, "/", path.as_str());
        if use_remote_name {
            let f = match file_name(path.as_str()) {
                Some(f) => f,
                None => {
                    return Err(PlanError::InvalidPath(k));
                },
            };
            let dest = join(dir, f.as_str());
            let ghost fv = f@;
            let ghost uv = url@;
            let ghost before = ws@;
            ws.push(GitignoreWrite { dest, sections: vec![(f, url)], append: false, force });
            proof {
                assert(crate::text::pairs_view(ws@[k as int].sections@) =~= seq![(fv, uv)]);
                assert forall|m: int| 0 <= m <= k implies #[trigger] write_views(ws@)[m]
                    == all_writes(e, dir@, use_remote_name, force)[m] by {
                    if m < k {
                        assert(ws@[m] == before[m]);
                        assert(write_views(before)[m] == write_views(ws@)[m]);
                    }
                }
            }
        } else {
            let label = concat(cache.entries[k].0.as_str(), ".gitignore");
            let ghost before = sections@;
            let ghost lv = label@;
            let ghost uv = url@;
            sections.push((label, url));
            proof {
                assert(lv == e[k as int].0@ + ".gitignore"@);
                assert(uv == raw_url(e[k as int].1.data@));
                assert(crate::text::pairs_view(sections@)[k as int] == (lv, uv));
                assert forall|m: int| 0 <= m <= k implies #[trigger] crate::text::pairs_view(
                    sections@,
                )[m] == (e[m].0@ + ".gitignore"@, raw_url(e[m].1.data@)) by {
                    if m < k {
                        assert(sections@[m] == before[m]);
                        assert(crate::text::pairs_view(before)[m] == crate::text::pairs_view(
                            sections@,
                        )[m]);
                    }
                }
            }
        }
        k = k + 1;
    }
    if use_remote_name {
        proof {
            assert(write_views(ws@) =~= all_writes(e, dir@, use_remote_name, force));
        }
        Ok(ws)
    } else {
        let dest = join(dir, ".gitignore");
        ws.push(GitignoreWrite { dest, sections, append: !force, force });
        proof {
            let expect = all_writes(e, dir@, use_remote_name, force);
            assert(crate::text::pairs_view(ws@[0].sections@) =~= expect[0].1);
            assert(write_views(ws@) =~= expect);
        }
        Ok(ws)
    }
}

} // verus!
