use vstd::multiset::Multiset;
use vstd::prelude::*;

use crate::cache::{Cache, CacheEntry};
use crate::manifest::{lemma_seq_lt_irreflexive, lemma_seq_lt_transitive, name_lt, seq_lt};
use crate::pattern::{matches_wildcard, wild_match};
use crate::text::{
    all_ascii, ascii_lower, chars_of, find_chars, find_first, index_from, occurs_at, index_of, lower_of, lowercase, same_chars,
    slice_chars, string_of, trim_chars, trim_of,
};

verus! {

/// `s` with every hyphen made a space.
pub open spec fn hyphens_to_spaces(s: Seq<char>) -> Seq<char> {
    s.map_values(|c: char| if c == '-' { ' ' } else { c })
}

fn spaced(v: &Vec<char>) -> (r: String)
    ensures
        r@ == hyphens_to_spaces(v@),
{
    let mut out: Vec<char> = Vec::new();
    let mut i: usize = 0;
    while i < v.len()
        invariant
            i <= v.len(),
            out@ == hyphens_to_spaces(v@.take(i as int)),
        decreases v.len() - i,
    {
        if v[i] == '-' {
            out.push(' ');
        } else {
            out.push(v[i]);
        }
        proof {
            assert(hyphens_to_spaces(v@.take(i + 1)) =~= hyphens_to_spaces(v@.take(i as int)).push(
                out@.last(),
            ));
        }
        i = i + 1;
    }
    proof {
        assert(v@.take(i as int) =~= v@);
    }
    string_of(&out)
}

/// The label of the tag `tag` in `table`, else the tag with hyphens made spaces.
pub open spec fn label_of(tag: Seq<char>, table: Seq<(&str, &str)>) -> Seq<char>
    decreases table.len(),
{
    if table.len() == 0 {
        hyphens_to_spaces(tag)
    } else if tag == table[0].0@ {
        table[0].1@
    } else {
        label_of(tag, table.drop_first())
    }
}

fn label(tag: &str, table: &Vec<(&str, &str)>) -> (r: String)
    ensures
        r@ == label_of(tag@, table@),
{
    let t = chars_of(tag);
    let mut i: usize = 0;
    proof {
        assert(table@.skip(0) =~= table@);
    }
    while i < table.len()
        invariant
            i <= table.len(),
            t@ == tag@,
            label_of(tag@, table@) == label_of(tag@, table@.skip(i as int)),
        decreases table.len() - i,
    {
        proof {
            assert(table@.skip(i as int).drop_first() =~= table@.skip(i + 1));
        }
        if same_chars(&t, &chars_of(table[i].0)) {
            return String::from_str(table[i].1);
        }
        i = i + 1;
    }
    spaced(&t)
}

/// The labels of the permission tags.
pub open spec fn permission_table() -> Seq<(&'static str, &'static str)> {
    seq![
        ("commercial-use", "Commercial use"),
        ("modifications", "Modify"),
        ("distribution", "Distribute"),
        ("patent-use", "Patent use"),
        ("private-use", "Private use"),
    ]
}

/// The labels of the limitation tags.
pub open spec fn limitation_table() -> Seq<(&'static str, &'static str)> {
    seq![("liability", "Liability"), ("warranty", "Warranty"), ("trademark-use", "Trademark use")]
}

/// The labels of the condition tags.
pub open spec fn condition_table() -> Seq<(&'static str, &'static str)> {
    seq![
        ("include-copyright", "License and copyright notice"),
        ("document-changes", "State changes"),
        ("disclose-source", "Disclose source"),
        ("same-license", "Same license"),
    ]
}

/// The label of a permission tag such as `commercial-use`.
pub fn format_permission(perm: &str) -> (r: String)
    ensures
        r@ == label_of(perm@, permission_table()),
{
    let table = vec![
        ("commercial-use", "Commercial use"),
        ("modifications", "Modify"),
        ("distribution", "Distribute"),
        ("patent-use", "Patent use"),
        ("private-use", "Private use"),
    ];
    assert(table@ =~= permission_table());
    label(perm, &table)
}

/// The label of a limitation tag such as `trademark-use`.
pub fn format_limitation(limit: &str) -> (r: String)
    ensures
        r@ == label_of(limit@, limitation_table()),
{
    let table = vec![("liability", "Liability"), ("warranty", "Warranty"), ("trademark-use", "Trademark use")];
    assert(table@ =~= limitation_table());
    label(limit, &table)
}

/// The label of a condition tag such as `include-copyright`.
pub fn format_condition(cond: &str) -> (r: String)
    ensures
        r@ == label_of(cond@, condition_table()),
{
    let table = vec![
        ("include-copyright", "License and copyright notice"),
        ("document-changes", "State changes"),
        ("disclose-source", "Disclose source"),
        ("same-license", "Same license"),
    ];
    assert(table@ =~= condition_table());
    label(cond, &table)
}

/// A license identifier as typed, trimmed and lower-cased.
pub fn normalize_license_id(id: &str) -> (r: String)
    ensures
        r@ == lower_of(trim_of(id@)),
        all_ascii(trim_of(id@)) ==> r@ == ascii_lower(trim_of(id@)),
{
    let t = string_of(&trim_chars(&chars_of(id)));
    lowercase(t.as_str())
}

/// The first position from `i` on whose key, lower-cased, is `low`.
pub open spec fn key_like_from<T>(e: Seq<(String, CacheEntry<T>)>, low: Seq<char>, i: int) -> Option<
    int,
>
    decreases e.len() - i,
{
    if i < 0 || i >= e.len() {
        None
    } else if lower_of(e[i].0@) == low {
        Some(i)
    } else {
        key_like_from(e, low, i + 1)
    }
}

/// The key of the first entry of `cache` that is `id` but for case, as the
/// cache writes it.
pub fn find_key_ignoring_case<T>(cache: &Cache<T>, id: &str) -> (r: Option<String>)
    ensures
        match r {
            Some(k) => key_like_from(cache.entries@, lower_of(id@), 0) matches Some(i)
                && cache.entries@[i].0@ == k@,
            None => key_like_from(cache.entries@, lower_of(id@), 0) is None,
        },
{
    let low = lowercase(id);
    let mut i: usize = 0;
    while i < cache.entries.len()
        invariant
            i <= cache.entries@.len(),
            low@ == lower_of(id@),
            key_like_from(cache.entries@, low@, 0) == key_like_from(
                cache.entries@,
                low@,
                i as int,
            ),
        decreases cache.entries@.len() - i,
    {
        let k = lowercase(cache.entries[i].0.as_str());
        if k == low {
            return Some(cache.entries[i].0.clone());
        }
        i = i + 1;
    }
    None
}

/// Why a `KEY=VALUE` parameter was refused.
#[derive(Debug, Clone, Copy, PartialEq, Eq, Structural)]
pub enum ParamError {
    /// The parameter holds no `=`.
    MissingEquals,
}

/// What a `KEY=VALUE` parameter means: the key trimmed and lower-cased, the
/// value trimmed, split at the first `=`; `None` without one.
pub open spec fn param_of(p: Seq<char>) -> Option<(Seq<char>, Seq<char>)> {
    match index_from(p, '=', 0) {
        Some(e) => Some((lower_of(trim_of(p.take(e))), trim_of(p.skip(e + 1)))),
        None => None,
    }
}

/// Splits a `KEY=VALUE` parameter at its first `=`.
pub fn parse_param(param: &str) -> (r: Result<(String, String), ParamError>)
    ensures
        match r {
            Ok((k, v)) => param_of(param@) == Some((k@, v@)),
            Err(e) => param_of(param@) is None && e == ParamError::MissingEquals,
        },
{
    let p = chars_of(param);
    match index_of(&p, '=', 0) {
        Some(e) => {
            let key = string_of(&trim_chars(&slice_chars(&p, 0, e)));
            let rest = slice_chars(&p, e + 1, p.len());
            proof {
                assert(p@.subrange(0, e as int) =~= p@.take(e as int));
                assert(rest@ =~= p@.skip(e + 1));
            }
            let value = string_of(&trim_chars(&rest));
            Ok((lowercase(key.as_str()), value))
        },
        None => Err(ParamError::MissingEquals),
    }
}

/// The name of the file that license `id` is saved as: `LICENSE.` and the id.
pub fn license_file_name(id: &str) -> (r: String)
    ensures
        r@ == "LICENSE."@ + id@,
{
    let mut r = String::from_str("LICENSE.");
    r.append(id);
    r
}

/// The metadata block of a license file: the text between its first two
/// `---` lines' markers, trimmed; `None` when there are fewer than two.
pub open spec fn front_matter_of(c: Seq<char>) -> Option<Seq<char>> {
    match find_first(c, "---"@) {
        Some(a) => match find_first(c.skip(a + 3), "---"@) {
            Some(b) => Some(trim_of(c.subrange(a + 3, a + 3 + b))),
            None => None,
        },
        None => None,
    }
}

/// The metadata block of a license file, between its first two `---` markers.
pub fn front_matter(content: &str) -> (r: Option<String>)
    ensures
        match r {
            Some(m) => front_matter_of(content@) == Some(m@),
            None => front_matter_of(content@) is None,
        },
{
    let c = chars_of(content);
    let dashes = chars_of("---");
    proof {
        reveal_strlit("---");
    }
    match find_chars(&c, &dashes) {
        Some(a) => {
            assert(occurs_at(c@, dashes@, a as int));
            let dl = dashes.len();
            assert(a + dl <= c.len());
            assert(dl == 3);
            let rest = slice_chars(&c, a + dl, c.len());
            proof {
                assert(rest@ =~= c@.skip(a + 3));
            }
            match find_chars(&rest, &dashes) {
                Some(b) => {
                    assert(occurs_at(rest@, dashes@, b as int));
                    assert(b + dl <= rest.len());
                    let inner = slice_chars(&c, a + dl, a + dl + b);
                    proof {
                        assert(inner@ =~= c@.subrange(a + 3, a + 3 + b));
                    }
                    Some(string_of(&trim_chars(&inner)))
                },
                None => None,
            }
        },
        None => None,
    }
}

/// Whether the popular license `(id, name)` is shown for `search`: always
/// without one, else when the pattern matches its id or its name.
pub open spec fn popular_shown(e: (Seq<char>, Option<Seq<char>>), search: Option<Seq<char>>) -> bool {
    match search {
        None => true,
        Some(s) => wild_match(s, e.0) || (e.1 matches Some(n) && wild_match(s, n)),
    }
}

/// The positions of the popular licenses shown for `search`, in order.
pub open spec fn popular_indices(e: Seq<(Seq<char>, Option<Seq<char>>)>, search: Option<Seq<char>>) -> Seq<
    usize,
>
    decreases e.len(),
{
    if e.len() == 0 {
        Seq::empty()
    } else {
        let rest = popular_indices(e.drop_last(), search);
        if popular_shown(e.last(), search) {
            rest.push((e.len() - 1) as usize)
        } else {
            rest
        }
    }
}

/// The plain values of popular license records.
pub open spec fn popular_views(v: Seq<(String, Option<String>)>) -> Seq<(Seq<char>, Option<Seq<char>>)> {
    v.map_values(
        |p: (String, Option<String>)|
            (
                p.0@,
                match p.1 {
                    Some(n) => Some(n@),
                    None => None,
                },
            ),
    )
}

/// The positions, in order, of the popular licenses `(id, name)` that the
/// wildcard `search` matches by id or by name; all of them without a search.
pub fn select_popular(entries: &Vec<(String, Option<String>)>, search: &Option<String>) -> (r: Vec<
    usize,
>)
    ensures
        r@ == popular_indices(
            popular_views(entries@),
            match search {
                Some(s) => Some(s@),
                None => None,
            },
        ),
{
    let ghost sv = match search {
        Some(s) => Some(s@),
        None => None,
    };
    let ghost ev = popular_views(entries@);
    let mut r: Vec<usize> = Vec::new();
    let mut i: usize = 0;
    while i < entries.len()
        invariant
            i <= entries.len(),
            ev == popular_views(entries@),
            sv == match search {
                Some(s) => Some(s@),
                None => None::<Seq<char>>,
            },
            r@ == popular_indices(ev.take(i as int), sv),
        decreases entries.len() - i,
    {
        proof {
            assert(ev.take(i + 1).drop_last() =~= ev.take(i as int));
            assert(ev.take(i + 1).last() == ev[i as int]);
        }
        let shown = match search {
            None => true,
            Some(s) => matches_wildcard(s.as_str(), entries[i].0.as_str()) || match &entries[i].1 {
                Some(n) => matches_wildcard(s.as_str(), n.as_str()),
                None => false,
            },
        };
        assert(shown == popular_shown(ev[i as int], sv));
        if shown {
            r.push(i);
        }
        i = i + 1;
    }
    proof {
        assert(ev.take(i as int) =~= ev);
    }
    r
}

/// Splits each `KEY=VALUE` parameter; the first one without `=` is refused.
pub fn parse_params(params: &Vec<String>) -> (r: Result<Vec<(String, String)>, ParamError>)
    ensures
        match r {
            Ok(v) => v.len() == params.len() && forall|i: int|
                0 <= i < v.len() ==> param_of(#[trigger] params@[i]@) == Some((v@[i].0@, v@[i].1@)),
            Err(e) => exists|i: int| 0 <= i < params.len() && param_of(#[trigger] params@[i]@) is None,
        },
{
    let mut v: Vec<(String, String)> = Vec::new();
    let mut i: usize = 0;
    while i < params.len()
        invariant
            i <= params.len(),
            v.len() == i,
            forall|j: int| 0 <= j < i ==> param_of(#[trigger] params@[j]@) == Some((v@[j].0@, v@[j].1@)),
        decreases params.len() - i,
    {
        match parse_param(params[i].as_str()) {
            Ok(p) => {
                v.push(p);
            },
            Err(e) => {
                return Err(e);
            },
        }
        i = i + 1;
    }
    Ok(v)
}

/// An SPDX license as the listing reads it.
#[derive(Debug)]
pub struct SpdxLicense {
    pub id: String,
    pub name: String,
    pub deprecated: bool,
    pub osi_approved: bool,
    pub fsf_libre: bool,
}

impl View for SpdxLicense {
    type V = (Seq<char>, Seq<char>, bool, bool, bool);

    open spec fn view(&self) -> Self::V {
        (self.id@, self.name@, self.deprecated, self.osi_approved, self.fsf_libre)
    }
}

/// Which licenses a listing shows.
#[derive(Debug)]
pub struct LicenseQuery {
    pub search: Option<String>,
    pub include_deprecated: bool,
    pub osi_approved: bool,
    pub fsf_libre: bool,
}

/// The views of a sequence of licenses.
pub open spec fn license_views(s: Seq<SpdxLicense>) -> Seq<(Seq<char>, Seq<char>, bool, bool, bool)> {
    s.map_values(|l: SpdxLicense| l@)
}

/// The wildcard pattern of a search: lower-cased, with a `*` added unless it
/// already ends in `*` or `?`.
pub open spec fn search_pattern(s: Seq<char>) -> Seq<char> {
    let l = lower_of(s);
    if l.len() > 0 && (l.last() == '*' || l.last() == '?') {
        l
    } else {
        l.push('*')
    }
}

/// Whether the listing shows license `l` under `q`: deprecated ones only when
/// asked for, only those whose lower-cased id or name the search pattern
/// matches, and only OSI-approved or FSF-libre ones when asked for.
pub open spec fn shown(
    l: (Seq<char>, Seq<char>, bool, bool, bool),
    search: Option<Seq<char>>,
    include_deprecated: bool,
    osi: bool,
    fsf: bool,
) -> bool {
    &&& (!l.2 || include_deprecated)
    &&& match search {
        Some(s) => wild_match(search_pattern(s), lower_of(l.0)) || wild_match(
            search_pattern(s),
            lower_of(l.1),
        ),
        None => true,
    }
    &&& (!osi || l.3)
    &&& (!fsf || l.4)
}

/// The licenses of `s` that the listing shows, in order.
pub open spec fn shown_list(
    s: Seq<(Seq<char>, Seq<char>, bool, bool, bool)>,
    search: Option<Seq<char>>,
    include_deprecated: bool,
    osi: bool,
    fsf: bool,
) -> Seq<(Seq<char>, Seq<char>, bool, bool, bool)>
    decreases s.len(),
{
    if s.len() == 0 {
        Seq::empty()
    } else {
        let rest = shown_list(s.drop_last(), search, include_deprecated, osi, fsf);
        if shown(s.last(), search, include_deprecated, osi, fsf) {
            rest.push(s.last())
        } else {
            rest
        }
    }
}

/// Where license `e` goes in `r`, looking from `i` on: before the first
/// license whose id comes after its own, so after those with an equal id.
pub open spec fn insert_pos(r: Seq<(Seq<char>, Seq<char>, bool, bool, bool)>, e: (Seq<char>, Seq<char>, bool, bool, bool), i: int) -> int
    decreases r.len() - i,
{
    if i < 0 || i >= r.len() || seq_lt(e.0, r[i].0) {
        i
    } else {
        insert_pos(r, e, i + 1)
    }
}

/// `s` sorted by id, licenses with equal ids kept in their order.
pub open spec fn sort_by_id(s: Seq<(Seq<char>, Seq<char>, bool, bool, bool)>) -> Seq<(Seq<char>, Seq<char>, bool, bool, bool)>
    decreases s.len(),
{
    if s.len() == 0 {
        Seq::empty()
    } else {
        let r = sort_by_id(s.drop_last());
        r.insert(insert_pos(r, s.last(), 0), s.last())
    }
}

/// Whether the licenses are in the order of their ids.
pub open spec fn sorted_by_id(s: Seq<(Seq<char>, Seq<char>, bool, bool, bool)>) -> bool {
    forall|i: int, j: int| 0 <= i < j < s.len() ==> !seq_lt(s[j].0, s[i].0)
}

impl LicenseQuery {
    /// The search as plain characters.
    pub open spec fn search_view(&self) -> Option<Seq<char>> {
        match self.search {
            Some(s) => Some(s@),
            None => None,
        }
    }
}

/// The licenses that the listing shows under `query`, in the order of their ids.
pub fn select_licenses(licenses: Vec<SpdxLicense>, query: &LicenseQuery) -> (r: Vec<SpdxLicense>)
    ensures
        license_views(r@).to_multiset() == shown_list(
            license_views(licenses@),
            query.search_view(),
            query.include_deprecated,
            query.osi_approved,
            query.fsf_libre,
        ).to_multiset(),
        sorted_by_id(license_views(r@)),
        license_views(r@) == sort_by_id(
            shown_list(
                license_views(licenses@),
                query.search_view(),
                query.include_deprecated,
                query.osi_approved,
                query.fsf_libre,
            ),
        ),
{
    broadcast use vstd::seq_lib::group_to_multiset_ensures;

    let ghost sv = query.search_view();
    let ghost inc = query.include_deprecated;
    let ghost osi = query.osi_approved;
    let ghost fsf = query.fsf_libre;
    let ghost all = shown_list(license_views(licenses@), sv, inc, osi, fsf).to_multiset();
    let pattern: Option<String> = match &query.search {
        Some(s) => {
            let mut l = chars_of(lowercase(s.as_str()).as_str());
            if !(l.len() > 0 && (l[l.len() - 1] == '*' || l[l.len() - 1] == '?')) {
                l.push('*');
            }
            Some(string_of(&l))
        },
        None => None,
    };
    let ghost lv = license_views(licenses@);
    let ghost orig = licenses@;
    let mut v = licenses;
    let mut r: Vec<SpdxLicense> = Vec::new();
    let mut n: usize = 0;
    proof {
        assert(license_views(r@) =~= Seq::empty());
        assert(license_views(r@).to_multiset() =~= Multiset::empty());
        assert(lv.take(0) =~= Seq::empty());
        assert(v@ =~= orig.skip(0));
        assert(orig.len() == v.len());
    }
    while v.len() > 0
        invariant
            lv == license_views(orig),
            v@ == orig.skip(n as int),
            n <= orig.len(),
            orig.len() == n + v.len(),
            orig.len() <= usize::MAX,
            license_views(r@).to_multiset() == shown_list(lv.take(n as int), sv, inc, osi, fsf).to_multiset(),
            license_views(r@) == sort_by_id(shown_list(lv.take(n as int), sv, inc, osi, fsf)),
            all == shown_list(lv, sv, inc, osi, fsf).to_multiset(),
            sv == query.search_view(),
            inc == query.include_deprecated,
            osi == query.osi_approved,
            fsf == query.fsf_libre,
            match pattern {
                Some(p) => sv matches Some(s) && p@ == search_pattern(s),
                None => sv is None,
            },
            sorted_by_id(license_views(r@)),
        decreases v.len(),
    {
        let ghost vb = v@;
        let e = v.remove(0);
        proof {
            assert(e == orig[n as int]);
            assert(v@ =~= orig.skip(n + 1));
            assert(lv.take(n + 1).drop_last() =~= lv.take(n as int));
            assert(lv.take(n + 1).last() == e@);
        }
        let matched = match &pattern {
            Some(p) => {
                let lid = lowercase(e.id.as_str());
                let lname = lowercase(e.name.as_str());
                matches_wildcard(p.as_str(), lid.as_str()) || matches_wildcard(
                    p.as_str(),
                    lname.as_str(),
                )
            },
            None => true,
        };
        let keep = (!e.deprecated || query.include_deprecated) && matched && (!query.osi_approved
            || e.osi_approved) && (!query.fsf_libre || e.fsf_libre);
        assert(keep == shown(e@, sv, inc, osi, fsf));
        if keep {
            let eid = chars_of(e.id.as_str());
            let mut pos: usize = 0;
            while pos < r.len() && !name_lt(&eid, &chars_of(r[pos].id.as_str()))
                invariant
                    pos <= r.len(),
                    eid@ == e.id@,
                    insert_pos(license_views(r@), e@, 0) == insert_pos(license_views(r@), e@, pos as int),
                    forall|k: int| 0 <= k < pos ==> !seq_lt(e.id@, #[trigger] r@[k].id@),
                decreases r.len() - pos,
            {
                pos = pos + 1;
            }
            let ghost rb = license_views(r@);
            r.insert(pos, e);
            proof {
                let rv = license_views(r@);
                assert(rv =~= rb.insert(pos as int, e@));
                assert(rv.remove(pos as int) =~= rb);
                rv.to_multiset_ensures();
                assert(rv[pos as int] == e@);
                assert(rv.contains(e@));
                assert(rv.to_multiset() =~= rb.to_multiset().insert(e@));
                let sl = shown_list(lv.take(n as int), sv, inc, osi, fsf);
                sl.to_multiset_ensures();
                assert(shown_list(lv.take(n + 1), sv, inc, osi, fsf) == sl.push(e@));
                assert(rv.to_multiset() =~= sl.push(e@).to_multiset());
                assert(sort_by_id(sl.push(e@)) == rb.insert(insert_pos(rb, e@, 0), e@)) by {
                    assert(sl.push(e@).drop_last() =~= sl);
                }
                assert forall|i: int, j: int| 0 <= i < j < rv.len() implies !seq_lt(
                    rv[j].0,
                    rv[i].0,
                ) by {
                    if i < pos && j == pos {
                        assert(rv[i] == rb[i]);
                        assert(r@[i]@ == rb[i]);
                    } else if i == pos && j > pos {
                        assert(rv[j] == rb[j - 1]);
                        lemma_seq_lt_irreflexive(e@.0);
                        if pos < rb.len() {
                            assert(seq_lt(e@.0, rb[pos as int].0));
                            if seq_lt(rb[j - 1].0, e@.0) {
                                lemma_seq_lt_transitive(rb[j - 1].0, e@.0, rb[pos as int].0);
                                if j - 1 > pos {
                                    assert(!seq_lt(rb[j - 1].0, rb[pos as int].0));
                                } else {
                                    lemma_seq_lt_irreflexive(rb[pos as int].0);
                                }
                            }
                        }
                    } else if i < pos && j > pos {
                        assert(rv[i] == rb[i] && rv[j] == rb[j - 1]);
                    } else if i > pos {
                        assert(rv[i] == rb[i - 1] && rv[j] == rb[j - 1]);
                    } else {
                        assert(rv[i] == rb[i] && rv[j] == rb[j]);
                    }
                }
            }
        } else {
            proof {
                assert(shown_list(lv.take(n + 1), sv, inc, osi, fsf) == shown_list(
                    lv.take(n as int),
                    sv,
                    inc,
                    osi,
                    fsf,
                ));
            }
        }
        n = n + 1;
    }
    proof {
        assert(lv.take(n as int) =~= lv);
    }
    r
}

} // verus!
