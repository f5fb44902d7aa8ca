use vstd::multiset::Multiset;
use vstd::prelude::*;

use crate::text::{
    chars_at, chars_of, index_from, index_of, is_white, pairs_view,
    slice_chars, string_of, trim_chars, trim_of, white,
};

verus! {

/// Why a manifest could not be had or read.
#[derive(Debug, PartialEq, Eq)]
pub enum ManifestError {
    /// The manifest could not be fetched.
    HttpError(String),
    /// The manifest held no entry.
    ParseError(String),
    /// The server had no manifest at that address.
    NotFound(String),
    /// The address does not name a manifest file.
    InvalidPath(String),
}

impl ManifestError {
    /// The message shown for the error: its kind, then its text.
    pub fn message(&self) -> (r: String)
        ensures
            r@ == match self {
                ManifestError::HttpError(m) => "HTTP Error: "@ + m@,
                ManifestError::ParseError(m) => "Parse Error: "@ + m@,
                ManifestError::NotFound(m) => "Not Found: "@ + m@,
                ManifestError::InvalidPath(m) => "Invalid Path: "@ + m@,
            },
    {
        let (head, msg) = match self {
            ManifestError::HttpError(m) => ("HTTP Error: ", m),
            ManifestError::ParseError(m) => ("Parse Error: ", m),
            ManifestError::NotFound(m) => ("Not Found: ", m),
            ManifestError::InvalidPath(m) => ("Invalid Path: ", m),
        };
        let mut r = String::from_str(head);
        r.append(msg.as_str());
        r
    }
}

/// Whether `s` ends with `suf`.
pub open spec fn ends_with(s: Seq<char>, suf: Seq<char>) -> bool {
    suf.len() <= s.len() && s.skip(s.len() - suf.len()) == suf
}

/// `s` with every repeat of `suf` at its end taken off.
pub open spec fn strip_all_suffix(s: Seq<char>, suf: Seq<char>) -> Seq<char>
    decreases s.len(),
{
    if suf.len() > 0 && ends_with(s, suf) {
        strip_all_suffix(s.take(s.len() - suf.len()), suf)
    } else {
        s
    }
}

/// The directory that a manifest address points into: the address without
/// trailing slashes and without the manifest file name. `None` when the
/// address does not end in the manifest file name.
pub open spec fn base_of(url: Seq<char>) -> Option<Seq<char>> {
    let u = strip_all_suffix(url, "/"@);
    if ends_with(u, "/manifest.yml"@) {
        Some(strip_all_suffix(u, "/manifest.yml"@))
    } else if ends_with(u, "manifest.yml"@) {
        Some(strip_all_suffix(strip_all_suffix(u, "manifest.yml"@), "/"@))
    } else {
        None
    }
}

/// `v` with every repeat of `suf` at its end taken off.
pub fn strip_suffix_all(v: &Vec<char>, suf: &Vec<char>) -> (r: Vec<char>)
    requires
        suf.len() > 0,
    ensures
        r@ == strip_all_suffix(v@, suf@),
{
    let mut n: usize = v.len();
    proof {
        assert(v@.take(n as int) =~= v@);
    }
    while n >= suf.len() && chars_at(v, suf, n - suf.len())
        invariant
            n <= v.len(),
            suf.len() > 0,
            strip_all_suffix(v@, suf@) == strip_all_suffix(v@.take(n as int), suf@),
        decreases n,
    {
        proof {
            let w = v@.take(n as int);
            assert(w.skip(w.len() - suf@.len()) =~= v@.subrange(n - suf.len(), n as int));
            assert(w.take(w.len() - suf@.len()) =~= v@.take(n - suf.len()));
        }
        n = n - suf.len();
    }
    proof {
        let w = v@.take(n as int);
        if ends_with(w, suf@) {
            assert(w.skip(w.len() - suf@.len()) =~= v@.subrange(n - suf.len(), n as int));
        }
    }
    crate::text::slice_chars(v, 0, n)
}

fn ends_with_chars(v: &Vec<char>, suf: &Vec<char>) -> (r: bool)
    ensures
        r == ends_with(v@, suf@),
{
    if suf.len() > v.len() {
        return false;
    }
    let r = chars_at(v, suf, v.len() - suf.len());
    proof {
        assert(v@.skip(v.len() - suf.len()) =~= v@.subrange(v.len() - suf.len(), v.len() as int));
    }
    r
}

/// Where a manifest lives and the directory its entries are relative to.
#[derive(Debug)]
pub struct ManifestNavigator {
    url: String,
    base_url: String,
}

impl ManifestNavigator {
    /// The manifest's address, without trailing slashes.
    pub closed spec fn url_view(&self) -> Seq<char> {
        self.url@
    }

    /// The directory that the entries are relative to.
    pub closed spec fn base_view(&self) -> Seq<char> {
        self.base_url@
    }

    /// A navigator for the manifest at `url`, which must end in `manifest.yml`
    /// (trailing slashes aside); any other address is an `InvalidPath`.
    pub fn new(url: &str) -> (r: Result<ManifestNavigator, ManifestError>)
        ensures
            match r {
                Ok(nav) => base_of(url@) == Some(nav.base_view()) && nav.url_view()
                    == strip_all_suffix(url@, "/"@),
                Err(e) => base_of(url@) is None && e is InvalidPath,
            },
    {
        let slash = chars_of("/");
        let with_slash = chars_of("/manifest.yml");
        let bare = chars_of("manifest.yml");
        proof {
            reveal_strlit("/");
            reveal_strlit("/manifest.yml");
            reveal_strlit("manifest.yml");
        }
        let u = strip_suffix_all(&chars_of(url), &slash);
        let base = if ends_with_chars(&u, &with_slash) {
            strip_suffix_all(&u, &with_slash)
        } else if ends_with_chars(&u, &bare) {
            strip_suffix_all(&strip_suffix_all(&u, &bare), &slash)
        } else {
            return Err(
                ManifestError::InvalidPath(
                    String::from_str("URL must point to a manifest.yml file"),
                ),
            );
        };
        Ok(ManifestNavigator { url: string_of(&u), base_url: string_of(&base) })
    }

    /// The manifest's address.
    pub fn url(&self) -> (r: String)
        ensures
            r@ == self.url_view(),
    {
        self.url.clone()
    }

    /// The directory that the entries are relative to.
    pub fn base_url(&self) -> (r: String)
        ensures
            r@ == self.base_view(),
    {
        self.base_url.clone()
    }
}

/// The manifest as plain values: key/value pairs, each key once.
pub type ManifestMap = Seq<(Seq<char>, Seq<char>)>;

/// Where the scan stands: inside `templates:` or not, the current
/// subsection, and the entries so far.
pub type ScanState = (bool, Seq<char>, ManifestMap);

/// The first position from `i` on whose key is `k`.
pub open spec fn key_pos_from(m: ManifestMap, k: Seq<char>, i: int) -> Option<int>
    decreases m.len() - i,
{
    if i < 0 || i >= m.len() {
        None
    } else if m[i].0 == k {
        Some(i)
    } else {
        key_pos_from(m, k, i + 1)
    }
}

/// `m` with `k` bound to `v`: an entry with key `k` takes the new value in
/// place, else the pair goes at the end.
pub open spec fn map_insert(m: ManifestMap, k: Seq<char>, v: Seq<char>) -> ManifestMap {
    match key_pos_from(m, k, 0) {
        Some(p) => m.update(p, (k, v)),
        None => m.push((k, v)),
    }
}

/// `s` without the `c` characters at its start.
pub open spec fn strip_lead(s: Seq<char>, c: char) -> Seq<char>
    decreases s.len(),
{
    if s.len() > 0 && s[0] == c {
        strip_lead(s.drop_first(), c)
    } else {
        s
    }
}

/// `s` without the `c` characters at its end.
pub open spec fn strip_trail(s: Seq<char>, c: char) -> Seq<char>
    decreases s.len(),
{
    if s.len() > 0 && s.last() == c {
        strip_trail(s.drop_last(), c)
    } else {
        s
    }
}

/// `s` without double quotes at either end, then without single quotes.
pub open spec fn unquote(s: Seq<char>) -> Seq<char> {
    let d = strip_trail(strip_lead(s, '"'), '"');
    strip_trail(strip_lead(d, '\''), '\'')
}

/// What one line of the manifest does to the scan.
pub open spec fn scan_line(st: ScanState, line: Seq<char>) -> ScanState {
    let tr = trim_of(line);
    if tr.len() == 0 || tr[0] == '#' {
        st
    } else {
        let top = line.len() > 0 && !is_white(line[0]);
        match index_from(tr, ':', 0) {
            Some(cp) => {
                let key = trim_of(tr.take(cp));
                let value = trim_of(tr.skip(cp + 1));
                if top {
                    if key == "templates"@ {
                        (true, st.1, st.2)
                    } else if value.len() > 0 {
                        (st.0, st.1, map_insert(st.2, key, unquote(value)))
                    } else {
                        st
                    }
                } else if st.0 {
                    if value.len() > 0 && value.last() == '/' {
                        (st.0, st.1, map_insert(st.2, key.push('/'), value))
                    } else if value.len() == 0 {
                        (st.0, key, st.2)
                    } else {
                        (st.0, st.1, map_insert(st.2, key, Seq::empty()))
                    }
                } else {
                    st
                }
            },
            None => if tr.len() >= 2 && tr[0] == '-' && tr[1] == ' ' {
                let f = unquote(trim_of(tr.skip(2)));
                if f.len() == 0 {
                    st
                } else if st.1.len() == 0 {
                    (st.0, st.1, map_insert(st.2, f, Seq::empty()))
                } else {
                    (st.0, st.1, map_insert(st.2, st.1 + seq!['/'] + f, Seq::empty()))
                }
            } else {
                st
            },
        }
    }
}

/// `l` without the carriage return that ends it, if one does.
pub open spec fn strip_cr(l: Seq<char>) -> Seq<char> {
    if l.len() > 0 && l.last() == '\r' {
        l.drop_last()
    } else {
        l
    }
}

/// The scan of the lines of `s` from position `i` on. Lines end at `\n`
/// (a `\r` before it is dropped); the last one needs no line end.
pub open spec fn scan_from(s: Seq<char>, i: int, st: ScanState) -> ScanState
    decreases s.len() - i,
{
    if i < 0 || i >= s.len() {
        st
    } else {
        match index_from(s, '\n', i) {
            Some(j) => if i <= j < s.len() {
                scan_from(s, j + 1, scan_line(st, strip_cr(s.subrange(i, j))))
            } else {
                st
            },
            None => scan_line(st, s.subrange(i, s.len() as int)),
        }
    }
}

/// The entries that a manifest's text gives.
pub open spec fn manifest_of(content: Seq<char>) -> ManifestMap {
    scan_from(content, 0, (false, Seq::empty(), Seq::empty())).2
}

/// Binds `k` to `v` in `map`.
fn insert_pair(map: &mut Vec<(String, String)>, k: String, v: String)
    ensures
        pairs_view(final(map)@) == map_insert(pairs_view(old(map)@), k@, v@),
{
    let ghost m = pairs_view(map@);
    let mut i: usize = 0;
    while i < map.len()
        invariant
            i <= map.len(),
            m == pairs_view(map@),
            map@ == old(map)@,
            key_pos_from(m, k@, 0) == key_pos_from(m, k@, i as int),
        decreases map.len() - i,
    {
        if map[i].0 == k {
            assert(m[i as int].0 == k@);
            assert(key_pos_from(m, k@, i as int) == Some(i as int));
            map.set(i, (k, v));
            proof {
                assert(pairs_view(map@) =~= m.update(i as int, (k@, v@)));
            }
            return;
        }
        i = i + 1;
    }
    let ghost before = map@;
    map.push((k, v));
    proof {
        assert(pairs_view(map@) =~= m.push((k@, v@)));
    }
}

fn strip_char(v: &Vec<char>, c: char) -> (r: Vec<char>)
    ensures
        r@ == strip_trail(strip_lead(v@, c), c),
{
    let mut lo: usize = 0;
    proof {
        assert(v@.skip(0) =~= v@);
    }
    while lo < v.len() && v[lo] == c
        invariant
            lo <= v.len(),
            strip_lead(v@, c) == strip_lead(v@.skip(lo as int), c),
        decreases v.len() - lo,
    {
        proof {
            assert(v@.skip(lo as int).drop_first() =~= v@.skip(lo + 1));
        }
        lo = lo + 1;
    }
    let mut hi: usize = v.len();
    proof {
        assert(v@.skip(lo as int) =~= v@.subrange(lo as int, hi as int));
    }
    while hi > lo && v[hi - 1] == c
        invariant
            lo <= hi <= v.len(),
            strip_trail(strip_lead(v@, c), c) == strip_trail(v@.subrange(lo as int, hi as int), c),
        decreases hi,
    {
        proof {
            assert(v@.subrange(lo as int, hi as int).drop_last() =~= v@.subrange(
                lo as int,
                hi - 1,
            ));
        }
        hi = hi - 1;
    }
    slice_chars(v, lo, hi)
}

fn unquote_chars(v: &Vec<char>) -> (r: Vec<char>)
    ensures
        r@ == unquote(v@),
{
    let d = strip_char(v, '"');
    strip_char(&d, '\'')
}

/// Applies one line of the manifest to the scan.
fn scan_line_exec(
    templates: &mut bool,
    sub: &mut Vec<char>,
    map: &mut Vec<(String, String)>,
    line: &Vec<char>,
)
    ensures
        scan_line((*old(templates), old(sub)@, pairs_view(old(map)@)), line@) == (
            *final(templates),
            final(sub)@,
            pairs_view(final(map)@),
        ),
{
    let tr = trim_chars(line);
    if tr.len() == 0 || tr[0] == '#' {
        return;
    }
    let top = line.len() > 0 && !white(line[0]);
    match index_of(&tr, ':', 0) {
        Some(cp) => {
            let key = trim_chars(&slice_chars(&tr, 0, cp));
            let rest = slice_chars(&tr, cp + 1, tr.len());
            proof {
                assert(rest@ =~= tr@.skip(cp + 1));
                assert(tr@.subrange(0, cp as int) =~= tr@.take(cp as int));
            }
            let value = trim_chars(&rest);
            let templates_word = chars_of("templates");
            if top {
                if crate::text::same_chars(&key, &templates_word) {
                    *templates = true;
                } else if value.len() > 0 {
                    insert_pair(map, string_of(&key), string_of(&unquote_chars(&value)));
                }
            } else if *templates {
                if value.len() > 0 && value[value.len() - 1] == '/' {
                    let mut k = key.clone();
                    k.push('/');
                    proof {
                        assert(k@ =~= key@.push('/'));
                    }
                    insert_pair(map, string_of(&k), string_of(&value));
                } else if value.len() == 0 {
                    *sub = key;
                } else {
                    insert_pair(map, string_of(&key), String::new());
                }
            }
        },
        None => {
            if tr.len() >= 2 && tr[0] == '-' && tr[1] == ' ' {
                let rest = slice_chars(&tr, 2, tr.len());
                proof {
                    assert(rest@ =~= tr@.skip(2));
                }
                let f = unquote_chars(&trim_chars(&rest));
                if f.len() == 0 {
                } else if sub.len() == 0 {
                    insert_pair(map, string_of(&f), String::new());
                } else {
                    let mut full = sub.clone();
                    full.push('/');
                    let mut j: usize = 0;
                    while j < f.len()
                        invariant
                            j <= f.len(),
                            full@ == old(sub)@ + seq!['/'] + f@.take(j as int),
                        decreases f.len() - j,
                    {
                        full.push(f[j]);
                        proof {
                            assert(f@.take(j + 1) =~= f@.take(j as int).push(f@[j as int]));
                        }
                        j = j + 1;
                    }
                    proof {
                        assert(f@.take(j as int) =~= f@);
                    }
                    insert_pair(map, string_of(&full), String::new());
                }
            }
        },
    }
}

/// Whether `a` comes before `b` in the order of their characters' code
/// points, as `String`'s own order has them.
pub open spec fn seq_lt(a: Seq<char>, b: Seq<char>) -> bool
    decreases a.len(),
{
    if a.len() == 0 {
        b.len() > 0
    } else if b.len() == 0 {
        false
    } else if a[0] != b[0] {
        (a[0] as u32) < (b[0] as u32)
    } else {
        seq_lt(a.drop_first(), b.drop_first())
    }
}

pub(crate) proof fn lemma_seq_lt_irreflexive(a: Seq<char>)
    ensures
        !seq_lt(a, a),
    decreases a.len(),
{
    if a.len() > 0 {
        lemma_seq_lt_irreflexive(a.drop_first());
    }
}

pub(crate) proof fn lemma_seq_lt_transitive(a: Seq<char>, b: Seq<char>, c: Seq<char>)
    requires
        seq_lt(a, b),
        seq_lt(b, c),
    ensures
        seq_lt(a, c),
    decreases a.len(),
{
    if a.len() > 0 && b.len() > 0 && c.len() > 0 && a[0] == b[0] && b[0] == c[0] {
        lemma_seq_lt_transitive(a.drop_first(), b.drop_first(), c.drop_first());
    }
}

/// A manifest entry: its name, whether it is a directory, and its address.
#[derive(Debug)]
pub struct FileEntry {
    pub name: String,
    pub is_directory: bool,
    pub full_url: String,
}

impl View for FileEntry {
    type V = (Seq<char>, bool, Seq<char>);

    open spec fn view(&self) -> Self::V {
        (self.name@, self.is_directory, self.full_url@)
    }
}

/// The views of a sequence of entries.
pub open spec fn entry_views(s: Seq<FileEntry>) -> Seq<(Seq<char>, bool, Seq<char>)> {
    s.map_values(|e: FileEntry| e@)
}

/// Whether entry `a` is listed before entry `b`: directories first, then by name.
pub open spec fn entry_lt(a: (Seq<char>, bool, Seq<char>), b: (Seq<char>, bool, Seq<char>)) -> bool {
    (a.1 && !b.1) || (a.1 == b.1 && seq_lt(a.0, b.0))
}

/// Whether no entry of `s` should come before one that precedes it.
pub open spec fn entries_sorted(s: Seq<(Seq<char>, bool, Seq<char>)>) -> bool {
    forall|i: int, j: int| 0 <= i < j < s.len() ==> !entry_lt(s[j], s[i])
}

proof fn lemma_entry_lt_order(
    a: (Seq<char>, bool, Seq<char>),
    b: (Seq<char>, bool, Seq<char>),
    c: (Seq<char>, bool, Seq<char>),
)
    ensures
        !entry_lt(a, a),
        entry_lt(a, b) && entry_lt(b, c) ==> entry_lt(a, c),
{
    lemma_seq_lt_irreflexive(a.0);
    if entry_lt(a, b) && entry_lt(b, c) && a.1 == b.1 && b.1 == c.1 {
        lemma_seq_lt_transitive(a.0, b.0, c.0);
    }
}

/// The entry that the manifest pair `(k, v)` stands for, under `base`: a
/// directory when the key or the value ends in `/`; its name is the key
/// without trailing slashes, its address `base/name`.
pub open spec fn entry_of(p: (Seq<char>, Seq<char>), base: Seq<char>) -> (Seq<char>, bool, Seq<char>) {
    let name = strip_all_suffix(p.0, "/"@);
    (name, ends_with(p.0, "/"@) || ends_with(p.1, "/"@), base + "/"@ + name)
}

/// The entries of a manifest, in its order, without its `type` field.
pub open spec fn entry_list(m: ManifestMap, base: Seq<char>) -> Seq<(Seq<char>, bool, Seq<char>)>
    decreases m.len(),
{
    if m.len() == 0 {
        Seq::empty()
    } else {
        let rest = entry_list(m.drop_last(), base);
        if m.last().0 == "type"@ {
            rest
        } else {
            rest.push(entry_of(m.last(), base))
        }
    }
}

pub(crate) fn name_lt(a: &Vec<char>, b: &Vec<char>) -> (r: bool)
    ensures
        r == seq_lt(a@, b@),
{
    let mut i: usize = 0;
    proof {
        assert(a@.skip(0) =~= a@);
        assert(b@.skip(0) =~= b@);
    }
    while i < a.len() && i < b.len()
        invariant
            i <= a.len(),
            i <= b.len(),
            seq_lt(a@, b@) == seq_lt(a@.skip(i as int), b@.skip(i as int)),
        decreases a.len() - i,
    {
        if a[i] != b[i] {
            return (a[i] as u32) < (b[i] as u32);
        }
        proof {
            assert(a@.skip(i as int).drop_first() =~= a@.skip(i + 1));
            assert(b@.skip(i as int).drop_first() =~= b@.skip(i + 1));
        }
        i = i + 1;
    }
    i == a.len() && i < b.len()
}

fn before(a: &FileEntry, b: &FileEntry) -> (r: bool)
    ensures
        r == entry_lt(a@, b@),
{
    if a.is_directory != b.is_directory {
        a.is_directory
    } else {
        name_lt(&chars_of(a.name.as_str()), &chars_of(b.name.as_str()))
    }
}

/// `v` in listing order: directories first, then by name.
fn sort_entries(v: Vec<FileEntry>) -> (r: Vec<FileEntry>)
    ensures
        entry_views(r@).to_multiset() == entry_views(v@).to_multiset(),
        entries_sorted(entry_views(r@)),
{
    broadcast use vstd::seq_lib::group_to_multiset_ensures;

    let ghost all = entry_views(v@).to_multiset();
    let mut v = v;
    let mut r: Vec<FileEntry> = Vec::new();
    proof {
        assert(entry_views(r@) =~= Seq::empty());
        assert(entry_views(r@).to_multiset() =~= Multiset::empty());
        assert(entry_views(r@).to_multiset().add(entry_views(v@).to_multiset()) =~= all);
    }
    while v.len() > 0
        invariant
            entry_views(r@).to_multiset().add(entry_views(v@).to_multiset()) == all,
            entries_sorted(entry_views(r@)),
        decreases v.len(),
    {
        let ghost vb = v@;
        let e = v.pop().unwrap();
        proof {
            assert(entry_views(vb) =~= entry_views(v@).push(e@));
        }
        let mut pos: usize = 0;
        while pos < r.len() && !before(&e, &r[pos])
            invariant
                pos <= r.len(),
                forall|k: int| 0 <= k < pos ==> !entry_lt(e@, #[trigger] r@[k]@),
            decreases r.len() - pos,
        {
            pos = pos + 1;
        }
        let ghost rb = entry_views(r@);
        r.insert(pos, e);
        proof {
            let rv = entry_views(r@);
            assert(rv =~= rb.insert(pos as int, e@));
            assert(rv.remove(pos as int) =~= rb);
            assert(rv.to_multiset() =~= rb.to_multiset().insert(e@)) by {
                rv.to_multiset_ensures();
                assert(rv[pos as int] == e@);
                assert(rv.remove(pos as int).to_multiset() =~= rv.to_multiset().remove(e@));
                assert(rv.to_multiset().contains(e@)) by {
                    assert(rv.contains(e@)) by {
                        assert(rv[pos as int] == e@);
                    }
                }
            }
            entry_views(v@).to_multiset_ensures();
            assert(entry_views(vb).to_multiset() =~= entry_views(v@).to_multiset().insert(e@));
            assert(rb.to_multiset().add(entry_views(vb).to_multiset()) == all);
            assert(rv.to_multiset().add(entry_views(v@).to_multiset()) =~= all);
            assert forall|i: int, j: int| 0 <= i < j < rv.len() implies !entry_lt(
                rv[j],
                rv[i],
            ) by {
                if i < pos && j == pos {
                    assert(rv[i] == rb[i]);
                    assert(r@[i]@ == rb[i]);
                } else if i == pos && j > pos {
                    assert(rv[j] == rb[j - 1]);
                    if pos < rb.len() {
                        assert(entry_lt(e@, rb[pos as int]));
                        lemma_entry_lt_order(rb[j - 1], e@, rb[pos as int]);
                        if j - 1 > pos {
                            assert(!entry_lt(rb[j - 1], rb[pos as int]));
                        }
                    }
                } else if i < pos && j > pos {
                    assert(rv[i] == rb[i] && rv[j] == rb[j - 1]);
                } else if i > pos {
                    assert(rv[i] == rb[i - 1] && rv[j] == rb[j - 1]);
                } else {
                    assert(rv[i] == rb[i] && rv[j] == rb[j]);
                }
            }
        }
    }
    proof {
        assert(entry_views(v@) =~= Seq::empty());
        assert(entry_views(v@).to_multiset() =~= Multiset::empty());
        assert(entry_views(r@).to_multiset() =~= all);
    }
    r
}

impl ManifestNavigator {
    /// Reads a manifest's text into its entries: top-level `key: value`
    /// pairs (quotes stripped from the value), and under `templates:` the
    /// indented children: `name: dir/` is a directory (kept as `name/`),
    /// `name:` opens a subsection, `name: file` and `- file` are files (a
    /// file of a subsection is `sub/file`). Blank lines and `#` comments are
    /// skipped; a later key replaces an earlier one. A manifest with no entry
    /// is a `ParseError`.
    pub fn parse_manifest(&self, content: &str) -> (r: Result<Vec<(String, String)>, ManifestError>)
        ensures
            match r {
                Ok(m) => pairs_view(m@) == manifest_of(content@) && m.len() > 0,
                Err(e) => manifest_of(content@).len() == 0 && e is ParseError,
            },
    {
        let c = chars_of(content);
        let mut templates = false;
        let mut sub: Vec<char> = Vec::new();
        let mut map: Vec<(String, String)> = Vec::new();
        let mut i: usize = 0;
        proof {
            assert(pairs_view(map@) =~= Seq::empty());
            assert(sub@ =~= Seq::empty());
        }
        while i < c.len()
            invariant
                i <= c.len(),
                c@ == content@,
                manifest_of(c@) == scan_from(c@, i as int, (templates, sub@, pairs_view(map@))).2,
            decreases c.len() - i,
        {
            match index_of(&c, '\n', i) {
                Some(j) => {
                    let mut line = slice_chars(&c, i, j);
                    if line.len() > 0 && line[line.len() - 1] == '\r' {
                        line.pop();
                    }
                    proof {
                        assert(line@ =~= strip_cr(c@.subrange(i as int, j as int)));
                    }
                    scan_line_exec(&mut templates, &mut sub, &mut map, &line);
                    i = j + 1;
                },
                None => {
                    let line = slice_chars(&c, i, c.len());
                    scan_line_exec(&mut templates, &mut sub, &mut map, &line);
                    proof {
                        assert(scan_from(c@, c.len() as int, (templates, sub@, pairs_view(map@)))
                            == (templates, sub@, pairs_view(map@)));
                    }
                    i = c.len();
                },
            }
        }
        if map.len() == 0 {
            return Err(
                ManifestError::ParseError(String::from_str("No valid entries found in manifest")),
            );
        }
        Ok(map)
    }

    /// The entries of a parsed manifest, without its `type` field, listed
    /// directories first and then by name; each one's address is the base
    /// directory, a slash, and its name.
    pub fn entries(&self, manifest: &Vec<(String, String)>) -> (r: Vec<FileEntry>)
        ensures
            entry_views(r@).to_multiset() == entry_list(
                pairs_view(manifest@),
                self.base_view(),
            ).to_multiset(),
            entries_sorted(entry_views(r@)),
    {
        let ghost m = pairs_view(manifest@);
        let ghost base = self.base_view();
        let slash = chars_of("/");
        let type_word = chars_of("type");
        proof {
            reveal_strlit("/");
        }
        let mut list: Vec<FileEntry> = Vec::new();
        let mut k: usize = 0;
        proof {
            assert(entry_views(list@) =~= Seq::empty());
        }
        while k < manifest.len()
            invariant
                k <= manifest.len(),
                m == pairs_view(manifest@),
                base == self.base_view(),
                slash@ == "/"@,
                type_word@ == "type"@,
                slash.len() == 1,
                entry_views(list@) == entry_list(m.take(k as int), base),
            decreases manifest.len() - k,
        {
            proof {
                assert(m.take(k + 1).drop_last() =~= m.take(k as int));
            }
            let key = chars_of(manifest[k].0.as_str());
            let value = chars_of(manifest[k].1.as_str());
            if !crate::text::same_chars(&key, &type_word) {
                let is_directory = ends_with_chars(&key, &slash) || ends_with_chars(&value, &slash);
                let name = string_of(&strip_suffix_all(&key, &slash));
                let mut full_url = self.base_url.clone();
                full_url.append("/");
                full_url.append(name.as_str());
                let ghost before = list@;
                list.push(FileEntry { name, is_directory, full_url });
                proof {
                    assert(entry_views(list@) =~= entry_views(before).push(
                        entry_of(m[k as int], base),
                    ));
                }
            }
            k = k + 1;
        }
        proof {
            assert(m.take(k as int) =~= m);
        }
        sort_entries(list)
    }

    /// The entries that the manifest text `content` lists, in listing order:
    /// `parse_manifest`, then `entries`.
    pub fn list_entries(&self, content: &str) -> (r: Result<Vec<FileEntry>, ManifestError>)
        ensures
            match r {
                Ok(v) => manifest_of(content@).len() > 0 && entry_views(v@).to_multiset()
                    == entry_list(manifest_of(content@), self.base_view()).to_multiset()
                    && entries_sorted(entry_views(v@)),
                Err(e) => manifest_of(content@).len() == 0 && e is ParseError,
            },
    {
        let m = self.parse_manifest(content)?;
        Ok(self.entries(&m))
    }
}

} // verus!
