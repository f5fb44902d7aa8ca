use vstd::prelude::*;

use crate::text::{
    all_ascii, ascii_lower, chars_of, index_from, index_of, lemma_index_from_bounds, lower_of, lowercase, pairs_view,
    slice_chars, string_of, string_views, trim_chars, trim_of,
};

verus! {

/// `s` with every space made a hyphen.
pub open spec fn dash_spaces(s: Seq<char>) -> Seq<char> {
    s.map_values(|c: char| if c == ' ' { '-' } else { c })
}

/// The identity of a placeholder or parameter key: trimmed, lower-cased,
/// with spaces made hyphens.
pub open spec fn norm(s: Seq<char>) -> Seq<char> {
    dash_spaces(lower_of(trim_of(s)))
}

/// The pairs with each key normalised.
pub open spec fn norm_pairs(v: Seq<(Seq<char>, Seq<char>)>) -> Seq<(Seq<char>, Seq<char>)> {
    v.map_values(|p: (Seq<char>, Seq<char>)| (norm(p.0), p.1))
}

/// The value of the last pair whose key is `name`.
pub open spec fn last_value(pairs: Seq<(Seq<char>, Seq<char>)>, name: Seq<char>) -> Option<
    Seq<char>,
>
    decreases pairs.len(),
{
    if pairs.len() == 0 {
        None
    } else if pairs.last().0 == name {
        Some(pairs.last().1)
    } else {
        last_value(pairs.drop_last(), name)
    }
}

/// Where the placeholder that opens at `i` closes: a `[` runs to the next
/// `]`, a `<` to the next `>`. `None` when no placeholder opens at `i`.
pub open spec fn token_end(t: Seq<char>, i: int) -> Option<int> {
    if 0 <= i < t.len() && t[i] == '[' {
        index_from(t, ']', i + 1)
    } else if 0 <= i < t.len() && t[i] == '<' {
        index_from(t, '>', i + 1)
    } else {
        None
    }
}

/// The value that a placeholder named `name` takes: from the parameters
/// (keys normalised), else from the answers (keys taken as they are).
pub open spec fn resolve(
    params: Seq<(Seq<char>, Seq<char>)>,
    answers: Seq<(Seq<char>, Seq<char>)>,
    name: Seq<char>,
) -> Option<Seq<char>> {
    match last_value(norm_pairs(params), name) {
        Some(v) => Some(v),
        None => last_value(answers, name),
    }
}

/// What the placeholder from `i` to `j` becomes: its value, or itself.
pub open spec fn replacement(
    t: Seq<char>,
    i: int,
    j: int,
    params: Seq<(Seq<char>, Seq<char>)>,
    answers: Seq<(Seq<char>, Seq<char>)>,
) -> Seq<char> {
    match resolve(params, answers, norm(t.subrange(i + 1, j))) {
        Some(v) => v,
        None => t.subrange(i, j + 1),
    }
}

/// The text from `i` on with each placeholder replaced by its value, or
/// left as it was where it has none. The scan goes left to right and never
/// looks at a value it put in.
pub open spec fn fill_from(
    t: Seq<char>,
    i: int,
    params: Seq<(Seq<char>, Seq<char>)>,
    answers: Seq<(Seq<char>, Seq<char>)>,
) -> Seq<char>
    decreases t.len() - i,
{
    if i < 0 || i >= t.len() {
        Seq::empty()
    } else {
        match token_end(t, i) {
            Some(j) => if i < j < t.len() {
                replacement(t, i, j, params, answers) + fill_from(t, j + 1, params, answers)
            } else {
                Seq::empty()
            },
            None => seq![t[i]] + fill_from(t, i + 1, params, answers),
        }
    }
}

/// The names of the placeholders of `t` from `i` on, in order, repeats kept.
pub open spec fn names_from(t: Seq<char>, i: int) -> Seq<Seq<char>>
    decreases t.len() - i,
{
    if i < 0 || i >= t.len() {
        Seq::empty()
    } else {
        match token_end(t, i) {
            Some(j) => if i < j < t.len() {
                seq![norm(t.subrange(i + 1, j))] + names_from(t, j + 1)
            } else {
                Seq::empty()
            },
            None => names_from(t, i + 1),
        }
    }
}

/// The text with its placeholders filled.
pub open spec fn filled_text(
    t: Seq<char>,
    params: Seq<(Seq<char>, Seq<char>)>,
    answers: Seq<(Seq<char>, Seq<char>)>,
) -> Seq<char> {
    fill_from(t, 0, params, answers)
}

/// The names of the placeholders of `t`, in order, repeats kept.
pub open spec fn placeholder_names(t: Seq<char>) -> Seq<Seq<char>> {
    names_from(t, 0)
}

/// The keys of the parameters whose normalised key names no placeholder, in order.
pub open spec fn unused_keys(params: Seq<(Seq<char>, Seq<char>)>, names: Seq<Seq<char>>) -> Seq<
    Seq<char>,
>
    decreases params.len(),
{
    if params.len() == 0 {
        Seq::empty()
    } else {
        let rest = unused_keys(params.drop_last(), names);
        if names.contains(norm(params.last().0)) {
            rest
        } else {
            rest.push(params.last().0)
        }
    }
}

/// `s` with repeats dropped, each item kept where it first appears.
pub open spec fn dedup(s: Seq<Seq<char>>) -> Seq<Seq<char>>
    decreases s.len(),
{
    if s.len() == 0 {
        Seq::empty()
    } else {
        let d = dedup(s.drop_last());
        if d.contains(s.last()) {
            d
        } else {
            d.push(s.last())
        }
    }
}

/// The distinct names of `names` that take no value, in order of first appearance.
pub open spec fn unresolved(
    names: Seq<Seq<char>>,
    params: Seq<(Seq<char>, Seq<char>)>,
    answers: Seq<(Seq<char>, Seq<char>)>,
) -> Seq<Seq<char>>
    decreases names.len(),
{
    if names.len() == 0 {
        Seq::empty()
    } else {
        let d = unresolved(names.drop_last(), params, answers);
        if resolve(params, answers, names.last()) is None && !d.contains(names.last()) {
            d.push(names.last())
        } else {
            d
        }
    }
}

/// The same items are in `s` and in `dedup(s)`.
pub proof fn lemma_dedup_contains(s: Seq<Seq<char>>, x: Seq<char>)
    ensures
        dedup(s).contains(x) == s.contains(x),
    decreases s.len(),
{
    if s.len() > 0 {
        let p = s.drop_last();
        let d = dedup(p);
        lemma_dedup_contains(p, x);
        assert(s =~= p.push(s.last()));
        if p.contains(x) {
            let k = choose|k: int| 0 <= k < p.len() && p[k] == x;
            assert(s[k] == x);
        }
        if s.contains(x) && x != s.last() {
            let k = choose|k: int| 0 <= k < s.len() && s[k] == x;
            assert(p[k] == x);
        }
        if d.contains(x) {
            let k = choose|k: int| 0 <= k < d.len() && d[k] == x;
            assert(d.push(s.last())[k] == x);
        }
        if !d.contains(s.last()) {
            assert(d.push(s.last())[d.len() as int] == s.last());
            if d.push(s.last()).contains(x) && !d.contains(x) {
                let k = choose|k: int| 0 <= k < d.len() + 1 && d.push(s.last())[k] == x;
                if k < d.len() {
                    assert(d[k] == x);
                }
                assert(s[s.len() - 1] == x);
            }
        }
    }
}

/// What one run of the engine gives: the text, the distinct placeholder
/// names in order of first appearance, those left unfilled, and the
/// parameter keys that matched nothing.
#[derive(Debug)]
pub struct PlaceholderReport {
    pub text: String,
    pub found: Vec<String>,
    pub unfilled: Vec<String>,
    pub unused: Vec<String>,
}

/// The identity of a placeholder or parameter key: trimmed, lower-cased,
/// with spaces made hyphens.
pub fn normalize_placeholder_key(s: &str) -> (r: String)
    ensures
        r@ == norm(s@),
        all_ascii(trim_of(s@)) ==> r@ == dash_spaces(ascii_lower(trim_of(s@))),
{
    let c = chars_of(s);
    let trimmed = trim_chars(&c);
    let ts = string_of(&trimmed);
    let low = lowercase(ts.as_str());
    let lc = chars_of(low.as_str());
    let mut out: Vec<char> = Vec::new();
    let mut i: usize = 0;
    while i < lc.len()
        invariant
            i <= lc.len(),
            lc@ == lower_of(trim_of(s@)),
            out@ == dash_spaces(lc@.take(i as int)),
        decreases lc.len() - i,
    {
        let ch = lc[i];
        if ch == ' ' {
            out.push('-');
        } else {
            out.push(ch);
        }
        proof {
            assert(dash_spaces(lc@.take(i + 1)) =~= dash_spaces(lc@.take(i as int)).push(
                out@.last(),
            ));
        }
        i = i + 1;
    }
    proof {
        assert(lc@.take(i as int) =~= lc@);
    }
    string_of(&out)
}

/// The position of the last pair whose key is `name`.
pub(crate) fn last_index(pairs: &Vec<(String, String)>, name: &String) -> (r: Option<usize>)
    ensures
        match r {
            Some(k) => k < pairs.len() && last_value(pairs_view(pairs@), name@) == Some(
                pairs@[k as int].1@,
            ),
            None => last_value(pairs_view(pairs@), name@) is None,
        },
{
    let ghost pv = pairs_view(pairs@);
    let mut k: usize = pairs.len();
    proof {
        assert(pv.take(k as int) =~= pv);
    }
    while k > 0
        invariant
            k <= pairs.len(),
            pv == pairs_view(pairs@),
            last_value(pv, name@) == last_value(pv.take(k as int), name@),
        decreases k,
    {
        proof {
            assert(pv.take(k as int).drop_last() =~= pv.take(k - 1));
        }
        if pairs[k - 1].0 == *name {
            return Some(k - 1);
        }
        k = k - 1;
    }
    None
}

/// Whether `v` holds a string equal to `s`.
fn holds(v: &Vec<String>, s: &String) -> (r: bool)
    ensures
        r == string_views(v@).contains(s@),
{
    let mut k: usize = 0;
    while k < v.len()
        invariant
            k <= v.len(),
            forall|m: int| 0 <= m < k ==> v@[m]@ != s@,
        decreases v.len() - k,
    {
        if v[k] == *s {
            assert(string_views(v@)[k as int] == s@);
            return true;
        }
        k = k + 1;
    }
    assert forall|m: int| 0 <= m < string_views(v@).len() implies string_views(v@)[m] != s@ by {
        assert(v@[m]@ != s@);
    }
    false
}

/// The parameters with each key normalised.
fn normalized_params(params: &Vec<(String, String)>) -> (r: Vec<(String, String)>)
    ensures
        pairs_view(r@) == norm_pairs(pairs_view(params@)),
{
    let mut r: Vec<(String, String)> = Vec::new();
    let mut k: usize = 0;
    while k < params.len()
        invariant
            k <= params.len(),
            pairs_view(r@) == norm_pairs(pairs_view(params@)).take(k as int),
        decreases params.len() - k,
    {
        let key = normalize_placeholder_key(params[k].0.as_str());
        let value = params[k].1.clone();
        let ghost before = r@;
        r.push((key, value));
        proof {
            assert(r@ == before.push((key, value)));
            assert(pairs_view(r@) =~= pairs_view(before).push((key@, value@)));
            assert(norm_pairs(pairs_view(params@)).take(k + 1) =~= norm_pairs(
                pairs_view(params@),
            ).take(k as int).push((norm(params@[k as int].0@), params@[k as int].1@)));
        }
        k = k + 1;
    }
    proof {
        assert(norm_pairs(pairs_view(params@)).take(k as int) =~= norm_pairs(
            pairs_view(params@),
        ));
    }
    r
}

/// A placeholder that has a value is replaced by that value as it stands,
/// and the scan goes on after the placeholder: whatever the value holds,
/// brackets included, is never taken for a placeholder in the same pass.
pub proof fn lemma_value_taken_verbatim(
    t: Seq<char>,
    i: int,
    params: Seq<(Seq<char>, Seq<char>)>,
    answers: Seq<(Seq<char>, Seq<char>)>,
    v: Seq<char>,
)
    requires
        0 <= i < t.len(),
        token_end(t, i) is Some,
        resolve(params, answers, norm(t.subrange(i + 1, token_end(t, i)->0))) == Some(v),
    ensures
        fill_from(t, i, params, answers) == v + fill_from(
            t,
            token_end(t, i)->0 + 1,
            params,
            answers,
        ),
{
    let j = token_end(t, i)->0;
    lemma_index_from_bounds(t, if t[i] == '[' { ']' } else { '>' }, i + 1);
}

/// A placeholder without a value stays in the text as it was, brackets
/// included, and the scan goes on after it.
pub proof fn lemma_unresolved_kept(
    t: Seq<char>,
    i: int,
    params: Seq<(Seq<char>, Seq<char>)>,
    answers: Seq<(Seq<char>, Seq<char>)>,
)
    requires
        0 <= i < t.len(),
        token_end(t, i) is Some,
        resolve(params, answers, norm(t.subrange(i + 1, token_end(t, i)->0))) is None,
    ensures
        fill_from(t, i, params, answers) == t.subrange(i, token_end(t, i)->0 + 1) + fill_from(
            t,
            token_end(t, i)->0 + 1,
            params,
            answers,
        ),
{
    lemma_index_from_bounds(t, if t[i] == '[' { ']' } else { '>' }, i + 1);
}

/// Every name reported unfilled is among the names found.
pub proof fn lemma_unfilled_were_found(
    names: Seq<Seq<char>>,
    params: Seq<(Seq<char>, Seq<char>)>,
    answers: Seq<(Seq<char>, Seq<char>)>,
    n: Seq<char>,
)
    requires
        unresolved(names, params, answers).contains(n),
    ensures
        dedup(names).contains(n),
        resolve(params, answers, n) is None,
    decreases names.len(),
{
    let p = names.drop_last();
    let d = unresolved(p, params, answers);
    lemma_dedup_contains(names, n);
    if d.contains(n) {
        lemma_unfilled_were_found(p, params, answers, n);
        lemma_dedup_contains(p, n);
        let k = choose|k: int| 0 <= k < p.len() && p[k] == n;
        assert(names[k] == n);
    } else {
        let u = unresolved(names, params, answers);
        let k = choose|k: int| 0 <= k < u.len() && u[k] == n;
        assert(u == d.push(names.last()));
        if k < d.len() {
            assert(d[k] == n);
        }
        assert(names[names.len() - 1] == n);
    }
}

/// Whether `s` holds none of the bracket characters `[`, `]`, `<`, `>`.
pub open spec fn no_brackets(s: Seq<char>) -> bool {
    forall|k: int| 0 <= k < s.len() ==> s[k] != '[' && s[k] != ']' && s[k] != '<' && s[k] != '>'
}

/// Whether every value of the parameters and answers is free of brackets.
pub open spec fn values_bracket_free(
    params: Seq<(Seq<char>, Seq<char>)>,
    answers: Seq<(Seq<char>, Seq<char>)>,
) -> bool {
    &&& forall|k: int| 0 <= k < params.len() ==> no_brackets(#[trigger] params[k].1)
    &&& forall|k: int| 0 <= k < answers.len() ==> no_brackets(#[trigger] answers[k].1)
}

proof fn lemma_last_value_from(pairs: Seq<(Seq<char>, Seq<char>)>, name: Seq<char>)
    ensures
        last_value(pairs, name) matches Some(v) ==> exists|k: int| 0 <= k < pairs.len() && pairs[k].1 == v,
    decreases pairs.len(),
{
    if pairs.len() > 0 && pairs.last().0 != name {
        lemma_last_value_from(pairs.drop_last(), name);
        if last_value(pairs, name) is Some {
            let k = choose|k: int| 0 <= k < pairs.drop_last().len() && pairs.drop_last()[k].1
                == last_value(pairs, name)->0;
            assert(pairs[k].1 == last_value(pairs, name)->0);
        }
    } else if pairs.len() > 0 {
        assert(pairs[pairs.len() - 1].1 == pairs.last().1);
    }
}

proof fn lemma_resolved_bracket_free(
    params: Seq<(Seq<char>, Seq<char>)>,
    answers: Seq<(Seq<char>, Seq<char>)>,
    name: Seq<char>,
)
    requires
        values_bracket_free(params, answers),
    ensures
        resolve(params, answers, name) matches Some(v) ==> no_brackets(v),
{
    lemma_last_value_from(norm_pairs(params), name);
    lemma_last_value_from(answers, name);
    if last_value(norm_pairs(params), name) is Some {
        let k = choose|k: int|
            0 <= k < norm_pairs(params).len() && norm_pairs(params)[k].1 == last_value(
                norm_pairs(params),
                name,
            )->0;
        assert(no_brackets(params[k].1));
    } else if last_value(answers, name) is Some {
        let k = choose|k: int| 0 <= k < answers.len() && answers[k].1 == last_value(answers, name)->0;
        assert(no_brackets(answers[k].1));
    }
}

proof fn lemma_index_shift(p: Seq<char>, x: Seq<char>, c: char, m: int)
    requires
        0 <= m,
    ensures
        index_from(p + x, c, p.len() + m) == match index_from(x, c, m) {
            Some(j) => Some(p.len() + j),
            None => None::<int>,
        },
    decreases x.len() - m,
{
    if m < x.len() {
        assert((p + x)[p.len() + m] == x[m]);
        lemma_index_shift(p, x, c, m + 1);
    }
}

proof fn lemma_fill_shift(
    p: Seq<char>,
    x: Seq<char>,
    m: int,
    params: Seq<(Seq<char>, Seq<char>)>,
    answers: Seq<(Seq<char>, Seq<char>)>,
)
    requires
        0 <= m,
    ensures
        fill_from(p + x, p.len() + m, params, answers) == fill_from(x, m, params, answers),
    decreases x.len() - m,
{
    let w = p + x;
    let i = p.len() + m;
    if m < x.len() {
        assert(w[i] == x[m]);
        lemma_index_shift(p, x, ']', m + 1);
        lemma_index_shift(p, x, '>', m + 1);
        match token_end(x, m) {
            Some(j) => {
                lemma_index_from_bounds(x, if x[m] == '[' { ']' } else { '>' }, m + 1);
                assert(token_end(w, i) == Some(p.len() + j));
                assert(w.subrange(i + 1, p.len() + j) =~= x.subrange(m + 1, j));
                assert(w.subrange(i, p.len() + j + 1) =~= x.subrange(m, j + 1));
                lemma_fill_shift(p, x, j + 1, params, answers);
            },
            None => {
                assert(token_end(w, i) is None);
                lemma_fill_shift(p, x, m + 1, params, answers);
            },
        }
    }
}

proof fn lemma_plain_prefix(
    v: Seq<char>,
    x: Seq<char>,
    k: int,
    params: Seq<(Seq<char>, Seq<char>)>,
    answers: Seq<(Seq<char>, Seq<char>)>,
)
    requires
        no_brackets(v),
        0 <= k <= v.len(),
    ensures
        fill_from(v + x, k, params, answers) == v.skip(k) + fill_from(v + x, v.len() as int, params, answers),
    decreases v.len() - k,
{
    if k < v.len() {
        let w = v + x;
        assert(w[k] == v[k]);
        assert(token_end(w, k) is None);
        lemma_plain_prefix(v, x, k + 1, params, answers);
        assert(v.skip(k) =~= seq![v[k]] + v.skip(k + 1));
    } else {
        assert(v.skip(k) =~= Seq::<char>::empty());
    }
}

proof fn lemma_index_none(w: Seq<char>, c: char, k: int)
    requires
        forall|m: int| k <= m < w.len() ==> w[m] != c,
    ensures
        index_from(w, c, k) is None,
    decreases w.len() - k,
{
    if 0 <= k < w.len() {
        lemma_index_none(w, c, k + 1);
    }
}

proof fn lemma_index_first(w: Seq<char>, c: char, k: int)
    requires
        0 <= k,
    ensures
        index_from(w, c, k) matches Some(j) ==> forall|m: int| k <= m < j ==> w[m] != c,
    decreases w.len() - k,
{
    if k < w.len() && w[k] != c {
        lemma_index_first(w, c, k + 1);
    }
}

proof fn lemma_index_at(w: Seq<char>, c: char, k: int, jj: int)
    requires
        0 <= k <= jj < w.len(),
        w[jj] == c,
        forall|m: int| k <= m < jj ==> w[m] != c,
    ensures
        index_from(w, c, k) == Some(jj),
    decreases jj - k,
{
    if k < jj {
        lemma_index_at(w, c, k + 1, jj);
    }
}

/// The text from `i` on holds no `c` after filling when it held none before
/// and no value brings one in.
proof fn lemma_fill_lacks(
    t: Seq<char>,
    i: int,
    c: char,
    params: Seq<(Seq<char>, Seq<char>)>,
    answers: Seq<(Seq<char>, Seq<char>)>,
)
    requires
        0 <= i,
        c == ']' || c == '>',
        values_bracket_free(params, answers),
        forall|k: int| i <= k < t.len() ==> t[k] != c,
    ensures
        forall|k: int|
            0 <= k < fill_from(t, i, params, answers).len() ==> fill_from(t, i, params, answers)[k] != c,
    decreases t.len() - i,
{
    if i < t.len() {
        match token_end(t, i) {
            Some(j) => {
                lemma_index_from_bounds(t, if t[i] == '[' { ']' } else { '>' }, i + 1);
                lemma_fill_lacks(t, j + 1, c, params, answers);
                let name = norm(t.subrange(i + 1, j));
                lemma_resolved_bracket_free(params, answers, name);
                let rep = replacement(t, i, j, params, answers);
                let rest = fill_from(t, j + 1, params, answers);
                assert forall|k: int| 0 <= k < rep.len() implies rep[k] != c by {
                    if resolve(params, answers, name) is None {
                        assert(rep[k] == t[i + k]);
                    }
                }
                assert forall|k: int| 0 <= k < (rep + rest).len() implies (rep + rest)[k] != c by {
                    if k < rep.len() {
                        assert((rep + rest)[k] == rep[k]);
                    } else {
                        assert((rep + rest)[k] == rest[k - rep.len()]);
                    }
                }
            },
            None => {
                lemma_fill_lacks(t, i + 1, c, params, answers);
                let rest = fill_from(t, i + 1, params, answers);
                assert forall|k: int|
                    0 <= k < (seq![t[i]] + rest).len() implies (seq![t[i]] + rest)[k] != c by {
                    if k > 0 {
                        assert((seq![t[i]] + rest)[k] == rest[k - 1]);
                    }
                }
            },
        }
    }
}

/// What the fill gives from `i` on is left as it is by a second fill, when
/// no value holds a bracket.
proof fn lemma_fill_fixed(
    t: Seq<char>,
    i: int,
    params: Seq<(Seq<char>, Seq<char>)>,
    answers: Seq<(Seq<char>, Seq<char>)>,
)
    requires
        0 <= i,
        values_bracket_free(params, answers),
    ensures
        fill_from(fill_from(t, i, params, answers), 0, params, answers) == fill_from(t, i, params, answers),
    decreases t.len() - i,
{
    let out = fill_from(t, i, params, answers);
    if i >= t.len() {
        return;
    }
    match token_end(t, i) {
        Some(j) => {
            let c = if t[i] == '[' { ']' } else { '>' };
            lemma_index_from_bounds(t, c, i + 1);
            lemma_index_first(t, c, i + 1);
            lemma_fill_fixed(t, j + 1, params, answers);
            let rest = fill_from(t, j + 1, params, answers);
            let name = norm(t.subrange(i + 1, j));
            match resolve(params, answers, name) {
                Some(v) => {
                    lemma_resolved_bracket_free(params, answers, name);
                    assert(out == v + rest);
                    lemma_plain_prefix(v, rest, 0, params, answers);
                    lemma_fill_shift(v, rest, 0, params, answers);
                    assert(v.skip(0) =~= v);
                },
                None => {
                    let kept = t.subrange(i, j + 1);
                    assert(out == kept + rest);
                    let jj = j - i;
                    assert(out[0] == t[i]);
                    assert(out[jj] == t[j]);
                    assert forall|m: int| 1 <= m < jj implies out[m] != c by {
                        assert(out[m] == t[i + m]);
                    }
                    lemma_index_at(out, c, 1, jj);
                    assert(token_end(out, 0) == Some(jj));
                    assert(out.subrange(1, jj) =~= t.subrange(i + 1, j));
                    assert(out.subrange(0, jj + 1) =~= kept);
                    lemma_fill_shift(kept, rest, 0, params, answers);
                    assert(kept.len() == jj + 1);
                },
            }
        },
        None => {
            lemma_fill_fixed(t, i + 1, params, answers);
            let rest = fill_from(t, i + 1, params, answers);
            assert(out == seq![t[i]] + rest);
            assert(out[0] == t[i]);
            if t[i] == '[' || t[i] == '<' {
                let c = if t[i] == '[' { ']' } else { '>' };
                lemma_index_none_from(t, c, i + 1);
                lemma_fill_lacks(t, i + 1, c, params, answers);
                assert forall|m: int| 1 <= m < out.len() implies out[m] != c by {
                    assert(out[m] == rest[m - 1]);
                }
                lemma_index_none(out, c, 1);
            }
            assert(token_end(out, 0) is None);
            lemma_fill_shift(seq![t[i]], rest, 0, params, answers);
        },
    }
}

proof fn lemma_index_none_from(t: Seq<char>, c: char, k: int)
    requires
        0 <= k,
        index_from(t, c, k) is None,
    ensures
        forall|m: int| k <= m < t.len() ==> t[m] != c,
    decreases t.len() - k,
{
    if k < t.len() {
        lemma_index_none_from(t, c, k + 1);
    }
}

/// Filling a text whose parameter and answer values hold no brackets, and
/// then filling the result again with the same values, gives the result of
/// the first fill: a second run finds only the placeholders left unfilled,
/// and leaves them as they are.
pub proof fn lemma_fill_idempotent(
    t: Seq<char>,
    params: Seq<(Seq<char>, Seq<char>)>,
    answers: Seq<(Seq<char>, Seq<char>)>,
)
    requires
        values_bracket_free(params, answers),
    ensures
        filled_text(filled_text(t, params, answers), params, answers) == filled_text(t, params, answers),
{
    lemma_fill_fixed(t, 0, params, answers);
}

/// Fills the placeholders of `text` in one left-to-right pass. A placeholder
/// is `[name]` or `<name>`, running to the first matching close; its name is
/// normalised (trimmed, lower-cased, spaces made hyphens). Its value comes
/// from the last parameter whose normalised key is that name, else from the
/// last answer keyed by that name; without one it stays as it was. Values put
/// in are never scanned again. The report lists the distinct names found,
/// those left unfilled, and the parameter keys that matched no placeholder.
pub fn fill_placeholders(
    text: &str,
    params: &Vec<(String, String)>,
    answers: &Vec<(String, String)>,
) -> (r: PlaceholderReport)
    ensures
        r.text@ == filled_text(text@, pairs_view(params@), pairs_view(answers@)),
        string_views(r.found@) == dedup(placeholder_names(text@)),
        string_views(r.unfilled@) == unresolved(
            placeholder_names(text@),
            pairs_view(params@),
            pairs_view(answers@),
        ),
        string_views(r.unused@) == unused_keys(pairs_view(params@), placeholder_names(text@)),
{
    let ghost pv = pairs_view(params@);
    let ghost av = pairs_view(answers@);
    let t = chars_of(text);
    let np = normalized_params(params);
    let mut out = String::new();
    let mut found: Vec<String> = Vec::new();
    let mut unfilled: Vec<String> = Vec::new();
    let ghost mut seen: Seq<Seq<char>> = Seq::empty();
    let mut i: usize = 0;
    proof {
        assert(string_views(found@) =~= Seq::<Seq<char>>::empty());
        assert(string_views(unfilled@) =~= Seq::<Seq<char>>::empty());
        assert(seen + names_from(t@, 0) =~= names_from(t@, 0));
    }
    while i < t.len()
        invariant
            i <= t.len(),
            t@ == text@,
            pv == pairs_view(params@),
            av == pairs_view(answers@),
            pairs_view(np@) == norm_pairs(pv),
            filled_text(t@, pv, av) == out@ + fill_from(t@, i as int, pv, av),
            placeholder_names(t@) == seen + names_from(t@, i as int),
            string_views(found@) == dedup(seen),
            string_views(unfilled@) == unresolved(seen, pv, av),
        decreases t.len() - i,
    {
        let c = t[i];
        let end = if c == '[' {
            index_of(&t, ']', i + 1)
        } else if c == '<' {
            index_of(&t, '>', i + 1)
        } else {
            None
        };
        assert(end == None::<usize> ==> token_end(t@, i as int) is None);
        match end {
            Some(j) => {
                assert(token_end(t@, i as int) == Some(j as int));
                let raw = slice_chars(&t, i + 1, j);
                let raw_s = string_of(&raw);
                let name = normalize_placeholder_key(raw_s.as_str());
                let ghost rest = fill_from(t@, j + 1, pv, av);
                let value = match last_index(&np, &name) {
                    Some(k) => Some(np[k].1.clone()),
                    None => match last_index(answers, &name) {
                        Some(k) => Some(answers[k].1.clone()),
                        None => None,
                    },
                };
                assert(value matches Some(v) ==> resolve(pv, av, name@) == Some(v@));
                assert(value is None ==> resolve(pv, av, name@) is None);
                let ghost before = out@;
                match &value {
                    Some(v) => {
                        out.append(v.as_str());
                    },
                    None => {
                        let whole = slice_chars(&t, i, j + 1);
                        let ws = string_of(&whole);
                        out.append(ws.as_str());
                    },
                }
                proof {
                    assert(out@ == before + replacement(t@, i as int, j as int, pv, av));
                    assert(filled_text(t@, pv, av) == out@ + rest) by {
                        assert(before + (replacement(t@, i as int, j as int, pv, av) + rest)
                            =~= before + replacement(t@, i as int, j as int, pv, av) + rest);
                    }
                }
                let ghost old_found = found@;
                let ghost old_unfilled = unfilled@;
                if !holds(&found, &name) {
                    found.push(name.clone());
                }
                if value.is_none() && !holds(&unfilled, &name) {
                    unfilled.push(name.clone());
                }
                proof {
                    let s2 = seen.push(name@);
                    assert(s2.drop_last() =~= seen);
                    assert(s2.last() == name@);
                    if string_views(old_found).contains(name@) {
                        assert(found@ == old_found);
                    } else {
                        assert(string_views(found@) =~= string_views(old_found).push(name@));
                    }
                    if value is None && !string_views(old_unfilled).contains(name@) {
                        assert(string_views(unfilled@) =~= string_views(old_unfilled).push(
                            name@,
                        ));
                    } else {
                        assert(unfilled@ == old_unfilled);
                    }
                    assert(seq![name@] + names_from(t@, j + 1) == names_from(t@, i as int));
                    assert(seen + names_from(t@, i as int) =~= s2 + names_from(t@, j + 1));
                    seen = s2;
                }
                i = j + 1;
            },
            None => {
                let ghost before = out@;
                crate::text::push_char(&mut out, c);
                proof {
                    assert(fill_from(t@, i as int, pv, av) == seq![c] + fill_from(
                        t@,
                        i + 1,
                        pv,
                        av,
                    ));
                    assert(before + fill_from(t@, i as int, pv, av) =~= out@ + fill_from(
                        t@,
                        i + 1,
                        pv,
                        av,
                    ));
                    assert(names_from(t@, i as int) == names_from(t@, i + 1));
                }
                i = i + 1;
            },
        }
    }
    proof {
        assert(out@ + fill_from(t@, i as int, pv, av) =~= out@);
        assert(seen + names_from(t@, i as int) =~= seen);
    }
    let mut unused: Vec<String> = Vec::new();
    let mut k: usize = 0;
    while k < params.len()
        invariant
            k <= params.len(),
            pv == pairs_view(params@),
            pairs_view(np@) == norm_pairs(pv),
            np.len() == params.len(),
            string_views(found@) == dedup(seen),
            seen == placeholder_names(text@),
            string_views(unused@) == unused_keys(pv.take(k as int), seen),
        decreases params.len() - k,
    {
        proof {
            assert(pv.take(k + 1).drop_last() =~= pv.take(k as int));
            assert(pairs_view(np@)[k as int].0 == np@[k as int].0@);
            assert(norm_pairs(pv)[k as int].0 == norm(pv[k as int].0));
            lemma_dedup_contains(seen, np@[k as int].0@);
        }
        let ghost before = unused@;
        if !holds(&found, &np[k].0) {
            unused.push(params[k].0.clone());
            proof {
                assert(string_views(unused@) =~= string_views(before).push(pv[k as int].0));
            }
        }
        k = k + 1;
    }
    proof {
        assert(pv.take(k as int) =~= pv);
    }
    PlaceholderReport { text: out, found, unfilled, unused }
}

} // verus!
