use vstd::prelude::*;

use crate::text::chars_of;

verus! {

/// Whether `p` matches the whole of `t`: `*` stands for any run of characters
/// (the empty one included), `?` for exactly one, any other character for itself.
pub open spec fn wild_match(p: Seq<char>, t: Seq<char>) -> bool
    decreases p.len() + t.len(),
{
    if p.len() == 0 {
        t.len() == 0
    } else if p[0] == '*' {
        wild_match(p.drop_first(), t) || (t.len() > 0 && wild_match(p, t.drop_first()))
    } else if p[0] == '?' {
        t.len() > 0 && wild_match(p.drop_first(), t.drop_first())
    } else {
        t.len() > 0 && t[0] == p[0] && wild_match(p.drop_first(), t.drop_first())
    }
}

/// A lone `*` matches every text, the empty one included.
pub proof fn lemma_star_matches_all(t: Seq<char>)
    ensures
        wild_match(seq!['*'], t),
    decreases t.len(),
{
    let p = seq!['*'];
    assert(p.len() == 1 && p[0] == '*');
    assert(p.drop_first() =~= Seq::<char>::empty());
    if t.len() > 0 {
        lemma_star_matches_all(t.drop_first());
    } else {
        assert(wild_match(p.drop_first(), t));
    }
    assert(wild_match(p, t));
}

/// The items of `items` that `pattern` matches, in their order.
pub open spec fn wild_filter(pattern: Seq<char>, items: Seq<String>) -> Seq<String>
    decreases items.len(),
{
    if items.len() == 0 {
        Seq::empty()
    } else {
        let rest = wild_filter(pattern, items.drop_last());
        if wild_match(pattern, items.last()@) {
            rest.push(items.last())
        } else {
            rest
        }
    }
}

/// Keeps the items that `pattern` matches, in their order.
pub fn filter_by_wildcard(pattern: &str, items: &[String]) -> (r: Vec<String>)
    ensures
        r@ == wild_filter(pattern@, items@),
{
    let p = chars_of(pattern);
    let mut r: Vec<String> = Vec::new();
    let mut i: usize = 0;
    while i < items.len()
        invariant
            i <= items.len(),
            p@ == pattern@,
            r@ == wild_filter(pattern@, items@.take(i as int)),
        decreases items.len() - i,
    {
        let t = chars_of(items[i].as_str());
        let ok = matches_recursive(p.as_slice(), t.as_slice(), 0, 0);
        proof {
            assert(items@.take(i + 1).drop_last() =~= items@.take(i as int));
            assert(p@.skip(0) =~= p@);
            assert(t@.skip(0) =~= t@);
        }
        if ok {
            r.push(items[i].clone());
        }
        i = i + 1;
    }
    proof {
        assert(items@.take(i as int) =~= items@);
    }
    r
}

/// Whether `pattern` matches the whole of `text`.
pub fn matches_wildcard(pattern: &str, text: &str) -> (r: bool)
    ensures
        r == wild_match(pattern@, text@),
{
    let p = chars_of(pattern);
    let t = chars_of(text);
    proof {
        assert(p@.skip(0) =~= p@);
        assert(t@.skip(0) =~= t@);
    }
    matches_recursive(p.as_slice(), t.as_slice(), 0, 0)
}

/// Whether the pattern from `p_idx` on matches the text from `t_idx` on.
pub fn matches_recursive(pattern: &[char], text: &[char], p_idx: usize, t_idx: usize) -> (r: bool)
    requires
        p_idx <= pattern.len(),
        t_idx <= text.len(),
    ensures
        r == wild_match(pattern@.skip(p_idx as int), text@.skip(t_idx as int)),
    decreases pattern.len() - p_idx,
{
    let ghost p = pattern@.skip(p_idx as int);
    let ghost t = text@.skip(t_idx as int);
    if p_idx == pattern.len() {
        return t_idx == text.len();
    }
    proof {
        assert(p.drop_first() =~= pattern@.skip(p_idx + 1));
    }
    let c = pattern[p_idx];
    assert(p[0] == c);
    if c == '*' {
        let mut i: usize = t_idx;
        loop
            invariant
                t_idx <= i <= text.len(),
                p_idx < pattern.len(),
                p == pattern@.skip(p_idx as int),
                p.len() > 0,
                p[0] == '*',
                p.drop_first() == pattern@.skip(p_idx + 1),
                t == text@.skip(t_idx as int),
                wild_match(p, t) == wild_match(p, text@.skip(i as int)),
            decreases text.len() - i,
        {
            if matches_recursive(pattern, text, p_idx + 1, i) {
                return true;
            }
            if i == text.len() {
                assert(text@.skip(i as int).len() == 0);
                return false;
            }
            proof {
                assert(text@.skip(i as int).drop_first() =~= text@.skip(i + 1));
            }
            i = i + 1;
        }
    } else if c == '?' {
        if t_idx < text.len() {
            proof {
                assert(t.drop_first() =~= text@.skip(t_idx + 1));
            }
            matches_recursive(pattern, text, p_idx + 1, t_idx + 1)
        } else {
            false
        }
    } else {
        if t_idx < text.len() && text[t_idx] == c {
            proof {
                assert(t.drop_first() =~= text@.skip(t_idx + 1));
            }
            matches_recursive(pattern, text, p_idx + 1, t_idx + 1)
        } else {
            false
        }
    }
}

} // verus!
