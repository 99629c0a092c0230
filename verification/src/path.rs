//! Path syntax: a path names its target by `/`-separated components.
//!
//! Resolution strips a single leading `/` and then splits on every further
//! `/`.  There is no other normalization: no `.` or `..` handling, and an
//! empty component produced by `//` or by a trailing `/` is kept literally.
//! Splitting always yields at least one component; the empty path and the
//! bare root path `/` both reduce to the single empty component, which the
//! namespace operations reject.

use vstd::prelude::*;
use vstd::string::StrSliceExecFns;
use vstd::string::StringExecFns;

verus! {

/// Strip one leading `/`, if present.
pub open spec fn strip_leading_slash(p: Seq<char>) -> Seq<char> {
    if p.len() > 0 && p[0] == '/' {
        p.drop_first()
    } else {
        p
    }
}

/// Split on `/`.  The result always has at least one element; the empty
/// string splits into one empty component.
pub open spec fn split_components(p: Seq<char>) -> Seq<Seq<char>>
    decreases p.len(),
{
    if p.len() == 0 {
        seq![Seq::<char>::empty()]
    } else if p[0] == '/' {
        seq![Seq::<char>::empty()] + split_components(p.drop_first())
    } else {
        let rest = split_components(p.drop_first());
        seq![seq![p[0]] + rest[0]] + rest.drop_first()
    }
}

/// The component sequence of a path string.
pub open spec fn path_components(p: Seq<char>) -> Seq<Seq<char>> {
    split_components(strip_leading_slash(p))
}

/// A component sequence that designates the root itself (the empty path or
/// the bare `/`): a single empty component.
pub open spec fn is_root_components(comps: Seq<Seq<char>>) -> bool {
    comps.len() == 1 && comps[0].len() == 0
}

/// The views of a vector of owned components.
pub open spec fn component_views(comps: Seq<String>) -> Seq<Seq<char>> {
    comps.map_values(|s: String| s@)
}

/// Appending an owned component appends its view.
pub proof fn lemma_component_views_push(comps: Seq<String>, s: String)
    ensures
        component_views(comps.push(s)) == component_views(comps).push(s@),
{
    assert(component_views(comps.push(s)) =~= component_views(comps).push(s@));
}

/// Splitting yields at least one component.
pub proof fn lemma_split_components_len(p: Seq<char>)
    ensures
        split_components(p).len() >= 1,
    decreases p.len(),
{
    if p.len() == 0 {
    } else if p[0] == '/' {
    } else {
        lemma_split_components_len(p.drop_first());
    }
}

/// A separator-free string is a single component.
pub proof fn lemma_split_components_no_sep(p: Seq<char>)
    requires
        forall|j: int| 0 <= j < p.len() ==> p[j] != '/',
    ensures
        split_components(p) == seq![p],
    decreases p.len(),
{
    if p.len() == 0 {
        assert(p =~= Seq::<char>::empty());
        assert(split_components(p) =~~= seq![p]);
    } else {
        let rest = split_components(p.drop_first());
        lemma_split_components_no_sep(p.drop_first());
        assert(seq![p[0]] + p.drop_first() =~= p);
        assert(split_components(p) =~~= seq![p]);
    }
}

/// Splitting a string whose first `i` characters are separator-free: the
/// first component extends across that prefix.
pub proof fn lemma_split_components_step(p: Seq<char>, i: int)
    requires
        0 <= i <= p.len(),
        forall|j: int| 0 <= j < i ==> p[j] != '/',
    ensures
        split_components(p) == seq![p.take(i) + split_components(p.skip(i))[0]]
            + split_components(p.skip(i)).drop_first(),
    decreases i,
{
    lemma_split_components_len(p.skip(i));
    if i == 0 {
        assert(p.skip(0) =~= p);
        assert(p.take(0) + split_components(p)[0] =~= split_components(p)[0]);
        assert(split_components(p) =~~= seq![p.take(0) + split_components(p.skip(0))[0]]
            + split_components(p.skip(0)).drop_first());
    } else {
        let q = p.drop_first();
        lemma_split_components_step(q, i - 1);
        assert(q.skip(i - 1) =~= p.skip(i));
        assert(q.take(i - 1) =~= p.subrange(1, i));
        let tail0 = split_components(p.skip(i))[0];
        let tailrest = split_components(p.skip(i)).drop_first();
        // By the recursive case for q:
        assert(split_components(q) == seq![p.subrange(1, i) + tail0] + tailrest);
        assert(split_components(q)[0] == p.subrange(1, i) + tail0);
        assert(split_components(q).drop_first() =~= tailrest);
        assert(seq![p[0]] + (p.subrange(1, i) + tail0) =~= p.take(i) + tail0);
        assert(split_components(p) =~~= seq![p.take(i) + tail0] + tailrest);
    }
}

/// Split a path string into its owned components.
pub fn split_path(path: &str) -> (comps: Vec<String>)
    ensures
        component_views(comps@) == path_components(path@),
        comps@.len() >= 1,
{
    let n = path.unicode_len();
    let mut start: usize = 0;
    if n > 0 && path.get_char(0) == '/' {
        start = 1;
    }
    proof {
        if n > 0 && path@[0] == '/' {
            assert(path@.skip(1) =~= strip_leading_slash(path@));
        } else {
            assert(path@.skip(0) =~= strip_leading_slash(path@));
        }
    }
    let mut comps: Vec<String> = Vec::new();
    let mut i: usize = start;
    while i < n
        invariant
            start <= i <= n,
            n == path@.len(),
            path_components(path@) == component_views(comps@)
                + split_components(path@.skip(start as int)),
            forall|j: int| start <= j < i ==> path@[j] != '/',
        decreases n - i,
    {
        if path.get_char(i) == '/' {
            proof {
                let s0 = path@.skip(start as int);
                lemma_split_components_step(s0, i - start);
                assert(s0.skip(i - start) =~= path@.skip(i as int));
                assert(s0.take(i - start) =~= path@.subrange(start as int, i as int));
                assert(path@.skip(i as int).drop_first() =~= path@.skip(i + 1));
                lemma_split_components_len(path@.skip(i + 1));
                assert(split_components(path@.skip(i as int))
                    == seq![Seq::<char>::empty()] + split_components(path@.skip(i + 1)));
                assert(split_components(path@.skip(i as int))[0] =~= Seq::<char>::empty());
                assert(split_components(path@.skip(i as int)).drop_first()
                    =~= split_components(path@.skip(i + 1)));
                assert(path@.subrange(start as int, i as int) + Seq::<char>::empty()
                    =~= path@.subrange(start as int, i as int));
                assert(split_components(s0)
                    =~~= seq![path@.subrange(start as int, i as int)]
                        + split_components(path@.skip(i + 1)));
            }
            let comp = String::from_str(path.substring_char(start, i));
            proof {
                lemma_component_views_push(comps@, comp);
                assert(component_views(comps@).push(comp@)
                    + split_components(path@.skip(i + 1))
                    =~= component_views(comps@)
                        + (seq![comp@] + split_components(path@.skip(i + 1))));
            }
            comps.push(comp);
            start = i + 1;
        }
        i = i + 1;
    }
    let comp = String::from_str(path.substring_char(start, n));
    proof {
        assert(path@.skip(start as int) =~= path@.subrange(start as int, n as int));
        lemma_split_components_no_sep(path@.skip(start as int));
        lemma_component_views_push(comps@, comp);
        assert(component_views(comps@) + seq![comp@]
            =~= component_views(comps@).push(comp@));
    }
    comps.push(comp);
    comps
}

} // verus!
