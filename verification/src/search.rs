//! Filtering the walker's flattened path list by a search string: a path is
//! kept when its base name contains the search string. The base name is the
//! final component as std reads a slash-separated path: trailing separators
//! and trailing `.` components are skipped, and a path that ends in a `..`
//! component — or holds no real component at all — has no base name. The
//! filter asks its callers to keep such paths out, as the original name
//! lookup fails on them.

use vstd::prelude::*;
use vstd::string::StrSliceExecFns;

verus! {

/// The needle occurs in the haystack starting at position `i`.
pub open spec fn match_at(hay: Seq<char>, needle: Seq<char>, i: int) -> bool {
    hay.subrange(i, i + needle.len()) == needle
}

/// The needle occurs somewhere in the haystack. An empty needle occurs in
/// every haystack.
pub open spec fn contains_seq(hay: Seq<char>, needle: Seq<char>) -> bool {
    exists|i: int| 0 <= i <= hay.len() - needle.len() && match_at(hay, needle, i)
}

/// The path's last character is a `.` standing as a component of its own:
/// the whole path, or preceded by a separator.
pub open spec fn ends_in_dot_segment(p: Seq<char>) -> bool {
    p.len() > 0 && p.last() == '.' && (p.len() == 1 || p[p.len() - 2] == '/')
}

/// The path with everything std's component reading ignores at its end
/// removed: trailing separators and trailing `.` components, one character
/// at a time. A `..` component stays, as does a name such as `...`.
pub open spec fn strip_ignorable_tail(p: Seq<char>) -> Seq<char>
    decreases p.len(),
{
    if p.len() == 0 {
        p
    } else if p.last() == '/' || ends_in_dot_segment(p) {
        strip_ignorable_tail(p.drop_last())
    } else {
        p
    }
}

/// The part of a path after its last `/`; the whole path when it holds none.
pub open spec fn last_segment(p: Seq<char>) -> Seq<char>
    decreases p.len(),
{
    if p.len() == 0 {
        p
    } else if p.last() == '/' {
        Seq::empty()
    } else {
        last_segment(p.drop_last()).push(p.last())
    }
}

/// A path's base name: its final component as std reads it — trailing
/// separators and `.` components skipped, so `/a/b`, `/a/b/` and `/a/b/.`
/// all end in `b`. On a path without a final component (see
/// `has_base_name`) the value is the leftover text, such as `..`; the
/// filter's domain excludes those paths.
pub open spec fn base_name(p: Seq<char>) -> Seq<char> {
    last_segment(strip_ignorable_tail(p))
}

/// The path holds a final component: after the ignorable tail goes,
/// something remains and it is not a `..` component — exactly the paths on
/// which std's file-name lookup finds a name.
pub open spec fn has_base_name(p: Seq<char>) -> bool {
    strip_ignorable_tail(p).len() > 0 && base_name(p) != seq!['.', '.']
}

/// Whether a path is kept: its base name contains the search string.
pub open spec fn keeps(p: Seq<char>, pat: Seq<char>) -> bool {
    contains_seq(base_name(p), pat)
}

/// The paths kept by the filter, in their given order.
pub open spec fn matching(names: Seq<Seq<char>>, pat: Seq<char>) -> Seq<Seq<char>>
    decreases names.len(),
{
    if names.len() == 0 {
        Seq::empty()
    } else {
        matching(names.drop_last(), pat) + if keeps(names.last(), pat) {
            seq![names.last()]
        } else {
            Seq::empty()
        }
    }
}

fn match_at_exec(hay: &str, needle: &str, i: usize) -> (r: bool)
    requires
        i + needle@.len() <= hay@.len(),
        hay@.len() <= usize::MAX,
    ensures
        r == match_at(hay@, needle@, i as int),
{
    let nlen = needle.unicode_len();
    let mut k: usize = 0;
    while k < nlen
        invariant
            k <= nlen,
            nlen == needle@.len(),
            i + nlen <= hay@.len(),
            hay@.len() <= usize::MAX,
            forall|j: int| 0 <= j < k ==> hay@[i + j] == needle@[j],
        decreases nlen - k,
    {
        if hay.get_char(i + k) != needle.get_char(k) {
            proof {
                assert(hay@.subrange(i as int, i + needle@.len())[k as int] != needle@[k as int]);
            }
            return false;
        }
        k = k + 1;
    }
    proof {
        assert(hay@.subrange(i as int, i + needle@.len()) =~= needle@);
    }
    true
}

fn contains_str(hay: &str, needle: &str) -> (r: bool)
    ensures
        r == contains_seq(hay@, needle@),
{
    let hlen = hay.unicode_len();
    let nlen = needle.unicode_len();
    if nlen > hlen {
        return false;
    }
    if nlen == 0 {
        proof {
            assert(hay@.subrange(0, 0) =~= needle@);
            assert(match_at(hay@, needle@, 0));
        }
        return true;
    }
    let mut i: usize = 0;
    while i <= hlen - nlen
        invariant
            1 <= nlen <= hlen,
            hlen == hay@.len(),
            nlen == needle@.len(),
            i <= hlen - nlen + 1,
            forall|j: int| 0 <= j < i ==> !match_at(hay@, needle@, j),
        decreases hlen - nlen - i + 1,
    {
        if match_at_exec(hay, needle, i) {
            return true;
        }
        i = i + 1;
    }
    false
}

proof fn lemma_last_segment_from_cut(p: Seq<char>, cut: int)
    requires
        0 <= cut <= p.len(),
        cut == 0 || p[cut - 1] == '/',
        forall|j: int| cut <= j < p.len() ==> p[j] != '/',
    ensures
        last_segment(p) == p.subrange(cut, p.len() as int),
    decreases p.len(),
{
    if p.len() == 0 {
        assert(last_segment(p) =~= p.subrange(cut, p.len() as int));
    } else if p.last() == '/' {
        assert(cut == p.len());
        assert(last_segment(p) =~= p.subrange(cut, p.len() as int));
    } else {
        assert(cut < p.len());
        lemma_last_segment_from_cut(p.drop_last(), cut);
        assert(p.drop_last().subrange(cut, p.drop_last().len() as int).push(p.last()) =~= p
            .subrange(cut, p.len() as int));
    }
}

fn base_name_str(p: &str) -> (r: &str)
    requires
        has_base_name(p@),
    ensures
        r@ == base_name(p@),
{
    let plen = p.unicode_len();
    let mut end: usize = plen;
    proof {
        assert(p@.subrange(0, plen as int) =~= p@);
    }
    while end > 0 && (p.get_char(end - 1) == '/' || (p.get_char(end - 1) == '.' && (end == 1
        || p.get_char(end - 2) == '/')))
        invariant
            end <= plen,
            plen == p@.len(),
            strip_ignorable_tail(p@) == strip_ignorable_tail(p@.subrange(0, end as int)),
        decreases end,
    {
        proof {
            let q = p@.subrange(0, end as int);
            assert(q.last() == p@[end - 1]);
            assert(end >= 2 ==> q[end - 2] == p@[end - 2]);
            assert(q.last() == '/' || ends_in_dot_segment(q));
            assert(q.drop_last() =~= p@.subrange(0, end - 1));
        }
        end = end - 1;
    }
    proof {
        let q = p@.subrange(0, end as int);
        if end == 0 {
            assert(q =~= Seq::<char>::empty());
            assert(strip_ignorable_tail(p@) == q);
            assert(false);  // has_base_name demands a nonempty remainder
        }
        assert(q.last() == p@[end - 1]);
        assert(end >= 2 ==> q[end - 2] == p@[end - 2]);
        assert(!(q.last() == '/' || ends_in_dot_segment(q)));
        assert(strip_ignorable_tail(p@) == q);
    }
    let mut cut: usize = 0;
    let mut i: usize = 0;
    while i < end
        invariant
            cut <= i <= end,
            end <= plen,
            plen == p@.len(),
            cut == 0 || p@[cut - 1] == '/',
            forall|j: int| cut <= j < i ==> p@[j] != '/',
        decreases end - i,
    {
        if p.get_char(i) == '/' {
            cut = i + 1;
        }
        i = i + 1;
    }
    proof {
        let stripped = p@.subrange(0, end as int);
        lemma_last_segment_from_cut(stripped, cut as int);
        assert(stripped.subrange(cut as int, end as int) =~= p@.subrange(cut as int, end as int));
    }
    p.substring_char(cut, end)
}

/// Keeps exactly the paths whose base name contains the search string,
/// in their given order. Every path handed in must hold a final component;
/// on one without — separators and `.` components alone, or ending in a
/// `..` component — the original name lookup fails, so such inputs stay out
/// by contract.
pub fn search_names(names: Vec<String>, search_string: String) -> (r: Vec<String>)
    requires
        forall|i: int| 0 <= i < names@.len() ==> has_base_name((#[trigger] names@[i])@),
    ensures
        r@.map_values(|s: String| s@) == matching(
            names@.map_values(|s: String| s@),
            search_string@,
        ),
{
    let mut r: Vec<String> = Vec::new();
    let mut i: usize = 0;
    while i < names.len()
        invariant
            i <= names.len(),
            forall|j: int| 0 <= j < names@.len() ==> has_base_name((#[trigger] names@[j])@),
            r@.map_values(|s: String| s@) == matching(
                names@.subrange(0, i as int).map_values(|s: String| s@),
                search_string@,
            ),
        decreases names.len() - i,
    {
        let ghost prefix = names@.subrange(0, i as int).map_values(|s: String| s@);
        let name = &names[i];
        let kept = contains_str(base_name_str(name.as_str()), search_string.as_str());
        proof {
            let next = names@.subrange(0, i + 1).map_values(|s: String| s@);
            assert(next.drop_last() =~= prefix);
            assert(next.last() == names@[i as int]@);
        }
        if kept {
            r.push(name.clone());
        }
        proof {
            let next = names@.subrange(0, i + 1).map_values(|s: String| s@);
            assert(r@.map_values(|s: String| s@) =~= matching(next, search_string@));
        }
        i = i + 1;
    }
    proof {
        assert(names@.subrange(0, names@.len() as int) =~= names@);
    }
    r
}

} // verus!
