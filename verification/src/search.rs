//! Looking for one text inside another.

use crate::text::{chars_of, same_chars};
use vstd::prelude::*;
use vstd::slice::slice_subrange;

verus! {

/// `needle` stands in `hay` at index `i`.
pub open spec fn occurs_at<T>(hay: Seq<T>, needle: Seq<T>, i: int) -> bool {
    0 <= i <= hay.len() - needle.len() && hay.subrange(i, i + needle.len()) == needle
}

/// `needle` stands somewhere in `hay`.
pub open spec fn occurs<T>(hay: Seq<T>, needle: Seq<T>) -> bool {
    exists|i: int| occurs_at(hay, needle, i)
}

/// `hay` begins with `needle`.
pub open spec fn begins_with<T>(hay: Seq<T>, needle: Seq<T>) -> bool {
    occurs_at(hay, needle, 0)
}

/// Whether `hay` begins with `needle`.
pub fn starts_with_text(hay: &str, needle: &str) -> (r: bool)
    ensures
        r == begins_with(hay@, needle@),
{
    let h = chars_of(hay);
    let n = chars_of(needle);
    if h.len() < n.len() {
        return false;
    }
    same_chars(slice_subrange(h.as_slice(), 0, n.len()), n.as_slice())
}

/// Whether `needle` stands somewhere in `hay`.
pub fn contains_text(hay: &str, needle: &str) -> (r: bool)
    ensures
        r == occurs(hay@, needle@),
{
    let h = chars_of(hay);
    let n = chars_of(needle);
    if h.len() < n.len() {
        return false;
    }
    let total: usize = h.len();
    let last: usize = total - n.len();
    let mut i: usize = 0;
    loop
        invariant
            h@ == hay@,
            n@ == needle@,
            total == h@.len(),
            last == total - n@.len(),
            i <= last,
            forall|j: int| 0 <= j < i ==> !occurs_at(hay@, needle@, j),
        decreases last - i,
    {
        if same_chars(slice_subrange(h.as_slice(), i, i + n.len()), n.as_slice()) {
            assert(occurs_at(hay@, needle@, i as int));
            return true;
        }
        if i == last {
            assert(forall|j: int| 0 <= j <= last ==> !occurs_at(hay@, needle@, j));
            return false;
        }
        i = i + 1;
    }
}

/// What stands in the second part stands in the whole.
pub proof fn lemma_occurs_behind<T>(front: Seq<T>, hay: Seq<T>, needle: Seq<T>)
    requires
        occurs(hay, needle),
    ensures
        occurs(front + hay, needle),
{
    let i = choose|i: int| occurs_at(hay, needle, i);
    let all = front + hay;
    let at = front.len() + i;
    assert(all.subrange(at, at + needle.len()) =~= hay.subrange(i, i + needle.len()));
    assert(occurs_at(all, needle, at));
}

/// What stands in a part stands in the whole.
pub proof fn lemma_occurs_between<T>(front: Seq<T>, hay: Seq<T>, back: Seq<T>, needle: Seq<T>)
    requires
        occurs(hay, needle),
    ensures
        occurs(front + hay + back, needle),
{
    let i = choose|i: int| occurs_at(hay, needle, i);
    let all = front + hay + back;
    let at = front.len() + i;
    assert(all.subrange(at, at + needle.len()) =~= hay.subrange(i, i + needle.len()));
    assert(occurs_at(all, needle, at));
}

}
