//! Text primitives: what the line protocol needs from strings, stated over
//! sequences of characters.

use vstd::prelude::*;
use vstd::string::*;

verus! {

/// `String::push` appends one character at the end of the string.
pub assume_specification[ String::push ](s: &mut String, c: char)
    ensures
        final(s)@ == old(s)@.push(c),
;

/// The characters behind a list of string slices.
pub open spec fn texts(parts: Seq<&str>) -> Seq<Seq<char>> {
    Seq::new(parts.len(), |i: int| parts[i]@)
}

/// The characters behind a list of owned strings.
pub open spec fn owned_texts(parts: Seq<String>) -> Seq<Seq<char>> {
    Seq::new(parts.len(), |i: int| parts[i]@)
}

/// The characters behind an optional string.
pub open spec fn opt_text(t: Option<String>) -> Option<Seq<char>> {
    match t {
        Some(s) => Some(s@),
        None => None,
    }
}

/// The characters of a text, in order.
pub fn chars_of(s: &str) -> (r: Vec<char>)
    ensures
        r@ == s@,
{
    let mut out: Vec<char> = Vec::new();
    for c in it: s.chars()
        invariant
            out@ == it.seq().take(it.index()),
            it.seq() == s@,
    {
        out.push(c);
    }
    out
}

/// The text made of the given characters.
pub fn text_of(chars: &[char]) -> (r: String)
    ensures
        r@ == chars@,
{
    let mut out = String::new();
    for i in 0..chars.len()
        invariant
            out@ == chars@.take(i as int),
    {
        out.push(chars[i]);
    }
    assert(chars@.take(chars@.len() as int) == chars@);
    out
}

/// An owned copy of a text.
pub fn owned(s: &str) -> (r: String)
    ensures
        r@ == s@,
{
    s.to_owned()
}

/// Appends a text to a string.
pub fn append_text(out: &mut String, more: &str)
    ensures
        final(out)@ == old(out)@ + more@,
{
    out.append(more);
}

/// Whether two texts hold the same characters.
pub fn same_text(a: &str, b: &str) -> (r: bool)
    ensures
        r == (a@ == b@),
{
    let x = chars_of(a);
    let y = chars_of(b);
    same_chars(x.as_slice(), y.as_slice())
}

/// Whether two slices hold the same characters.
pub fn same_chars(x: &[char], y: &[char]) -> (r: bool)
    ensures
        r == (x@ == y@),
{
    if x.len() != y.len() {
        return false;
    }
    for i in 0..x.len()
        invariant
            x.len() == y.len(),
            forall|j: int| 0 <= j < i ==> x@[j] == y@[j],
    {
        if x[i] != y[i] {
            return false;
        }
    }
    assert(x@ =~= y@);
    true
}

// ---------------------------------------------------------------------------
// Character sets and trimming
// ---------------------------------------------------------------------------

/// The sets of characters that trimming removes.
#[derive(Clone, Copy, PartialEq, Eq, Structural)]
pub enum CharSet {
    /// The Unicode White_Space property.
    WhiteSpace,
    /// Carriage return and line feed.
    LineEnds,
    /// Space, tab, carriage return and line feed.
    Blanks,
}

/// The Unicode White_Space property.
pub open spec fn is_white_space(c: char) -> bool {
    ||| '\u{9}' <= c <= '\u{d}'
    ||| c == '\u{20}'
    ||| c == '\u{85}'
    ||| c == '\u{a0}'
    ||| c == '\u{1680}'
    ||| '\u{2000}' <= c <= '\u{200a}'
    ||| c == '\u{2028}'
    ||| c == '\u{2029}'
    ||| c == '\u{202f}'
    ||| c == '\u{205f}'
    ||| c == '\u{3000}'
}

impl CharSet {
    /// Membership.
    pub open spec fn holds(self, c: char) -> bool {
        match self {
            CharSet::WhiteSpace => is_white_space(c),
            CharSet::LineEnds => c == '\r' || c == '\n',
            CharSet::Blanks => c == ' ' || c == '\t' || c == '\r' || c == '\n',
        }
    }

    /// Whether the set holds `c`.
    pub fn has(self, c: char) -> (r: bool)
        ensures
            r == self.holds(c),
    {
        match self {
            CharSet::WhiteSpace => {
                ('\u{9}' <= c && c <= '\u{d}') || c == '\u{20}' || c == '\u{85}' || c == '\u{a0}'
                    || c == '\u{1680}' || ('\u{2000}' <= c && c <= '\u{200a}') || c == '\u{2028}'
                    || c == '\u{2029}' || c == '\u{202f}' || c == '\u{205f}' || c == '\u{3000}'
            },
            CharSet::LineEnds => c == '\r' || c == '\n',
            CharSet::Blanks => c == ' ' || c == '\t' || c == '\r' || c == '\n',
        }
    }
}

/// `s` without its leading characters of `set`.
pub open spec fn trim_front(s: Seq<char>, set: CharSet) -> Seq<char>
    decreases s.len(),
{
    if s.len() > 0 && set.holds(s[0]) {
        trim_front(s.drop_first(), set)
    } else {
        s
    }
}

/// `s` without its trailing characters of `set`.
pub open spec fn trim_back(s: Seq<char>, set: CharSet) -> Seq<char>
    decreases s.len(),
{
    if s.len() > 0 && set.holds(s.last()) {
        trim_back(s.drop_last(), set)
    } else {
        s
    }
}

/// `s` without the characters of `set` at either end.
pub open spec fn trimmed(s: Seq<char>, set: CharSet) -> Seq<char> {
    trim_back(trim_front(s, set), set)
}

/// What trimming at the front leaves starts outside the set.
pub proof fn lemma_trim_front(s: Seq<char>, set: CharSet)
    ensures
        trim_front(s, set).len() <= s.len(),
        trim_front(s, set).len() > 0 ==> !set.holds(trim_front(s, set)[0]),
        trim_front(s, set) == s.skip(s.len() - trim_front(s, set).len()),
    decreases s.len(),
{
    if s.len() > 0 && set.holds(s[0]) {
        lemma_trim_front(s.drop_first(), set);
        assert(s.skip(s.len() - trim_front(s, set).len()) =~= s.drop_first().skip(
            s.drop_first().len() - trim_front(s, set).len(),
        ));
    } else {
        assert(s.skip(0) =~= s);
    }
}

/// What trimming at the back leaves ends outside the set.
pub proof fn lemma_trim_back(s: Seq<char>, set: CharSet)
    ensures
        trim_back(s, set).len() <= s.len(),
        trim_back(s, set).len() > 0 ==> !set.holds(trim_back(s, set).last()),
        trim_back(s, set) == s.take(trim_back(s, set).len() as int),
    decreases s.len(),
{
    if s.len() > 0 && set.holds(s.last()) {
        lemma_trim_back(s.drop_last(), set);
        assert(s.take(trim_back(s, set).len() as int) =~= s.drop_last().take(
            trim_back(s, set).len() as int,
        ));
    } else {
        assert(s.take(s.len() as int) =~= s);
    }
}

/// A text whose ends lie outside the set is not changed by trimming.
pub proof fn lemma_trimmed_fixed(s: Seq<char>, set: CharSet)
    requires
        s.len() > 0 ==> !set.holds(s[0]) && !set.holds(s.last()),
    ensures
        trimmed(s, set) == s,
{
}

/// Trimming at the back does not go past a character outside the set.
pub proof fn lemma_trim_back_stops(s: Seq<char>, set: CharSet, i: int)
    requires
        0 <= i < s.len(),
        !set.holds(s[i]),
    ensures
        trim_back(s, set).len() > i,
    decreases s.len(),
{
    if set.holds(s.last()) {
        lemma_trim_back_stops(s.drop_last(), set, i);
    }
}

/// Characters of the set behind a text that ends outside it are all trimmed.
pub proof fn lemma_trim_back_all(s: Seq<char>, tail: Seq<char>, set: CharSet)
    requires
        s.len() > 0,
        !set.holds(s.last()),
        forall|i: int| 0 <= i < tail.len() ==> set.holds(#[trigger] tail[i]),
    ensures
        trim_back(s + tail, set) == s,
    decreases tail.len(),
{
    if tail.len() > 0 {
        assert(set.holds(tail[tail.len() - 1]));
        assert((s + tail).drop_last() =~= s + tail.drop_last());
        lemma_trim_back_all(s, tail.drop_last(), set);
    } else {
        assert(s + tail =~= s);
    }
}

/// Trimming twice is trimming once.
pub proof fn law_trimming_is_idempotent(s: Seq<char>, set: CharSet)
    ensures
        trimmed(trimmed(s, set), set) == trimmed(s, set),
{
    lemma_trim_front(s, set);
    lemma_trim_back(trim_front(s, set), set);
    lemma_trimmed_fixed(trimmed(s, set), set);
}

/// The part of `s` between its leading and trailing characters of `set`.
pub fn trim_text(s: &str, set: CharSet) -> (r: &str)
    ensures
        r@ == trimmed(s@, set),
{
    let chars = chars_of(s);
    let mut lo: usize = 0;
    assert(chars@.skip(0) =~= chars@);
    while lo < chars.len() && set.has(chars[lo])
        invariant
            lo <= chars.len(),
            trim_front(chars@, set) == trim_front(chars@.skip(lo as int), set),
        decreases chars.len() - lo,
    {
        assert(chars@.skip(lo as int).drop_first() =~= chars@.skip(lo + 1));
        lo = lo + 1;
    }
    let ghost front = chars@.skip(lo as int);
    assert(trim_front(chars@, set) == front);
    let mut hi: usize = chars.len();
    assert(front.take(front.len() as int) =~= front);
    while lo < hi && set.has(chars[hi - 1])
        invariant
            lo <= hi <= chars.len(),
            front == chars@.skip(lo as int),
            trim_back(front, set) == trim_back(front.take(hi - lo), set),
        decreases hi - lo,
    {
        assert(front.take(hi - lo).drop_last() =~= front.take(hi - 1 - lo));
        hi = hi - 1;
    }
    assert(front.take(hi - lo) =~= chars@.subrange(lo as int, hi as int));
    s.substring_char(lo, hi)
}

// ---------------------------------------------------------------------------
// Splitting and joining
// ---------------------------------------------------------------------------

/// The parts of `s` between the occurrences of `sep`; one part where there is
/// no occurrence.
pub open spec fn split(s: Seq<char>, sep: char) -> Seq<Seq<char>>
    decreases s.len(),
{
    if s.len() == 0 {
        seq![Seq::<char>::empty()]
    } else {
        let before = split(s.drop_last(), sep);
        if s.last() == sep {
            before.push(Seq::<char>::empty())
        } else {
            before.drop_last().push(before.last().push(s.last()))
        }
    }
}

/// The parts one after another with `sep` between them.
pub open spec fn join(parts: Seq<Seq<char>>, sep: char) -> Seq<char>
    decreases parts.len(),
{
    if parts.len() == 0 {
        Seq::<char>::empty()
    } else if parts.len() == 1 {
        parts[0]
    } else {
        join(parts.drop_last(), sep).push(sep) + parts.last()
    }
}

/// Splitting gives at least one part, and no part holds the separator.
pub proof fn lemma_split_parts(s: Seq<char>, sep: char)
    ensures
        split(s, sep).len() >= 1,
        forall|i: int| 0 <= i < split(s, sep).len() ==> !(#[trigger] split(s, sep)[i]).contains(sep),
    decreases s.len(),
{
    if s.len() > 0 {
        lemma_split_parts(s.drop_last(), sep);
        let before = split(s.drop_last(), sep);
        let last = before.last().push(s.last());
        assert(!before.last().contains(sep));
        if s.last() != sep {
            assert forall|j: int| 0 <= j < last.len() implies last[j] != sep by {
                if j < before.last().len() {
                    assert(last[j] == before.last()[j]);
                }
            }
        }
    }
}

/// The last separator of `head + [sep] + tail` opens a new part, so the
/// parts of `tail` follow those of `head`, as long as `tail` is one part.
pub proof fn lemma_split_append_part(head: Seq<char>, tail: Seq<char>, sep: char)
    requires
        !tail.contains(sep),
    ensures
        split(head.push(sep) + tail, sep) == split(head, sep).push(tail),
    decreases tail.len(),
{
    let whole = head.push(sep) + tail;
    if tail.len() == 0 {
        assert(whole.drop_last() =~= head);
        assert(tail =~= Seq::<char>::empty());
    } else {
        let shorter = tail.drop_last();
        assert forall|j: int| 0 <= j < shorter.len() implies shorter[j] != sep by {
            assert(shorter[j] == tail[j]);
        }
        lemma_split_append_part(head, shorter, sep);
        assert(whole.drop_last() =~= head.push(sep) + shorter);
        assert(whole.last() == tail.last());
        assert(tail.contains(tail.last()));
        assert(shorter.push(tail.last()) =~= tail);
        assert(split(whole, sep) =~= split(head, sep).push(tail));
    }
}

/// The text before the first separator is the first part.
pub proof fn lemma_split_head(head: Seq<char>, tail: Seq<char>, sep: char)
    requires
        !head.contains(sep),
    ensures
        split(head.push(sep) + tail, sep).len() >= 2,
        split(head.push(sep) + tail, sep)[0] == head,
    decreases tail.len(),
{
    let whole = head.push(sep) + tail;
    if tail.len() == 0 {
        assert(whole.drop_last() =~= head);
        lemma_split_single(head, sep);
    } else {
        assert(whole.drop_last() =~= head.push(sep) + tail.drop_last());
        lemma_split_head(head, tail.drop_last(), sep);
    }
}

/// Characters before the first separator stay in the first part.
pub proof fn lemma_split_prefix(s: Seq<char>, n: int, sep: char)
    requires
        0 <= n <= s.len(),
        forall|i: int| 0 <= i < n ==> #[trigger] s[i] != sep,
    ensures
        split(s, sep).len() >= 1,
        split(s, sep)[0].len() >= n,
        split(s, sep)[0].take(n) == s.take(n),
    decreases s.len(),
{
    if s.len() == n {
        lemma_split_single(s, sep);
    } else {
        let shorter = s.drop_last();
        lemma_split_prefix(shorter, n, sep);
        let before = split(shorter, sep);
        assert(shorter.take(n) =~= s.take(n));
        if s.last() != sep && before.len() == 1 {
            assert(before.last().push(s.last()).take(n) =~= before[0].take(n));
        }
    }
}

/// The first part of a joined text stands before the first separator.
pub proof fn lemma_join_head(head: Seq<char>, rest: Seq<Seq<char>>, sep: char)
    requires
        rest.len() >= 1,
    ensures
        join(seq![head] + rest, sep) == head.push(sep) + join(rest, sep),
    decreases rest.len(),
{
    let all = seq![head] + rest;
    assert(all.drop_last() =~= seq![head] + rest.drop_last());
    assert(all.last() == rest.last());
    if rest.len() == 1 {
        assert(all.drop_last() =~= seq![head]);
        assert(join(all.drop_last(), sep) == head);
    } else {
        lemma_join_head(head, rest.drop_last(), sep);
    }
    assert(join(all, sep) =~= head.push(sep) + join(rest, sep));
}

/// A text without the separator is its own only part.
pub proof fn lemma_split_single(s: Seq<char>, sep: char)
    requires
        !s.contains(sep),
    ensures
        split(s, sep) == seq![s],
    decreases s.len(),
{
    if s.len() > 0 {
        let shorter = s.drop_last();
        assert forall|j: int| 0 <= j < shorter.len() implies shorter[j] != sep by {
            assert(shorter[j] == s[j]);
        }
        lemma_split_single(shorter, sep);
        assert(s.contains(s.last()));
        assert(shorter.push(s.last()) =~= s);
        assert(split(s, sep) =~= seq![s]);
    } else {
        assert(s =~= Seq::<char>::empty());
    }
}

/// Splitting undoes joining: parts that do not hold the separator come back
/// as they were.
pub proof fn law_split_undoes_join(parts: Seq<Seq<char>>, sep: char)
    requires
        parts.len() >= 1,
        forall|i: int| 0 <= i < parts.len() ==> !(#[trigger] parts[i]).contains(sep),
    ensures
        split(join(parts, sep), sep) == parts,
    decreases parts.len(),
{
    if parts.len() == 1 {
        lemma_split_single(parts[0], sep);
        assert(seq![parts[0]] =~= parts);
    } else {
        let fewer = parts.drop_last();
        assert forall|i: int| 0 <= i < fewer.len() implies !(#[trigger] fewer[i]).contains(sep) by {
            assert(fewer[i] == parts[i]);
        }
        law_split_undoes_join(fewer, sep);
        assert(!parts[parts.len() - 1].contains(sep));
        lemma_split_append_part(join(fewer, sep), parts.last(), sep);
        assert(fewer.push(parts.last()) =~= parts);
    }
}

/// Joining undoes splitting: the parts of a text make up the text.
pub proof fn law_join_undoes_split(s: Seq<char>, sep: char)
    ensures
        join(split(s, sep), sep) == s,
    decreases s.len(),
{
    lemma_split_parts(s, sep);
    if s.len() > 0 {
        let before = split(s.drop_last(), sep);
        law_join_undoes_split(s.drop_last(), sep);
        lemma_split_parts(s.drop_last(), sep);
        if s.last() == sep {
            assert(split(s, sep).drop_last() =~= before);
            assert(join(split(s, sep), sep) =~= s);
        } else {
            let after = split(s, sep);
            assert(after.drop_last() =~= before.drop_last());
            assert(after.last() =~= before.last().push(s.last()));
            assert(s.drop_last().push(s.last()) =~= s);
            if before.len() > 1 {
                assert(join(after, sep) =~= join(before, sep).push(s.last()));
            }
        }
    } else {
        assert(join(split(s, sep), sep) =~= s);
    }
}

/// The parts of `s` between the occurrences of `sep`.
pub fn split_text(s: &str, sep: char) -> (r: Vec<&str>)
    ensures
        texts(r@) == split(s@, sep),
        r@.len() >= 1,
{
    let chars = chars_of(s);
    let mut parts: Vec<&str> = Vec::new();
    let mut start: usize = 0;
    let mut i: usize = 0;
    assert(chars@.take(0) =~= Seq::<char>::empty());
    assert(chars@.subrange(0, 0) =~= Seq::<char>::empty());
    assert(texts(parts@).push(chars@.subrange(0, 0)) =~= split(chars@.take(0), sep));
    while i < chars.len()
        invariant
            start <= i <= chars.len(),
            chars@ == s@,
            texts(parts@).push(chars@.subrange(start as int, i as int)) == split(
                chars@.take(i as int),
                sep,
            ),
        decreases chars.len() - i,
    {
        let ghost before = chars@.take(i as int);
        let ghost after = chars@.take(i + 1);
        assert(after.drop_last() =~= before);
        if chars[i] == sep {
            let ghost old_parts = parts@;
            let part = s.substring_char(start, i);
            parts.push(part);
            start = i + 1;
            assert(texts(parts@) =~= texts(old_parts).push(part@));
            assert(chars@.subrange(start as int, i + 1) =~= Seq::<char>::empty());
        } else {
            assert(chars@.subrange(start as int, i + 1) =~= chars@.subrange(
                start as int,
                i as int,
            ).push(chars@[i as int]));
            assert(texts(parts@) =~= split(before, sep).drop_last());
        }
        i = i + 1;
    }
    let ghost old_parts = parts@;
    let part = s.substring_char(start, chars.len());
    parts.push(part);
    assert(texts(parts@) =~= texts(old_parts).push(part@));
    assert(chars@.take(chars@.len() as int) =~= s@);
    parts
}

/// The texts from index `from` on, joined with `sep`.
pub fn join_from(parts: &[&str], from: usize, sep: char) -> (r: String)
    requires
        from <= parts@.len(),
    ensures
        r@ == join(texts(parts@).skip(from as int), sep),
{
    let mut out = String::new();
    let ghost wanted = texts(parts@).skip(from as int);
    let mut i: usize = from;
    assert(wanted.take(0) =~= Seq::<Seq<char>>::empty());
    while i < parts.len()
        invariant
            from <= i <= parts@.len(),
            wanted == texts(parts@).skip(from as int),
            out@ == join(wanted.take(i - from), sep),
        decreases parts@.len() - i,
    {
        let ghost longer = wanted.take(i + 1 - from);
        assert(longer.drop_last() =~= wanted.take(i - from));
        assert(longer.last() == parts@[i as int]@);
        if i > from {
            out.push(sep);
        }
        out.append(parts[i]);
        assert(out@ =~= join(longer, sep));
        i = i + 1;
    }
    assert(wanted.take(wanted.len() as int) =~= wanted);
    out
}

/// The texts joined with `sep`.
pub fn join_owned(parts: &Vec<String>, sep: char) -> (r: String)
    ensures
        r@ == join(owned_texts(parts@), sep),
{
    let mut out = String::new();
    let ghost wanted = owned_texts(parts@);
    let mut i: usize = 0;
    assert(wanted.take(0) =~= Seq::<Seq<char>>::empty());
    while i < parts.len()
        invariant
            i <= parts@.len(),
            wanted == owned_texts(parts@),
            out@ == join(wanted.take(i as int), sep),
        decreases parts@.len() - i,
    {
        let ghost longer = wanted.take(i + 1);
        assert(longer.drop_last() =~= wanted.take(i as int));
        assert(longer.last() == parts@[i as int]@);
        if i > 0 {
            out.push(sep);
        }
        out.append(parts[i].as_str());
        assert(out@ =~= join(longer, sep));
        i = i + 1;
    }
    assert(wanted.take(wanted.len() as int) =~= wanted);
    out
}

}
