//! Searching a sequence from the left, and the few string operations the
//! parsers share.

use vstd::prelude::*;

verus! {

/// The index of the first element of `s` for which `p` holds, or `s.len()`
/// when it holds for none.
pub open spec fn index_where<A>(s: Seq<A>, p: spec_fn(A) -> bool) -> int
    decreases s.len(),
{
    if s.len() == 0 || p(s[0]) {
        0
    } else {
        1 + index_where(s.drop_first(), p)
    }
}

/// `k` is where the first element satisfying `p` stands in `s`, or the end of
/// `s` when there is no such element.
pub open spec fn is_first_where<A>(s: Seq<A>, p: spec_fn(A) -> bool, k: int) -> bool {
    &&& 0 <= k <= s.len()
    &&& forall|j: int| 0 <= j < k ==> !p(#[trigger] s[j])
    &&& k < s.len() ==> p(s[k])
}

/// `index_where` finds the first element satisfying `p`.
pub proof fn lemma_index_where<A>(s: Seq<A>, p: spec_fn(A) -> bool)
    ensures
        is_first_where(s, p, index_where(s, p)),
    decreases s.len(),
{
    if s.len() == 0 || p(s[0]) {
    } else {
        let t = s.drop_first();
        lemma_index_where(t, p);
        assert forall|j: int| 0 <= j < index_where(s, p) implies !p(#[trigger] s[j]) by {
            if j > 0 {
                assert(s[j] == t[j - 1]);
            }
        }
    }
}

/// There is only one first element: any `k` that qualifies is `index_where`.
pub proof fn lemma_index_where_unique<A>(s: Seq<A>, p: spec_fn(A) -> bool, k: int)
    requires
        is_first_where(s, p, k),
    ensures
        index_where(s, p) == k,
{
    lemma_index_where(s, p);
    let r = index_where(s, p);
    if r < k {
        assert(!p(s[r]));
    } else if k < r {
        assert(!p(s[k]));
    }
}

/// The predicate "is a space".
pub open spec fn is_space() -> spec_fn(char) -> bool {
    |c: char| c == ' '
}

/// The predicate "is no space".
pub open spec fn is_not_space() -> spec_fn(char) -> bool {
    |c: char| c != ' '
}

/// The first word of `s`: what stands before its first space.
pub open spec fn first_word(s: Seq<char>) -> Seq<char> {
    s.take(index_where(s, is_space()))
}

/// `s` without the spaces it begins with.
pub open spec fn trim_start(s: Seq<char>) -> Seq<char> {
    s.skip(index_where(s, is_not_space()))
}

/// Appending a character to a `String`: `String::push` adds `ch` at the end
/// and leaves what was there untouched.
pub assume_specification[ String::push ](s: &mut String, ch: char)
    ensures
        final(s)@ == old(s)@.push(ch),
;

/// The characters of `text`, in order.
pub fn chars_of(text: &str) -> (v: Vec<char>)
    ensures
        v@ == text@,
{
    let mut v: Vec<char> = Vec::new();
    for c in it: text.chars()
        invariant
            it.seq() == text@,
            v@ == text@.take(it.index()),
    {
        v.push(c);
    }
    v
}

/// Appends `chars[from..to]` to `s`.
pub(crate) fn push_chars(s: &mut String, chars: &Vec<char>, from: usize, to: usize)
    requires
        from <= to <= chars.len(),
    ensures
        final(s)@ == old(s)@ + chars@.subrange(from as int, to as int),
{
    let mut i: usize = from;
    while i < to
        invariant
            from <= i <= to <= chars.len(),
            s@ == old(s)@ + chars@.subrange(from as int, i as int),
        decreases to - i,
    {
        s.push(chars[i]);
        i += 1;
    }
}

/// A `String` holding `chars[from..to]`.
pub(crate) fn string_of(chars: &Vec<char>, from: usize, to: usize) -> (s: String)
    requires
        from <= to <= chars.len(),
    ensures
        s@ == chars@.subrange(from as int, to as int),
{
    let mut s = String::new();
    push_chars(&mut s, chars, from, to);
    s
}

/// Where the first word of `line[from..]` ends: the index of the first space
/// at or after `from`, or the end of the line.
pub(crate) fn find_space(line: &Vec<char>, from: usize) -> (k: usize)
    requires
        from <= line.len(),
    ensures
        from <= k <= line.len(),
        k - from == index_where(line@.skip(from as int), is_space()),
{
    let mut k: usize = from;
    while k < line.len() && line[k] != ' '
        invariant
            from <= k <= line.len(),
            forall|j: int| from <= j < k ==> line@[j] != ' ',
        decreases line.len() - k,
    {
        k += 1;
    }
    proof {
        lemma_index_where_unique(line@.skip(from as int), is_space(), k - from);
    }
    k
}

/// Where the text of `line[from..]` begins once its leading spaces are
/// passed: the index of the first character at or after `from` that is no
/// space, or the end of the line.
pub(crate) fn skip_spaces(line: &Vec<char>, from: usize) -> (k: usize)
    requires
        from <= line.len(),
    ensures
        from <= k <= line.len(),
        k - from == index_where(line@.skip(from as int), is_not_space()),
{
    let mut k: usize = from;
    while k < line.len() && line[k] == ' '
        invariant
            from <= k <= line.len(),
            forall|j: int| from <= j < k ==> line@[j] == ' ',
        decreases line.len() - k,
    {
        k += 1;
    }
    proof {
        lemma_index_where_unique(line@.skip(from as int), is_not_space(), k - from);
    }
    k
}

/// Whether `line` begins with the characters of `prefix`.
pub(crate) fn starts_with(line: &Vec<char>, prefix: &Vec<char>) -> (b: bool)
    ensures
        b == prefix@.is_prefix_of(line@),
{
    if prefix.len() > line.len() {
        return false;
    }
    let mut i: usize = 0;
    while i < prefix.len()
        invariant
            i <= prefix.len() <= line.len(),
            forall|j: int| 0 <= j < i ==> line@[j] == prefix@[j],
        decreases prefix.len() - i,
    {
        if line[i] != prefix[i] {
            return false;
        }
        i += 1;
    }
    true
}

} // verus!
