//! Text as sequences of characters: searching, splitting and copying.
//!
//! Every function here has a mathematical twin on `Seq<char>`; the grammar and
//! the emitters are stated over those twins.

use vstd::prelude::*;

verus! {

/// `String::push` appends one character to the end of the string.
pub assume_specification[ String::push ](s: &mut String, c: char)
    ensures
        final(s)@ == old(s)@.push(c),
;

/// The least index `i >= from` at which `s` holds `a` or `b`, or `s.len()`
/// when neither occurs from `from` on.
pub open spec fn find_either(s: Seq<char>, a: char, b: char, from: int) -> int
    decreases s.len() - from,
{
    if from < 0 || from >= s.len() {
        s.len() as int
    } else if s[from] == a || s[from] == b {
        from
    } else {
        find_either(s, a, b, from + 1)
    }
}

/// The least index `i >= from` at which `s` holds `c`, or `s.len()`.
pub open spec fn find(s: Seq<char>, c: char, from: int) -> int {
    find_either(s, c, c, from)
}

/// The greatest index at which `s` holds `c`, or `-1`.
pub open spec fn find_last(s: Seq<char>, c: char) -> int
    decreases s.len(),
{
    if s.len() == 0 {
        -1
    } else if s.last() == c {
        s.len() - 1
    } else {
        find_last(s.drop_last(), c)
    }
}

/// The least index `i >= from` at which `a` directly followed by `b` stands
/// in `s`, or `s.len()`.
pub open spec fn find_pair(s: Seq<char>, a: char, b: char, from: int) -> int
    decreases s.len() - from,
{
    if from < 0 || from + 1 >= s.len() {
        s.len() as int
    } else if s[from] == a && s[from + 1] == b {
        from
    } else {
        find_pair(s, a, b, from + 1)
    }
}

/// The pieces of `s` between occurrences of `c`; always at least one piece.
pub open spec fn split(s: Seq<char>, c: char) -> Seq<Seq<char>>
    decreases s.len(),
{
    let i = find(s, c, 0);
    if i < 0 || i >= s.len() {
        seq![s]
    } else {
        seq![s.take(i)] + split(s.skip(i + 1), c)
    }
}

/// The text before the first `c`, or all of `s`.
pub open spec fn before(s: Seq<char>, c: char) -> Seq<char> {
    s.take(find(s, c, 0))
}

/// The text after the first `c`, if `c` occurs.
pub open spec fn after(s: Seq<char>, c: char) -> Option<Seq<char>> {
    let i = find(s, c, 0);
    if i < s.len() {
        Some(s.skip(i + 1))
    } else {
        None
    }
}

/// The text after the last `c`, or all of `s`.
pub open spec fn after_last(s: Seq<char>, c: char) -> Seq<char> {
    s.skip(find_last(s, c) + 1)
}

/// The views of a vector of texts.
pub open spec fn views(v: Seq<Vec<char>>) -> Seq<Seq<char>> {
    v.map_values(|t: Vec<char>| t@)
}

/// The place that a search gives lies in the text or at its end; before it
/// the characters are not found, at it one of them is.
pub proof fn lemma_find_either(s: Seq<char>, a: char, b: char, from: int)
    requires
        0 <= from <= s.len(),
    ensures
        from <= find_either(s, a, b, from) <= s.len(),
        forall|j: int| from <= j < find_either(s, a, b, from) ==> s[j] != a && s[j] != b,
        find_either(s, a, b, from) < s.len() ==> s[find_either(s, a, b, from)] == a || s[find_either(
            s,
            a,
            b,
            from,
        )] == b,
    decreases s.len() - from,
{
    if from < s.len() && !(s[from] == a || s[from] == b) {
        lemma_find_either(s, a, b, from + 1);
    }
}

/// The place of the last occurrence: after it the character does not occur.
pub proof fn lemma_find_last(s: Seq<char>, c: char)
    ensures
        -1 <= find_last(s, c) < s.len(),
        forall|j: int| find_last(s, c) < j < s.len() ==> s[j] != c,
        find_last(s, c) >= 0 ==> s[find_last(s, c)] == c,
    decreases s.len(),
{
    if s.len() > 0 && s.last() != c {
        lemma_find_last(s.drop_last(), c);
        assert forall|j: int| find_last(s, c) < j < s.len() implies s[j] != c by {
            if j < s.len() - 1 {
                assert(s.drop_last()[j] == s[j]);
            }
        }
    }
}

/// The characters of a string.
pub fn chars_of(s: &str) -> (v: Vec<char>)
    ensures
        v@ == s@,
{
    let mut v: Vec<char> = Vec::new();
    for c in it: s.chars()
        invariant
            v@.len() == it.index(),
            it.seq() == s@,
            forall|j: int| 0 <= j < v@.len() ==> v@[j] == it.seq()[j],
    {
        v.push(c);
    }
    assert(v@ =~= s@);
    v
}

/// The string of characters.
pub fn string_of(v: &Vec<char>) -> (s: String)
    ensures
        s@ == v@,
{
    let mut s = String::new();
    let mut i: usize = 0;
    while i < v.len()
        invariant
            i <= v.len(),
            s@ == v@.take(i as int),
        decreases v.len() - i,
    {
        s.push(v[i]);
        assert(v@.take(i as int).push(v@[i as int]) =~= v@.take(i + 1));
        i += 1;
    }
    assert(v@.take(v.len() as int) =~= v@);
    s
}

/// A copy of the characters from `lo` up to `hi`.
pub fn slice_of(v: &Vec<char>, lo: usize, hi: usize) -> (r: Vec<char>)
    requires
        lo <= hi <= v.len(),
    ensures
        r@ == v@.subrange(lo as int, hi as int),
{
    let mut r: Vec<char> = Vec::new();
    let mut i: usize = lo;
    while i < hi
        invariant
            lo <= i <= hi <= v.len(),
            r@ == v@.subrange(lo as int, i as int),
        decreases hi - i,
    {
        r.push(v[i]);
        assert(v@.subrange(lo as int, i as int).push(v@[i as int]) =~= v@.subrange(
            lo as int,
            i + 1,
        ));
        i += 1;
    }
    r
}

/// Appends characters.
pub fn append_text(dst: &mut Vec<char>, src: &Vec<char>)
    ensures
        final(dst)@ == old(dst)@ + src@,
{
    let mut i: usize = 0;
    while i < src.len()
        invariant
            i <= src.len(),
            dst@ == old(dst)@ + src@.take(i as int),
        decreases src.len() - i,
    {
        dst.push(src[i]);
        assert((old(dst)@ + src@.take(i as int)).push(src@[i as int]) =~= old(dst)@ + src@.take(
            i + 1,
        ));
        i += 1;
    }
    assert(src@.take(src.len() as int) =~= src@);
}

/// Appends the characters of a string.
pub fn append_str(dst: &mut Vec<char>, src: &str)
    ensures
        final(dst)@ == old(dst)@ + src@,
{
    let chars = chars_of(src);
    append_text(dst, &chars);
}

/// Whether two texts are the same.
pub fn same_text(a: &Vec<char>, b: &Vec<char>) -> (r: bool)
    ensures
        r == (a@ == b@),
{
    if a.len() != b.len() {
        return false;
    }
    let mut i: usize = 0;
    while i < a.len()
        invariant
            i <= a.len(),
            a.len() == b.len(),
            forall|j: int| 0 <= j < i ==> a@[j] == b@[j],
        decreases a.len() - i,
    {
        if a[i] != b[i] {
            return false;
        }
        i += 1;
    }
    assert(a@ =~= b@);
    true
}

/// Whether a text is the given string.
pub fn text_is(a: &Vec<char>, lit: &str) -> (r: bool)
    ensures
        r == (a@ == lit@),
{
    let chars = chars_of(lit);
    same_text(a, &chars)
}

/// The first place at or after `from` that holds `a` or `b`, or the length.
pub fn find_either_in(v: &Vec<char>, a: char, b: char, from: usize) -> (i: usize)
    requires
        from <= v.len(),
    ensures
        i == find_either(v@, a, b, from as int),
        from <= i <= v.len(),
{
    let mut i: usize = from;
    while i < v.len() && !(v[i] == a || v[i] == b)
        invariant
            from <= i <= v.len(),
            find_either(v@, a, b, from as int) == find_either(v@, a, b, i as int),
        decreases v.len() - i,
    {
        i += 1;
    }
    i
}

/// The first place at or after `from` that holds `c`, or the length.
pub fn find_in(v: &Vec<char>, c: char, from: usize) -> (i: usize)
    requires
        from <= v.len(),
    ensures
        i == find(v@, c, from as int),
        from <= i <= v.len(),
{
    find_either_in(v, c, c, from)
}

/// One past the last `c` in `v`: the index at which the text after the last
/// `c` begins, `0` when `c` does not occur.
pub fn after_last_in(v: &Vec<char>, c: char) -> (i: usize)
    ensures
        i == find_last(v@, c) + 1,
        i <= v.len(),
{
    let mut i: usize = v.len();
    assert(v@.take(v.len() as int) =~= v@);
    while i > 0 && v[i - 1] != c
        invariant
            i <= v.len(),
            find_last(v@, c) == find_last(v@.take(i as int), c),
        decreases i,
    {
        assert(v@.take(i as int).drop_last() =~= v@.take(i - 1));
        i -= 1;
    }
    proof {
        assert(v@.take(v.len() as int) =~= v@);
        lemma_find_last(v@.take(i as int), c);
    }
    i
}

/// The first place at or after `from` where `a` stands directly before `b`, or the length.
pub fn find_pair_in(v: &Vec<char>, a: char, b: char, from: usize) -> (i: usize)
    requires
        from <= v.len(),
    ensures
        i == find_pair(v@, a, b, from as int),
        from <= i <= v.len(),
        i < v.len() ==> i + 1 < v.len(),
{
    let mut i: usize = from;
    while i < v.len() && i + 1 < v.len() && !(v[i] == a && v[i + 1] == b)
        invariant
            from <= i <= v.len(),
            find_pair(v@, a, b, from as int) == find_pair(v@, a, b, i as int),
        decreases v.len() - i,
    {
        i += 1;
    }
    if i < v.len() && i + 1 >= v.len() {
        i = v.len();
    }
    i
}

/// The pieces of a text between occurrences of `c`.
pub fn split_text(v: &Vec<char>, c: char) -> (parts: Vec<Vec<char>>)
    ensures
        views(parts@) == split(v@, c),
        parts@.len() >= 1,
{
    let mut parts: Vec<Vec<char>> = Vec::new();
    let mut start: usize = 0;
    assert(v@.skip(0) =~= v@);
    assert(views(parts@) + split(v@, c) =~= split(v@, c));
    loop
        invariant_except_break
            start <= v.len(),
            split(v@, c) == views(parts@) + split(v@.skip(start as int), c),
        ensures
            views(parts@) == split(v@, c),
            parts@.len() >= 1,
        decreases v.len() - start,
    {
        let ghost rest = v@.skip(start as int);
        let i = find_in(v, c, start);
        proof {
            lemma_find_shift(v@, c, start as int);
        }
        let piece = slice_of(v, start, i);
        let ghost before_parts = parts@;
        parts.push(piece);
        proof {
            assert(views(parts@) =~= views(before_parts).push(piece@));
            assert(piece@ =~= rest.take(i - start));
        }
        if i >= v.len() {
            proof {
                assert(rest.take(i - start) =~= rest);
                assert(split(rest, c) =~= seq![rest]);
                assert(views(before_parts) + seq![rest] =~= views(parts@));
            }
            break;
        }
        proof {
            assert(rest.skip(i - start + 1) =~= v@.skip(i + 1));
            assert(views(before_parts) + (seq![rest.take(i - start)] + split(
                v@.skip(i + 1),
                c,
            )) =~= views(parts@) + split(v@.skip(i + 1), c));
        }
        start = i + 1;
    }
    parts
}

/// Searching in a suffix finds the same place, shifted.
pub proof fn lemma_find_shift(s: Seq<char>, c: char, start: int)
    requires
        0 <= start <= s.len(),
    ensures
        find(s.skip(start), c, 0) == find(s, c, start) - start,
{
    lemma_find_either_shift(s, c, c, start, start);
}

/// Searching in a suffix finds the same place, shifted.
pub proof fn lemma_find_either_shift(s: Seq<char>, a: char, b: char, start: int, from: int)
    requires
        0 <= start <= from <= s.len(),
    ensures
        find_either(s.skip(start), a, b, from - start) == find_either(s, a, b, from) - start,
    decreases s.len() - from,
{
    if from < s.len() {
        assert(s.skip(start)[from - start] == s[from]);
        if !(s[from] == a || s[from] == b) {
            lemma_find_either_shift(s, a, b, start, from + 1);
        }
    }
}

} // verus!
