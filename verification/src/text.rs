//! Character-level text utilities shared by the layout and framing code.

use vstd::prelude::*;
use vstd::string::*;
use vstd::utf8::encode_utf8;

verus! {

/// `String::push` appends exactly one scalar value to the end of the string.
pub assume_specification[ String::push ](s: &mut String, c: char)
    ensures
        final(s)@ == old(s)@.push(c),
;

/// The scalar values of `s`, in order.
pub fn to_chars(s: &str) -> (v: Vec<char>)
    ensures
        v@ == s@,
{
    let mut v: Vec<char> = Vec::new();
    for c in it: s.chars()
        invariant
            v@ == it.seq().take(it.index()),
            it.seq() == s@,
    {
        v.push(c);
    }
    v
}

/// The string whose scalar values are `v`, in order.
pub fn to_text(v: &Vec<char>) -> (s: String)
    ensures
        s@ == v@,
{
    let mut s = String::new();
    let mut i: usize = 0;
    while i < v.len()
        invariant
            i <= v.len(),
            s@ == v@.take(i as int),
        decreases v.len() - i,
    {
        s.push(v[i]);
        i += 1;
    }
    assert(v@.take(v.len() as int) == v@);
    s
}

/// The first `n` characters of `s`, or all of `s` if it has fewer.
pub open spec fn truncated(s: Seq<char>, n: nat) -> Seq<char> {
    if n < s.len() {
        s.take(n as int)
    } else {
        s
    }
}

/// The number of bytes that the first `n` characters of `s` take in UTF-8.
pub open spec fn byte_offset(s: Seq<char>, n: nat) -> nat {
    encode_utf8(s.take(n as int)).len()
}

/// The first `max_chars` characters of `s`, or all of `s` if it has fewer.
/// The cut never falls inside a character.
pub fn truncate(s: &str, max_chars: usize) -> (r: &str)
    ensures
        r@ == truncated(s@, max_chars as nat),
{
    if max_chars < s.unicode_len() {
        s.substring_char(0, max_chars)
    } else {
        s
    }
}

/// The byte position at which character number `max_chars` of `s` starts,
/// counting from 0, or `None` if `s` has no such character.
pub fn get_index(s: &str, max_chars: usize) -> (r: Option<usize>)
    ensures
        max_chars < s@.len() ==> r == Some(byte_offset(s@, max_chars as nat) as usize),
        max_chars >= s@.len() ==> r is None,
{
    if max_chars < s.unicode_len() {
        Some(s.substring_char(0, max_chars).len())
    } else {
        None
    }
}

/// The character sequences held by a vector of lines.
pub open spec fn rows(v: Seq<Vec<char>>) -> Seq<Seq<char>> {
    Seq::new(v.len(), |i: int| v[i]@)
}

/// `n` copies of `c`.
pub open spec fn repeated(c: char, n: nat) -> Seq<char> {
    Seq::new(n, |i: int| c)
}

/// The pieces of `s` between occurrences of `sep`. There is always at least
/// one piece; `k` separators give `k + 1` pieces, some of which may be empty.
pub open spec fn split_on(s: Seq<char>, sep: char) -> Seq<Seq<char>>
    decreases s.len(),
{
    if s.len() == 0 {
        seq![Seq::empty()]
    } else {
        let before = split_on(s.drop_last(), sep);
        if s.last() == sep {
            before.push(Seq::empty())
        } else {
            before.drop_last().push(before.last().push(s.last()))
        }
    }
}

/// `pieces` joined into one sequence with `sep` between neighbours.
pub open spec fn join_with(pieces: Seq<Seq<char>>, sep: char) -> Seq<char>
    decreases pieces.len(),
{
    if pieces.len() == 0 {
        Seq::empty()
    } else if pieces.len() == 1 {
        pieces[0]
    } else {
        join_with(pieces.drop_last(), sep).push(sep) + pieces.last()
    }
}

/// Splitting never yields an empty list of pieces.
pub proof fn lemma_split_on_nonempty(s: Seq<char>, sep: char)
    ensures
        split_on(s, sep).len() >= 1,
    decreases s.len(),
{
    if s.len() > 0 {
        lemma_split_on_nonempty(s.drop_last(), sep);
    }
}

/// Joining the pieces of a split with the separator gives the text back, and
/// no piece contains the separator.
pub proof fn lemma_split_then_join(s: Seq<char>, sep: char)
    ensures
        join_with(split_on(s, sep), sep) == s,
        forall|i: int, j: int|
            0 <= i < split_on(s, sep).len() && 0 <= j < split_on(s, sep)[i].len()
                ==> split_on(s, sep)[i][j] != sep,
    decreases s.len(),
{
    lemma_split_on_nonempty(s, sep);
    if s.len() == 0 {
        assert(join_with(split_on(s, sep), sep) =~= s);
    } else {
        let t = s.drop_last();
        let before = split_on(t, sep);
        lemma_split_then_join(t, sep);
        lemma_split_on_nonempty(t, sep);
        if s.last() == sep {
            let now = before.push(Seq::empty());
            assert(now.drop_last() =~= before);
            assert(join_with(now, sep) =~= t.push(sep));
            assert(t.push(sep) =~= s);
        } else {
            let grown = before.last().push(s.last());
            let now = before.drop_last().push(grown);
            assert(now.drop_last() =~= before.drop_last());
            if before.len() == 1 {
                assert(before[0] == t);
                assert(join_with(now, sep) =~= s);
            } else {
                assert(join_with(before, sep) == join_with(before.drop_last(), sep).push(sep)
                    + before.last());
                assert(join_with(now, sep) =~= join_with(before, sep).push(s.last()));
                assert(t.push(s.last()) =~= s);
            }
        }
    }
}

/// A text without the separator is its own single piece.
pub proof fn lemma_split_on_absent(s: Seq<char>, sep: char)
    requires
        !s.contains(sep),
    ensures
        split_on(s, sep) == seq![s],
    decreases s.len(),
{
    if s.len() == 0 {
        assert(s =~= Seq::<char>::empty());
    } else {
        let t = s.drop_last();
        assert forall|i: int| 0 <= i < t.len() implies t[i] != sep by {
            assert(s[i] == t[i]);
            assert(s.contains(s[i]));
        }
        assert(!t.contains(sep));
        lemma_split_on_absent(t, sep);
        assert(s.contains(s.last()));
        assert(t.push(s.last()) =~= s);
        assert(seq![t].drop_last().push(t.push(s.last())) =~= seq![s]);
    }
}

/// Splits `s` at every occurrence of `sep`.
pub fn split_chars(s: &Vec<char>, sep: char) -> (pieces: Vec<Vec<char>>)
    ensures
        rows(pieces@) == split_on(s@, sep),
{
    let mut done: Vec<Vec<char>> = Vec::new();
    let mut cur: Vec<char> = Vec::new();
    let mut i: usize = 0;
    while i < s.len()
        invariant
            i <= s.len(),
            rows(done@).push(cur@) == split_on(s@.take(i as int), sep),
        decreases s.len() - i,
    {
        let c = s[i];
        proof {
            let t = s@.take(i + 1);
            assert(t.drop_last() =~= s@.take(i as int));
            assert(t.last() == c);
        }
        if c == sep {
            let ghost before = rows(done@).push(cur@);
            done.push(cur);
            cur = Vec::new();
            assert(rows(done@) =~= before);
        } else {
            let ghost before = rows(done@).push(cur@);
            cur.push(c);
            assert(rows(done@).push(cur@) =~= before.drop_last().push(before.last().push(c)));
        }
        i += 1;
    }
    let ghost before = rows(done@).push(cur@);
    done.push(cur);
    assert(rows(done@) =~= before);
    assert(s@.take(s.len() as int) == s@);
    done
}

/// A copy of the characters of `v` from position `from` up to `to`.
pub fn copy_range(v: &Vec<char>, from: usize, to: usize) -> (r: Vec<char>)
    requires
        from <= to <= v.len(),
    ensures
        r@ == v@.subrange(from as int, to as int),
{
    let mut r: Vec<char> = Vec::new();
    extend_range(&mut r, v, from, to);
    assert(Seq::<char>::empty() + v@.subrange(from as int, to as int) =~= v@.subrange(
        from as int,
        to as int,
    ));
    r
}

/// Appends the characters of `src` from position `from` up to `to` to `dst`.
pub fn extend_range(dst: &mut Vec<char>, src: &Vec<char>, from: usize, to: usize)
    requires
        from <= to <= src.len(),
    ensures
        final(dst)@ == old(dst)@ + src@.subrange(from as int, to as int),
{
    let mut i: usize = from;
    while i < to
        invariant
            from <= i <= to <= src.len(),
            dst@ == old(dst)@ + src@.subrange(from as int, i as int),
        decreases to - i,
    {
        dst.push(src[i]);
        assert(src@.subrange(from as int, i + 1) =~= src@.subrange(from as int, i as int).push(
            src@[i as int],
        ));
        i += 1;
    }
}

/// Appends `n` copies of `c` to `dst`.
pub fn extend_repeated(dst: &mut Vec<char>, c: char, n: usize)
    ensures
        final(dst)@ == old(dst)@ + repeated(c, n as nat),
{
    let mut i: usize = 0;
    while i < n
        invariant
            i <= n,
            dst@ == old(dst)@ + repeated(c, i as nat),
        decreases n - i,
    {
        dst.push(c);
        assert(repeated(c, (i + 1) as nat) =~= repeated(c, i as nat).push(c));
        i += 1;
    }
}

/// Whether two character sequences are the same.
pub fn same_chars(a: &Vec<char>, b: &Vec<char>) -> (same: bool)
    ensures
        same == (a@ == b@),
{
    if a.len() != b.len() {
        return false;
    }
    let mut i: usize = 0;
    while i < a.len()
        invariant
            i <= a.len(),
            a.len() == b.len(),
            a@.take(i as int) == b@.take(i as int),
        decreases a.len() - i,
    {
        if a[i] != b[i] {
            return false;
        }
        assert(a@.take(i + 1) =~= a@.take(i as int).push(a@[i as int]));
        assert(b@.take(i + 1) =~= b@.take(i as int).push(b@[i as int]));
        i += 1;
    }
    assert(a@.take(a.len() as int) =~= a@);
    assert(b@.take(b.len() as int) =~= b@);
    true
}

/// The characters of a string that may be missing.
pub open spec fn chars_of(s: Option<&str>) -> Option<Seq<char>> {
    match s {
        Some(text) => Some(text@),
        None => None,
    }
}

/// The character sequences held by a vector of strings.
pub open spec fn texts(v: Seq<String>) -> Seq<Seq<char>> {
    Seq::new(v.len(), |i: int| v[i]@)
}

/// Whether `needle` stands in `hay` at position `at`.
pub open spec fn occurs_at(hay: Seq<char>, needle: Seq<char>, at: int) -> bool {
    0 <= at && at + needle.len() <= hay.len() && hay.subrange(at, at + needle.len()) == needle
}

/// Whether `needle` stands anywhere in `hay`.
pub open spec fn contains_text(hay: Seq<char>, needle: Seq<char>) -> bool {
    exists|at: int| occurs_at(hay, needle, at)
}

/// Whether `hay` begins with `needle`.
pub open spec fn starts_with(hay: Seq<char>, needle: Seq<char>) -> bool {
    occurs_at(hay, needle, 0)
}

/// Whether `hay` ends with `needle`.
pub open spec fn ends_with(hay: Seq<char>, needle: Seq<char>) -> bool {
    occurs_at(hay, needle, hay.len() - needle.len())
}

/// `s` with every occurrence of `from` replaced by `to`, found from left to
/// right without overlap. An empty `from` occurs nowhere.
pub open spec fn replaced(s: Seq<char>, from: Seq<char>, to: Seq<char>) -> Seq<char>
    decreases s.len(),
{
    if s.len() == 0 {
        s
    } else if from.len() > 0 && occurs_at(s, from, 0) {
        to + replaced(s.skip(from.len() as int), from, to)
    } else {
        seq![s[0]] + replaced(s.skip(1), from, to)
    }
}

/// The characters with the Unicode property `White_Space`.
pub open spec fn is_space(c: char) -> bool {
    let n = c as u32;
    ||| 0x09 <= n <= 0x0D
    ||| n == 0x20
    ||| n == 0x85
    ||| n == 0xA0
    ||| n == 0x1680
    ||| 0x2000 <= n <= 0x200A
    ||| n == 0x2028
    ||| n == 0x2029
    ||| n == 0x202F
    ||| n == 0x205F
    ||| n == 0x3000
}

/// `s` without the white space at its end.
pub open spec fn trimmed_end(s: Seq<char>) -> Seq<char>
    decreases s.len(),
{
    if s.len() > 0 && is_space(s.last()) {
        trimmed_end(s.drop_last())
    } else {
        s
    }
}

/// Whether `c` is white space.
pub fn is_whitespace(c: char) -> (b: bool)
    ensures
        b == is_space(c),
{
    let n: u32 = c as u32;
    (0x09 <= n && n <= 0x0D) || n == 0x20 || n == 0x85 || n == 0xA0 || n == 0x1680 || (0x2000 <= n
        && n <= 0x200A) || n == 0x2028 || n == 0x2029 || n == 0x202F || n == 0x205F || n == 0x3000
}

/// Whether `needle` stands in `hay` at position `at`.
pub fn matches_at(hay: &Vec<char>, needle: &Vec<char>, at: usize) -> (found: bool)
    ensures
        found == occurs_at(hay@, needle@, at as int),
{
    if at > hay.len() || needle.len() > hay.len() - at {
        return false;
    }
    let ghost part = hay@.subrange(at as int, at + needle.len());
    let mut i: usize = 0;
    while i < needle.len()
        invariant
            i <= needle.len(),
            at + needle.len() <= hay.len(),
            part == hay@.subrange(at as int, at + needle.len()),
            part.take(i as int) == needle@.take(i as int),
        decreases needle.len() - i,
    {
        if hay[at + i] != needle[i] {
            assert(part[i as int] != needle@[i as int]);
            return false;
        }
        assert(part.take(i + 1) =~= part.take(i as int).push(part[i as int]));
        assert(needle@.take(i + 1) =~= needle@.take(i as int).push(needle@[i as int]));
        i += 1;
    }
    assert(part.take(needle.len() as int) =~= part);
    assert(needle@.take(needle.len() as int) =~= needle@);
    true
}

/// Whether `needle` stands anywhere in `hay`.
pub fn contains_chars(hay: &Vec<char>, needle: &Vec<char>) -> (found: bool)
    ensures
        found == contains_text(hay@, needle@),
{
    if needle.len() > hay.len() {
        assert forall|at: int| !occurs_at(hay@, needle@, at) by {}
        return false;
    }
    let last: usize = hay.len() - needle.len();
    let mut at: usize = 0;
    while at < last
        invariant
            at <= last,
            last == hay.len() - needle.len(),
            forall|j: int| 0 <= j < at ==> !occurs_at(hay@, needle@, j),
        decreases last - at,
    {
        if matches_at(hay, needle, at) {
            return true;
        }
        at += 1;
    }
    let found = matches_at(hay, needle, last);
    if !found {
        assert forall|j: int| !occurs_at(hay@, needle@, j) by {
            if 0 <= j && j + needle@.len() <= hay@.len() {
                assert(j <= last);
            }
        }
    }
    found
}

/// Whether `hay` ends with `needle`.
pub fn ends_with_chars(hay: &Vec<char>, needle: &Vec<char>) -> (found: bool)
    ensures
        found == ends_with(hay@, needle@),
{
    if needle.len() > hay.len() {
        false
    } else {
        matches_at(hay, needle, hay.len() - needle.len())
    }
}

/// Replaces every occurrence of `from` in `s` by `to`.
pub fn replace_chars(s: &Vec<char>, from: &Vec<char>, to: &Vec<char>) -> (r: Vec<char>)
    ensures
        r@ == replaced(s@, from@, to@),
{
    let ghost whole = replaced(s@, from@, to@);
    let mut r: Vec<char> = Vec::new();
    let mut i: usize = 0;
    assert(s@.skip(0) =~= s@);
    assert(r@ + whole =~= whole);
    while i < s.len()
        invariant
            i <= s.len(),
            r@ + replaced(s@.skip(i as int), from@, to@) == whole,
        decreases s.len() - i,
    {
        let ghost rest = s@.skip(i as int);
        let ghost before = r@;
        let hit: bool = from.len() > 0 && matches_at(s, from, i);
        proof {
            if from.len() > 0 && i + from.len() <= s.len() {
                assert(rest.subrange(0, from@.len() as int) =~= s@.subrange(
                    i as int,
                    i + from.len(),
                ));
            }
            assert(hit == (from@.len() > 0 && occurs_at(rest, from@, 0)));
        }
        if hit {
            extend_range(&mut r, to, 0, to.len());
            proof {
                assert(to@.subrange(0, to.len() as int) =~= to@);
                assert(rest.skip(from@.len() as int) =~= s@.skip(i + from.len()));
                assert(r@ + replaced(s@.skip(i + from.len()), from@, to@) =~= before + replaced(
                    rest,
                    from@,
                    to@,
                ));
            }
            i += from.len();
        } else {
            r.push(s[i]);
            proof {
                assert(rest.skip(1) =~= s@.skip(i + 1));
                assert(rest[0] == s@[i as int]);
                assert(r@ + replaced(s@.skip(i + 1), from@, to@) =~= before + replaced(
                    rest,
                    from@,
                    to@,
                ));
            }
            i += 1;
        }
    }
    assert(s@.skip(s.len() as int) =~= Seq::<char>::empty());
    assert(r@ + Seq::<char>::empty() =~= r@);
    r
}

/// Removes the white space at the end of `s`.
pub fn trim_end_chars(s: &Vec<char>) -> (r: Vec<char>)
    ensures
        r@ == trimmed_end(s@),
{
    let mut end: usize = s.len();
    assert(s@.take(end as int) =~= s@);
    while end > 0 && is_whitespace(s[end - 1])
        invariant
            end <= s.len(),
            trimmed_end(s@.take(end as int)) == trimmed_end(s@),
        decreases end,
    {
        assert(s@.take(end as int).drop_last() =~= s@.take(end - 1));
        end -= 1;
    }
    let r = copy_range(s, 0, end);
    assert(s@.subrange(0, end as int) =~= s@.take(end as int));
    r
}

/// Joins `pieces` with `sep` between neighbours.
pub fn join_chars(pieces: &Vec<Vec<char>>, sep: char) -> (r: Vec<char>)
    ensures
        r@ == join_with(rows(pieces@), sep),
{
    let ghost all = rows(pieces@);
    let mut r: Vec<char> = Vec::new();
    let mut i: usize = 0;
    assert(all.take(0) =~= Seq::<Seq<char>>::empty());
    while i < pieces.len()
        invariant
            i <= pieces.len(),
            all == rows(pieces@),
            r@ == join_with(all.take(i as int), sep),
        decreases pieces.len() - i,
    {
        let piece = &pieces[i];
        if i > 0 {
            r.push(sep);
        }
        extend_range(&mut r, piece, 0, piece.len());
        proof {
            let next = all.take(i + 1);
            assert(piece@.subrange(0, piece.len() as int) =~= piece@);
            assert(next.drop_last() =~= all.take(i as int));
            assert(next.last() == piece@);
            if i == 0 {
                assert(r@ =~= piece@);
            }
        }
        i += 1;
    }
    assert(all.take(pieces.len() as int) =~= all);
    r
}

} // verus!
