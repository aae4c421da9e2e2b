//! Lines as sequences of characters: splitting, cutting and joining.

use vstd::prelude::*;
use vstd::string::StringExecFns;

verus! {

/// The character sequences of a sequence of strings.
pub open spec fn texts(v: Seq<String>) -> Seq<Seq<char>> {
    Seq::new(v.len(), |i: int| v[i]@)
}

/// The pieces of `s` between occurrences of `sep`. There is always at least
/// one piece; `n` separators give `n + 1` pieces, empty ones included.
pub open spec fn split_spec(s: Seq<char>, sep: char) -> Seq<Seq<char>>
    decreases s.len(),
{
    if s.len() == 0 {
        seq![Seq::<char>::empty()]
    } else {
        let head = split_spec(s.drop_last(), sep);
        if s.last() == sep {
            head.push(Seq::<char>::empty())
        } else {
            head.drop_last().push(head.last().push(s.last()))
        }
    }
}

/// `s` with every occurrence of `c` taken out.
pub open spec fn without(s: Seq<char>, c: char) -> Seq<char>
    decreases s.len(),
{
    if s.len() == 0 {
        s
    } else if s.last() == c {
        without(s.drop_last(), c)
    } else {
        without(s.drop_last(), c).push(s.last())
    }
}

/// How often `c` occurs in `s`.
pub open spec fn count_of(s: Seq<char>, c: char) -> nat
    decreases s.len(),
{
    if s.len() == 0 {
        0
    } else if s.last() == c {
        count_of(s.drop_last(), c) + 1
    } else {
        count_of(s.drop_last(), c)
    }
}

/// The pieces joined again, with `sep` between neighbours.
pub open spec fn join_spec(pieces: Seq<Seq<char>>, sep: char) -> Seq<char>
    decreases pieces.len(),
{
    if pieces.len() == 0 {
        Seq::<char>::empty()
    } else if pieces.len() == 1 {
        pieces[0]
    } else {
        join_spec(pieces.drop_last(), sep).push(sep) + pieces.last()
    }
}

/// A split has one piece more than the line has separators, no piece holds
/// the separator, and joining the pieces gives the line back.
pub proof fn lemma_split_shape(s: Seq<char>, sep: char)
    ensures
        split_spec(s, sep).len() == count_of(s, sep) + 1,
        forall|k: int|
            0 <= k < split_spec(s, sep).len() ==> !(#[trigger] split_spec(s, sep)[k]).contains(
                sep,
            ),
        join_spec(split_spec(s, sep), sep) == s,
    decreases s.len(),
{
    if s.len() > 0 {
        let before = s.drop_last();
        let head = split_spec(before, sep);
        lemma_split_shape(before, sep);
        let all = split_spec(s, sep);
        if s.last() == sep {
            assert(all.drop_last() =~= head);
        } else {
            assert(all.drop_last() =~= head.drop_last());
            if head.len() != 1 {
                assert(s =~= before.push(s.last()));
            }
        }
    }
}

/// What is left of a line never holds the character that was taken out.
pub proof fn lemma_without_clean(s: Seq<char>, c: char)
    ensures
        !without(s, c).contains(c),
        without(s, c).len() + count_of(s, c) == s.len(),
    decreases s.len(),
{
    if s.len() > 0 {
        lemma_without_clean(s.drop_last(), c);
    }
}

/// The characters of a string, in order.
pub fn chars_of(s: &str) -> (v: Vec<char>)
    ensures
        v@ == s@,
{
    let mut v: Vec<char> = Vec::new();
    for c in it: s.chars()
        invariant
            v@ == it.seq().take(it.index() as int),
            it.seq() == s@,
    {
        v.push(c);
    }
    v
}

/// The characters of `line` from position `from` up to, not including, `to`.
pub fn piece(line: &str, from: usize, to: usize) -> (r: String)
    requires
        from <= to <= line@.len(),
    ensures
        r@ == line@.subrange(from as int, to as int),
{
    String::from_str(line.substring_char(from, to))
}

/// Splits `line` at every occurrence of `sep`.
pub fn split(line: &str, sep: char) -> (out: Vec<String>)
    ensures
        texts(out@) == split_spec(line@, sep),
{
    let chars = chars_of(line);
    let n = chars.len();
    let mut out: Vec<String> = Vec::new();
    let mut start: usize = 0;
    let mut i: usize = 0;
    proof {
        assert(chars@.take(0) =~= Seq::<char>::empty());
    }
    while i < n
        invariant
            n == chars.len(),
            chars@ == line@,
            start <= i <= n,
            split_spec(chars@.take(i as int), sep) == texts(out@).push(
                chars@.subrange(start as int, i as int),
            ),
        decreases n - i,
    {
        proof {
            let after = chars@.take(i + 1);
            assert(after.drop_last() =~= chars@.take(i as int));
        }
        if chars[i] == sep {
            let part = piece(line, start, i);
            proof {
                assert(chars@.subrange(i + 1, i + 1) =~= Seq::<char>::empty());
            }
            out.push(part);
            start = i + 1;
        } else {
            proof {
                let cur = chars@.subrange(start as int, i as int);
                assert(chars@.subrange(start as int, i + 1) =~= cur.push(chars@[i as int]));
            }
        }
        i = i + 1;
    }
    proof {
        assert(chars@.take(n as int) =~= chars@);
    }
    let part = piece(line, start, n);
    out.push(part);
    out
}

/// Copies `s` without the occurrences of `c`.
pub fn remove_char(s: &str, c: char) -> (out: String)
    ensures
        out@ == without(s@, c),
{
    let chars = chars_of(s);
    let n = chars.len();
    let mut out = String::new();
    let mut start: usize = 0;
    let mut i: usize = 0;
    while i < n
        invariant
            n == chars.len(),
            chars@ == s@,
            start <= i <= n,
            without(chars@.take(i as int), c) == out@ + chars@.subrange(start as int, i as int),
        decreases n - i,
    {
        proof {
            let after = chars@.take(i + 1);
            assert(after.drop_last() =~= chars@.take(i as int));
        }
        if chars[i] == c {
            let part = s.substring_char(start, i);
            out.append(part);
            start = i + 1;
        }
        i = i + 1;
    }
    proof {
        assert(chars@.take(n as int) =~= chars@);
    }
    let part = s.substring_char(start, n);
    out.append(part);
    out
}

} // verus!
