//! Character-level helpers on strings.
use vstd::prelude::*;
use vstd::string::*;
use crate::raw::words_of;

verus! {

/// Compares two strings character by character.
pub fn str_eq(a: &str, b: &str) -> (r: bool)
    ensures
        r == (a@ == b@),
{
    let n = a.unicode_len();
    if n != b.unicode_len() {
        return false;
    }
    let mut i: usize = 0;
    while i < n
        invariant
            n == a@.len(),
            n == b@.len(),
            i <= n,
            forall|j: int| 0 <= j < i ==> a@[j] == b@[j],
        decreases n - i,
    {
        if a.get_char(i) != b.get_char(i) {
            return false;
        }
        i = i + 1;
    }
    assert(a@ =~= b@);
    true
}

/// The pieces of `s` between single spaces, empty pieces included.
pub open spec fn split_spaces(s: Seq<char>) -> Seq<Seq<char>>
    decreases s.len(),
{
    if s.len() == 0 {
        seq![Seq::empty()]
    } else {
        let p = split_spaces(s.drop_last());
        if s.last() == ' ' {
            p.push(Seq::empty())
        } else {
            p.update(p.len() - 1, p.last().push(s.last()))
        }
    }
}

/// Drops each piece equal to the one just before it, then the empty pieces.
pub open spec fn dedup_nonempty(p: Seq<Seq<char>>) -> Seq<Seq<char>>
    decreases p.len(),
{
    if p.len() == 0 {
        Seq::empty()
    } else {
        let rest = dedup_nonempty(p.drop_last());
        if p.last().len() > 0 && (p.len() == 1 || p[p.len() - 2] != p.last()) {
            rest.push(p.last())
        } else {
            rest
        }
    }
}

/// Drops each character equal to the one just before it.
pub open spec fn dedup_chars(s: Seq<char>) -> Seq<char>
    decreases s.len(),
{
    if s.len() == 0 {
        Seq::empty()
    } else {
        let rest = dedup_chars(s.drop_last());
        if s.len() == 1 || s[s.len() - 2] != s.last() {
            rest.push(s.last())
        } else {
            rest
        }
    }
}

/// The words of a flag's inline value.
pub open spec fn value_words(s: Seq<char>) -> Seq<Seq<char>> {
    dedup_nonempty(split_spaces(s))
}

/// Each character of a cluster of short flags as a name of its own.
pub open spec fn flag_names(s: Seq<char>) -> Seq<Seq<char>> {
    dedup_chars(s).map_values(|c: char| seq![c])
}

/// Splits `s` at single spaces, empty pieces included.
fn split_on_spaces(s: &str) -> (r: Vec<String>)
    ensures
        words_of(r@) == split_spaces(s@),
{
    let n = s.unicode_len();
    let mut pieces: Vec<String> = Vec::new();
    let mut start: usize = 0;
    let mut i: usize = 0;
    assert(s@.take(0) =~= Seq::<char>::empty());
    assert(words_of(pieces@).push(s@.subrange(0, 0)) =~= seq![Seq::<char>::empty()]);
    while i < n
        invariant
            n == s@.len(),
            start <= i <= n,
            split_spaces(s@.take(i as int)) == words_of(pieces@).push(s@.subrange(start as int, i as int)),
        decreases n - i,
    {
        let c = s.get_char(i);
        let ghost p0 = pieces@;
        assert(s@.take(i + 1).drop_last() =~= s@.take(i as int));
        assert(s@.take(i + 1).last() == c);
        if c == ' ' {
            pieces.push(String::from_str(s.substring_char(start, i)));
            assert(words_of(pieces@) =~= words_of(p0).push(s@.subrange(start as int, i as int)));
            start = i + 1;
            assert(s@.subrange(start as int, start as int) =~= Seq::<char>::empty());
        } else {
            assert(s@.subrange(start as int, i + 1) =~= s@.subrange(start as int, i as int).push(c));
            assert(words_of(pieces@).push(s@.subrange(start as int, i as int)).update(
                words_of(pieces@).len() as int, s@.subrange(start as int, i + 1)) =~= words_of(pieces@).push(
                s@.subrange(start as int, i + 1)));
        }
        i = i + 1;
    }
    let ghost p0 = pieces@;
    pieces.push(String::from_str(s.substring_char(start, n)));
    assert(words_of(pieces@) =~= words_of(p0).push(s@.subrange(start as int, n as int)));
    assert(s@.take(n as int) =~= s@);
    pieces
}

/// The words of a flag's inline value: the pieces between spaces, with each
/// piece equal to the one before it and each empty piece left out.
pub fn split_values(s: &str) -> (r: Vec<String>)
    ensures
        words_of(r@) == value_words(s@),
{
    let pieces = split_on_spaces(s);
    let ghost ps = words_of(pieces@);
    let mut out: Vec<String> = Vec::new();
    let mut k: usize = 0;
    assert(ps.take(0) =~= Seq::<Seq<char>>::empty());
    while k < pieces.len()
        invariant
            ps == words_of(pieces@),
            ps == split_spaces(s@),
            k <= pieces@.len(),
            words_of(out@) == dedup_nonempty(ps.take(k as int)),
        decreases pieces.len() - k,
    {
        let ghost o0 = out@;
        let ghost t = ps.take(k + 1);
        assert(t.drop_last() =~= ps.take(k as int));
        assert(t.last() == ps[k as int]);
        let nonempty = pieces[k].as_str().unicode_len() > 0;
        let fresh = k == 0 || !str_eq(pieces[k - 1].as_str(), pieces[k].as_str());
        if nonempty && fresh {
            out.push(pieces[k].clone());
            assert(words_of(out@) =~= words_of(o0).push(ps[k as int]));
        }
        k = k + 1;
    }
    assert(ps.take(pieces@.len() as int) =~= ps);
    out
}

/// The names of a cluster of short flags: one per character, each character
/// equal to the one before it left out.
pub fn split_flags(s: &str) -> (r: Vec<String>)
    ensures
        words_of(r@) == flag_names(s@),
{
    let n = s.unicode_len();
    let mut out: Vec<String> = Vec::new();
    let mut k: usize = 0;
    assert(s@.take(0) =~= Seq::<char>::empty());
    assert(words_of(out@) =~= dedup_chars(s@.take(0)).map_values(|c: char| seq![c]));
    while k < n
        invariant
            n == s@.len(),
            k <= n,
            words_of(out@) == dedup_chars(s@.take(k as int)).map_values(|c: char| seq![c]),
        decreases n - k,
    {
        let ghost o0 = out@;
        let ghost t = s@.take(k + 1);
        assert(t.drop_last() =~= s@.take(k as int));
        let c = s.get_char(k);
        assert(t.last() == c);
        if k == 0 || s.get_char(k - 1) != c {
            out.push(String::from_str(s.substring_char(k, k + 1)));
            assert(s@.subrange(k as int, k + 1) =~= seq![c]);
            assert(k > 0 ==> t[k - 1] == s@[k - 1]);
            assert(dedup_chars(t) == dedup_chars(s@.take(k as int)).push(c));
            assert(dedup_chars(t).map_values(|c: char| seq![c]) =~= dedup_chars(s@.take(k as int)).map_values(
                |c: char| seq![c]).push(seq![c]));
            assert(words_of(out@) =~= words_of(o0).push(seq![c]));
            assert(words_of(out@) =~= dedup_chars(t).map_values(|c: char| seq![c]));
        } else {
            assert(words_of(out@) =~= dedup_chars(t).map_values(|c: char| seq![c]));
        }
        k = k + 1;
    }
    assert(s@.take(n as int) =~= s@);
    out
}

} // verus!
