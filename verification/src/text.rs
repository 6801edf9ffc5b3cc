//! Text as sequences of characters: conversion, search and replacement.

use vstd::prelude::*;
use vstd::std_specs::iter::IteratorSpec;
use vstd::string::StringExecFns;

verus! {

/// The characters of `s`, in order.
pub fn to_chars(s: &str) -> (v: Vec<char>)
    ensures
        v@ == s@,
{
    let mut v: Vec<char> = Vec::new();
    for c in it: s.chars()
        invariant
            v@ == it.seq().take(it.index()),
            it.seq() == s@,
    {
        v.push(c);
    }
    v
}

/// `String::push`: appends one character to the end of the string.
#[verifier::external_body]
pub(crate) fn push_char(s: &mut String, c: char)
    ensures
        final(s)@ == old(s)@.push(c),
{
    s.push(c);
}

/// The string made of the characters of `v`, in order.
pub fn from_chars(v: &Vec<char>) -> (s: String)
    ensures
        s@ == v@,
{
    let mut s: String = String::new();
    let mut i: usize = 0;
    while i < v.len()
        invariant
            i <= v.len(),
            s@ == v@.take(i as int),
        decreases v.len() - i,
    {
        push_char(&mut s, v[i]);
        i = i + 1;
    }
    s
}

/// Whether two strings hold the same characters.
pub fn same_text(a: &String, b: &String) -> (r: bool)
    ensures
        r == (a@ == b@),
{
    *a == *b
}

/// The texts that the strings of `v` hold.
pub open spec fn texts(v: Seq<String>) -> Seq<Seq<char>> {
    Seq::new(v.len(), |i: int| v[i]@)
}

/// Whether `pat` stands in `hay` at `i`. An empty pattern stands nowhere.
pub open spec fn matches_at(hay: Seq<char>, i: int, pat: Seq<char>) -> bool {
    &&& pat.len() > 0
    &&& 0 <= i
    &&& i + pat.len() <= hay.len()
    &&& hay.subrange(i, i + pat.len()) == pat
}

/// `hay` from `i` on, with `to` in place of each `from`: the occurrences
/// are taken from left to right, and none overlaps the one before it.
pub open spec fn replace_from(hay: Seq<char>, i: int, from: Seq<char>, to: Seq<char>) -> Seq<
    char,
>
    decreases hay.len() - i,
{
    if i < 0 || i >= hay.len() {
        Seq::empty()
    } else if matches_at(hay, i, from) {
        to + replace_from(hay, i + from.len(), from, to)
    } else {
        seq![hay[i]] + replace_from(hay, i + 1, from, to)
    }
}

/// `hay` with `to` in place of each `from`.
pub open spec fn replace_all(hay: Seq<char>, from: Seq<char>, to: Seq<char>) -> Seq<char> {
    replace_from(hay, 0, from, to)
}

/// Whether `pat` stands in `hay` at `i`.
pub fn starts_at(hay: &Vec<char>, i: usize, pat: &Vec<char>) -> (r: bool)
    ensures
        r == matches_at(hay@, i as int, pat@),
{
    if pat.len() == 0 || i > hay.len() || pat.len() > hay.len() - i {
        return false;
    }
    let mut j: usize = 0;
    while j < pat.len()
        invariant
            j <= pat.len(),
            i + pat.len() <= hay.len(),
            forall|k: int| 0 <= k < j ==> hay@[i + k] == pat@[k],
        decreases pat.len() - j,
    {
        if hay[i + j] != pat[j] {
            proof {
                assert(hay@.subrange(i as int, i + pat.len())[j as int] == hay@[i + j]);
            }
            return false;
        }
        j = j + 1;
    }
    assert(hay@.subrange(i as int, i + pat.len()) =~= pat@);
    true
}

/// `source` with `to` in place of each `from`, from left to right. An
/// empty `from` occurs nowhere, so the text comes back unchanged.
pub fn replace(source: &str, from: &str, to: &str) -> (r: String)
    ensures
        r@ == replace_all(source@, from@, to@),
{
    let hay: Vec<char> = to_chars(source);
    let pat: Vec<char> = to_chars(from);
    let mut out: String = String::new();
    let mut i: usize = 0;
    while i < hay.len()
        invariant
            i <= hay.len(),
            hay@ == source@,
            pat@ == from@,
            out@ + replace_from(hay@, i as int, pat@, to@) =~= replace_all(
                source@,
                from@,
                to@,
            ),
        decreases hay.len() - i,
    {
        if starts_at(&hay, i, &pat) {
            out.append(to);
            i = i + pat.len();
        } else {
            push_char(&mut out, hay[i]);
            i = i + 1;
        }
    }
    out
}

/// `hay` with `with` in the place of the `len` characters at `at`.
pub open spec fn spliced(hay: Seq<char>, at: int, len: nat, with: Seq<char>) -> Seq<char> {
    hay.subrange(0, at) + with + hay.subrange(at + len, hay.len() as int)
}

/// The pieces of `s` between the separators: one more piece than there are
/// separators, so the empty text has one empty piece.
pub open spec fn pieces(s: Seq<char>, sep: char) -> Seq<Seq<char>>
    decreases s.len(),
{
    if s.len() == 0 {
        seq![Seq::<char>::empty()]
    } else {
        let before = pieces(s.drop_last(), sep);
        if s.last() == sep {
            before.push(Seq::empty())
        } else {
            before.drop_last().push(before.last().push(s.last()))
        }
    }
}

/// The texts of `items` with `sep` between each two of them.
pub open spec fn joined(items: Seq<Seq<char>>, sep: char) -> Seq<char>
    decreases items.len(),
{
    if items.len() == 0 {
        Seq::empty()
    } else if items.len() == 1 {
        items[0]
    } else {
        joined(items.drop_last(), sep).push(sep) + items.last()
    }
}

/// The pieces of `s` between the separators.
pub fn split(s: &str, sep: char) -> (r: Vec<String>)
    ensures
        texts(r@) == pieces(s@, sep),
{
    let chars: Vec<char> = to_chars(s);
    let mut done: Vec<String> = Vec::new();
    let mut current: String = String::new();
    let mut i: usize = 0;
    assert(chars@.take(0) =~= Seq::<char>::empty());
    assert(texts(done@).push(current@) =~= seq![Seq::<char>::empty()]);
    while i < chars.len()
        invariant
            i <= chars.len(),
            chars@ == s@,
            pieces(chars@.take(i as int), sep) == texts(done@).push(current@),
        decreases chars.len() - i,
    {
        let c: char = chars[i];
        proof {
            let next = chars@.take(i + 1);
            assert(next.drop_last() =~= chars@.take(i as int));
            assert(next.last() == c);
        }
        let ghost before = texts(done@).push(current@);
        if c == sep {
            let ghost old_done = done@;
            done.push(current);
            current = String::new();
            proof {
                assert(texts(done@) =~= before);
            }
        } else {
            let ghost old_current = current@;
            push_char(&mut current, c);
            proof {
                assert(before.drop_last() =~= texts(done@));
                assert(before.last() == old_current);
            }
        }
        i = i + 1;
    }
    assert(chars@.take(chars@.len() as int) =~= chars@);
    done.push(current);
    assert(texts(done@) =~= pieces(s@, sep));
    done
}

/// The texts of `items` with `sep` between each two of them.
pub fn join(items: &Vec<String>, sep: char) -> (r: String)
    ensures
        r@ == joined(texts(items@), sep),
{
    let mut out: String = String::new();
    let mut i: usize = 0;
    assert(texts(items@).take(0) =~= Seq::<Seq<char>>::empty());
    while i < items.len()
        invariant
            i <= items.len(),
            out@ == joined(texts(items@).take(i as int), sep),
        decreases items.len() - i,
    {
        proof {
            let next = texts(items@).take(i + 1);
            assert(next.drop_last() =~= texts(items@).take(i as int));
            assert(next.last() == items@[i as int]@);
            if i == 0 {
                assert(out@ =~= Seq::<char>::empty());
                assert(next[0] == items@[0]@);
            }
        }
        if i > 0 {
            push_char(&mut out, sep);
        }
        out.append(items[i].as_str());
        proof {
            if i == 0 {
                assert(out@ =~= items@[0]@);
            }
        }
        i = i + 1;
    }
    assert(texts(items@).take(items@.len() as int) =~= texts(items@));
    out
}

/// Joining the pieces of a text gives the text back.
pub proof fn lemma_join_pieces(s: Seq<char>, sep: char)
    ensures
        pieces(s, sep).len() >= 1,
        joined(pieces(s, sep), sep) == s,
    decreases s.len(),
{
    if s.len() == 0 {
    } else {
        let head = s.drop_last();
        let before = pieces(head, sep);
        lemma_join_pieces(head, sep);
        if s.last() == sep {
            let all = before.push(Seq::empty());
            assert(all.drop_last() =~= before);
            assert(joined(all, sep) =~= joined(before, sep).push(sep) + Seq::<char>::empty());
            assert(head.push(sep) =~= s);
        } else {
            let grown = before.last().push(s.last());
            let all = before.drop_last().push(grown);
            assert(all.drop_last() =~= before.drop_last());
            if before.len() == 1 {
                assert(before[0] == head);
                assert(all[0] == grown);
                assert(grown =~= s);
            } else {
                assert(joined(before, sep) == joined(before.drop_last(), sep).push(sep)
                    + before.last());
                assert(joined(all, sep) == joined(before.drop_last(), sep).push(sep) + grown);
                assert(joined(before.drop_last(), sep).push(sep) + grown =~= (joined(
                    before.drop_last(),
                    sep,
                ).push(sep) + before.last()).push(s.last()));
                assert(head.push(s.last()) =~= s);
            }
        }
    }
}

/// `s` with `to` in place of each `from`.
pub open spec fn map_char(s: Seq<char>, from: char, to: char) -> Seq<char> {
    Seq::new(
        s.len(),
        |i: int|
            if s[i] == from {
                to
            } else {
                s[i]
            },
    )
}

/// `s` with `to` in place of each `from`.
pub fn replace_char(s: &str, from: char, to: char) -> (r: String)
    ensures
        r@ == map_char(s@, from, to),
{
    let chars: Vec<char> = to_chars(s);
    let mut out: String = String::new();
    let mut i: usize = 0;
    while i < chars.len()
        invariant
            i <= chars.len(),
            chars@ == s@,
            out@ =~= map_char(s@, from, to).take(i as int),
        decreases chars.len() - i,
    {
        let c: char = chars[i];
        if c == from {
            push_char(&mut out, to);
        } else {
            push_char(&mut out, c);
        }
        i = i + 1;
    }
    assert(map_char(s@, from, to).take(chars@.len() as int) =~= map_char(s@, from, to));
    out
}

} // verus!
