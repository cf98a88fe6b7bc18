//! Text as sequences of characters: conversion and replacement.

use vstd::prelude::*;
use vstd::std_specs::iter::IteratorSpec;

verus! {

/// The characters of a string slice, in order.
pub fn chars_of(s: &str) -> (v: Vec<char>)
    ensures
        v@ == s@,
{
    let mut v: Vec<char> = Vec::new();
    let mut it = s.chars();
    loop
        invariant
            it.obeys_prophetic_iter_laws(),
            it.decrease() is Some,
            v@ + it.remaining() == s@,
        ensures
            v@ == s@,
        decreases it.decrease().unwrap_or(0),
    {
        match it.next() {
            Some(c) => {
                v.push(c);
            },
            None => {
                break;
            },
        }
    }
    v
}

/// `String::push`: appends the character `c` to the end of the string.
pub assume_specification[ String::push ](s: &mut String, c: char)
    ensures
        final(s)@ == old(s)@.push(c),
;

/// The string that holds the given characters, in order.
pub fn string_of(chars: &Vec<char>) -> (s: String)
    ensures
        s@ == chars@,
{
    let mut s = String::new();
    let mut i: usize = 0;
    while i < chars.len()
        invariant
            i <= chars.len(),
            s@ == chars@.take(i as int),
        decreases chars.len() - i,
    {
        s.push(chars[i]);
        i = i + 1;
    }
    s
}

/// Whether `pattern` stands in `text` at position `at`.
pub open spec fn occurs_at(text: Seq<char>, at: int, pattern: Seq<char>) -> bool {
    0 <= at && at + pattern.len() <= text.len() && text.subrange(at, at + pattern.len())
        == pattern
}

/// `text` with every occurrence of `pattern` replaced by `with`. Occurrences
/// are found from left to right and do not overlap; an empty pattern occurs
/// nowhere.
pub open spec fn replaced(text: Seq<char>, pattern: Seq<char>, with: Seq<char>) -> Seq<char>
    decreases text.len(),
{
    if pattern.len() == 0 || text.len() < pattern.len() {
        text
    } else if occurs_at(text, 0, pattern) {
        with + replaced(text.skip(pattern.len() as int), pattern, with)
    } else {
        seq![text[0]] + replaced(text.skip(1), pattern, with)
    }
}

fn matches_at(text: &Vec<char>, at: usize, pattern: &Vec<char>) -> (found: bool)
    requires
        at + pattern.len() <= text.len(),
    ensures
        found == occurs_at(text@, at as int, pattern@),
{
    let mut k: usize = 0;
    while k < pattern.len()
        invariant
            k <= pattern.len(),
            at + pattern.len() <= text.len(),
            text@.subrange(at as int, at + k) == pattern@.take(k as int),
        decreases pattern.len() - k,
    {
        if text[at + k] != pattern[k] {
            assert(text@.subrange(at as int, at + pattern.len())[k as int] != pattern@[k as int]);
            return false;
        }
        assert(text@.subrange(at as int, at + k + 1) =~= text@.subrange(at as int, at + k).push(
            text@[at + k],
        ));
        assert(pattern@.take(k + 1) =~= pattern@.take(k as int).push(pattern@[k as int]));
        k = k + 1;
    }
    assert(pattern@.take(k as int) =~= pattern@);
    true
}

/// Replaces every occurrence of `pattern` in `text` by `with`.
pub fn replace_all(text: &str, pattern: &str, with: &str) -> (out: String)
    ensures
        out@ == replaced(text@, pattern@, with@),
{
    let t = chars_of(text);
    let p = chars_of(pattern);
    let w = chars_of(with);
    let mut out: Vec<char> = Vec::new();
    let mut i: usize = 0;
    assert(t@.skip(0) =~= t@);
    assert(out@ + replaced(t@, p@, w@) =~= replaced(t@, p@, w@));
    while i < t.len()
        invariant
            i <= t.len(),
            out@ + replaced(t@.skip(i as int), p@, w@) == replaced(t@, p@, w@),
        decreases t.len() - i,
    {
        let ghost rest = t@.skip(i as int);
        let ghost before = out@;
        if p.len() > 0 && p.len() <= t.len() - i && matches_at(&t, i, &p) {
            assert(rest.subrange(0, p@.len() as int) =~= t@.subrange(i as int, i + p@.len()));
            assert(rest.skip(p@.len() as int) =~= t@.skip(i + p@.len()));
            let mut k: usize = 0;
            while k < w.len()
                invariant
                    k <= w.len(),
                    out@ == before + w@.take(k as int),
                decreases w.len() - k,
            {
                out.push(w[k]);
                assert(w@.take(k + 1) =~= w@.take(k as int).push(w@[k as int]));
                k = k + 1;
            }
            assert(w@.take(k as int) =~= w@);
            assert(out@ + replaced(t@.skip(i + p@.len()), p@, w@) =~= before + replaced(
                rest,
                p@,
                w@,
            ));
            i = i + p.len();
        } else {
            out.push(t[i]);
            proof {
                let tail = rest.skip(1);
                assert(tail =~= t@.skip(i + 1));
                if p@.len() > 0 && rest.len() >= p@.len() {
                    assert(rest.subrange(0, p@.len() as int) =~= t@.subrange(
                        i as int,
                        i + p@.len(),
                    ));
                } else {
                    assert(replaced(tail, p@, w@) == tail);
                    assert(seq![rest[0]] + tail =~= rest);
                }
                assert(replaced(rest, p@, w@) =~= seq![rest[0]] + replaced(tail, p@, w@));
                assert(out@ + replaced(tail, p@, w@) =~= before + replaced(rest, p@, w@));
            }
            i = i + 1;
        }
    }
    assert(t@.skip(i as int) =~= Seq::<char>::empty());
    assert(out@ =~= out@ + replaced(t@.skip(i as int), p@, w@));
    string_of(&out)
}

/// The number of positions of `text` at which `pattern` stands. An empty
/// pattern stands nowhere.
pub open spec fn occurrences(text: Seq<char>, pattern: Seq<char>) -> nat
    decreases text.len(),
{
    if pattern.len() == 0 || text.len() < pattern.len() {
        0
    } else if occurs_at(text, 0, pattern) {
        1 + occurrences(text.skip(1), pattern)
    } else {
        occurrences(text.skip(1), pattern)
    }
}

/// Whether the character `c` stands nowhere in `text`.
pub open spec fn lacks(text: Seq<char>, c: char) -> bool {
    forall|k: int| 0 <= k < text.len() ==> text[k] != c
}

/// A pattern stands at no position of a piece of text where its character
/// number `m` would meet another character: if the character `pattern[m]`
/// stands at none of the positions `m` to `a.len() + m` of `a + b`, the
/// pattern stands in `a + b` as often as in `b`.
pub proof fn lemma_occurrences_after(a: Seq<char>, b: Seq<char>, pattern: Seq<char>, m: int)
    requires
        0 <= m < pattern.len(),
        forall|k: int| m <= k < a.len() + m && k < (a + b).len() ==> (a + b)[k] != pattern[m],
    ensures
        occurrences(a + b, pattern) == occurrences(b, pattern),
    decreases a.len(),
{
    let text = a + b;
    if a.len() == 0 {
        assert(text =~= b);
    } else if text.len() >= pattern.len() {
        assert(!occurs_at(text, 0, pattern)) by {
            if occurs_at(text, 0, pattern) {
                assert(text.subrange(0, pattern.len() as int)[m] == pattern[m]);
                assert(text[m] != pattern[m]);
            }
        }
        assert(text.skip(1) =~= a.skip(1) + b);
        assert forall|k: int|
            m <= k < a.skip(1).len() + m && k < (a.skip(1) + b).len() implies (a.skip(1) + b)[k]
            != pattern[m] by {
            assert((a.skip(1) + b)[k] == text[k + 1]);
        }
        lemma_occurrences_after(a.skip(1), b, pattern, m);
    }
}

/// A pattern that stands at the head of a text is counted once there, and
/// then as often as it stands in the text behind its first character.
pub proof fn lemma_occurrences_at_head(pattern: Seq<char>, b: Seq<char>)
    requires
        pattern.len() > 0,
    ensures
        occurrences(pattern + b, pattern) == 1 + occurrences(pattern.skip(1) + b, pattern),
{
    let text = pattern + b;
    assert(text.subrange(0, pattern.len() as int) =~= pattern);
    assert(text.skip(1) =~= pattern.skip(1) + b);
}

/// Replacement passes over a piece of text that lacks the first character of
/// the pattern and leaves it as it is.
pub proof fn lemma_replaced_after(a: Seq<char>, b: Seq<char>, pattern: Seq<char>, with: Seq<char>)
    requires
        pattern.len() > 0,
        lacks(a, pattern[0]),
    ensures
        replaced(a + b, pattern, with) == a + replaced(b, pattern, with),
    decreases a.len(),
{
    let text = a + b;
    if a.len() == 0 {
        assert(text =~= b);
        assert(a + replaced(b, pattern, with) =~= replaced(b, pattern, with));
    } else if text.len() < pattern.len() {
        assert(replaced(b, pattern, with) == b);
    } else {
        assert(!occurs_at(text, 0, pattern)) by {
            if occurs_at(text, 0, pattern) {
                assert(text.subrange(0, pattern.len() as int)[0] == pattern[0]);
                assert(a[0] != pattern[0]);
            }
        }
        assert(text.skip(1) =~= a.skip(1) + b);
        assert(lacks(a.skip(1), pattern[0])) by {
            assert forall|k: int| 0 <= k < a.skip(1).len() implies a.skip(1)[k] != pattern[0] by {
                assert(a.skip(1)[k] == a[k + 1]);
            }
        }
        lemma_replaced_after(a.skip(1), b, pattern, with);
        assert(seq![text[0]] + (a.skip(1) + replaced(b, pattern, with)) =~= a + replaced(
            b,
            pattern,
            with,
        ));
    }
}

/// Replacement passes over one character that the text behind it does not
/// continue to the pattern.
pub proof fn lemma_replaced_after_char(
    c: char,
    b: Seq<char>,
    pattern: Seq<char>,
    with: Seq<char>,
)
    requires
        pattern.len() >= 2,
        b.len() > 0,
        b[0] != pattern[1],
    ensures
        replaced(seq![c] + b, pattern, with) == seq![c] + replaced(b, pattern, with),
{
    let text = seq![c] + b;
    assert(text.skip(1) =~= b);
    if text.len() < pattern.len() {
        assert(replaced(b, pattern, with) == b);
    } else {
        assert(!occurs_at(text, 0, pattern)) by {
            if occurs_at(text, 0, pattern) {
                assert(text.subrange(0, pattern.len() as int)[1] == pattern[1]);
            }
        }
    }
}

/// The pattern at the head of a text is replaced, and replacement goes on
/// behind it.
pub proof fn lemma_replaced_at_head(pattern: Seq<char>, b: Seq<char>, with: Seq<char>)
    requires
        pattern.len() > 0,
    ensures
        replaced(pattern + b, pattern, with) == with + replaced(b, pattern, with),
{
    let text = pattern + b;
    assert(text.subrange(0, pattern.len() as int) =~= pattern);
    assert(text.skip(pattern.len() as int) =~= b);
}

/// A pattern that lacks the character `sep` stands on one side of a `sep` in
/// the text or on the other: it is counted in the text before it and in the
/// text behind it, and nowhere else.
pub proof fn lemma_occurrences_split(a: Seq<char>, sep: char, b: Seq<char>, pattern: Seq<char>)
    requires
        lacks(pattern, sep),
    ensures
        occurrences(a + seq![sep] + b, pattern) == occurrences(a, pattern) + occurrences(
            b,
            pattern,
        ),
    decreases a.len(),
{
    let text = a + seq![sep] + b;
    if pattern.len() > 0 && text.len() >= pattern.len() {
        assert(text.skip(1) =~= if a.len() == 0 {
            b
        } else {
            a.skip(1) + seq![sep] + b
        });
        if a.len() < pattern.len() {
            assert(!occurs_at(text, 0, pattern)) by {
                if occurs_at(text, 0, pattern) {
                    assert(text.subrange(0, pattern.len() as int)[a.len() as int] == pattern[a.len() as int]);
                }
            }
        } else {
            assert(text.subrange(0, pattern.len() as int) =~= a.subrange(0, pattern.len() as int));
        }
        if a.len() > 0 {
            lemma_occurrences_split(a.skip(1), sep, b, pattern);
        }
    }
}

} // verus!
