//! Splitting text into lines, trimming, and word prefixes: the line-level
//! vocabulary the runtime scanners are written in.

use vstd::prelude::*;
use crate::text::{is_whitespace, is_word_char, slice_chars, whitespace, word_char};

verus! {

/// A line's content without the carriage return of a `\r\n` ending.
pub open spec fn strip_cr(l: Seq<char>) -> Seq<char> {
    if l.len() > 0 && l.last() == '\r' {
        l.drop_last()
    } else {
        l
    }
}

/// The finished lines of `s` and the unfinished one after the last `\n`.
pub open spec fn line_scan(s: Seq<char>) -> (Seq<Seq<char>>, Seq<char>)
    decreases s.len(),
{
    if s.len() == 0 {
        (seq![], seq![])
    } else {
        let (done, cur) = line_scan(s.drop_last());
        if s.last() == '\n' {
            (done.push(strip_cr(cur)), seq![])
        } else {
            (done, cur.push(s.last()))
        }
    }
}

/// The lines of `s`, as `str::lines` gives them: split at `\n` (dropping a
/// `\r` before it), with no empty line after a final line ending.
pub open spec fn lines(s: Seq<char>) -> Seq<Seq<char>> {
    let (done, cur) = line_scan(s);
    if cur.len() > 0 {
        done.push(cur)
    } else {
        done
    }
}

/// The views of a sequence of character vectors.
pub open spec fn views(v: Seq<Vec<char>>) -> Seq<Seq<char>> {
    v.map_values(|x: Vec<char>| x@)
}

/// The lines of a character sequence.
pub fn split_lines(s: &[char]) -> (r: Vec<Vec<char>>)
    ensures
        views(r@) == lines(s@),
{
    let mut done: Vec<Vec<char>> = Vec::new();
    let mut cur: Vec<char> = Vec::new();
    let mut i: usize = 0;
    while i < s.len()
        invariant
            i <= s@.len(),
            line_scan(s@.take(i as int)) == (views(done@), cur@),
        decreases s@.len() - i,
    {
        assert(s@.take(i + 1).drop_last() =~= s@.take(i as int));
        let c = s[i];
        let ghost before = views(done@);
        let ghost cur0 = cur@;
        if c == '\n' {
            if cur.len() > 0 && cur[cur.len() - 1] == '\r' {
                cur.pop();
                assert(cur@ =~= cur0.drop_last());
            }
            assert(cur@ == strip_cr(cur0));
            let line = cur;
            done.push(line);
            cur = Vec::new();
            assert(views(done@) =~= before.push(strip_cr(cur0)));
        } else {
            cur.push(c);
        }
        i += 1;
    }
    assert(s@.take(s@.len() as int) =~= s@);
    if cur.len() > 0 {
        let ghost before = views(done@);
        let ghost last = cur@;
        done.push(cur);
        assert(views(done@) =~= before.push(last));
    }
    done
}

/// How many leading characters of `l` are whitespace.
pub open spec fn lead(l: Seq<char>) -> nat
    decreases l.len(),
{
    if l.len() > 0 && whitespace(l[0]) {
        1 + lead(l.drop_first())
    } else {
        0
    }
}

/// `l` with leading whitespace removed (`str::trim_start`).
pub open spec fn trim_start(l: Seq<char>) -> Seq<char> {
    l.skip(lead(l) as int)
}

proof fn lemma_lead_skip(l: Seq<char>, k: int)
    requires
        0 <= k <= l.len(),
        forall|j: int| 0 <= j < k ==> whitespace(l[j]),
    ensures
        lead(l) == k + lead(l.skip(k)),
    decreases k,
{
    if k > 0 {
        assert(whitespace(l[0]));
        lemma_lead_skip(l.drop_first(), k - 1);
        assert(l.drop_first().skip(k - 1) =~= l.skip(k));
    } else {
        assert(l.skip(0) =~= l);
    }
}

/// Where the leading whitespace of `l` ends.
pub fn lead_len(l: &[char]) -> (r: usize)
    ensures
        r == lead(l@),
        r <= l@.len(),
{
    let mut k: usize = 0;
    while k < l.len() && is_whitespace(l[k])
        invariant
            k <= l@.len(),
            forall|j: int| 0 <= j < k ==> whitespace(l@[j]),
        decreases l@.len() - k,
    {
        k += 1;
    }
    proof {
        lemma_lead_skip(l@, k as int);
        if k < l@.len() {
            assert(l@.skip(k as int)[0] == l@[k as int]);
        }
    }
    k
}

/// `l` with leading whitespace removed.
pub fn trimmed_start(l: &[char]) -> (r: Vec<char>)
    ensures
        r@ == trim_start(l@),
{
    let k = lead_len(l);
    slice_chars(l, k, l.len())
}

/// How many leading characters of `l` are word characters.
pub open spec fn word_len(l: Seq<char>) -> nat
    decreases l.len(),
{
    if l.len() > 0 && word_char(l[0]) {
        1 + word_len(l.drop_first())
    } else {
        0
    }
}

proof fn lemma_word_len_skip(l: Seq<char>, k: int)
    requires
        0 <= k <= l.len(),
        forall|j: int| 0 <= j < k ==> word_char(l[j]),
    ensures
        word_len(l) == k + word_len(l.skip(k)),
    decreases k,
{
    if k > 0 {
        assert(word_char(l[0]));
        lemma_word_len_skip(l.drop_first(), k - 1);
        assert(l.drop_first().skip(k - 1) =~= l.skip(k));
    } else {
        assert(l.skip(0) =~= l);
    }
}

/// The leading identifier characters of `l`.
pub fn word_prefix(l: &[char]) -> (r: Vec<char>)
    ensures
        r@ == l@.take(word_len(l@) as int),
{
    let mut k: usize = 0;
    while k < l.len() && is_word_char(l[k])
        invariant
            k <= l@.len(),
            forall|j: int| 0 <= j < k ==> word_char(l@[j]),
        decreases l@.len() - k,
    {
        k += 1;
    }
    proof {
        lemma_word_len_skip(l@, k as int);
        if k < l@.len() {
            assert(l@.skip(k as int)[0] == l@[k as int]);
        }
    }
    slice_chars(l, 0, k)
}

} // verus!
