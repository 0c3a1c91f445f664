//! Character-level text helpers shared by the scanners.
//!
//! Everything here works on `char` sequences: a `str`'s view is its sequence
//! of Unicode scalar values, and so is every spec in this crate.

use vstd::prelude::*;

verus! {

/// An ASCII letter or digit.
pub open spec fn ascii_alnum(c: char) -> bool {
    ('a' <= c && c <= 'z') || ('A' <= c && c <= 'Z') || ('0' <= c && c <= '9')
}

/// An ASCII digit.
pub open spec fn ascii_digit(c: char) -> bool {
    '0' <= c && c <= '9'
}

/// ASCII whitespace as Unicode's `White_Space` property has it: tab, line
/// feed, vertical tab, form feed, carriage return and space.
pub open spec fn ascii_space(c: char) -> bool {
    c == ' ' || c == '\t' || c == '\n' || c == '\r' || c == '\x0B' || c == '\x0C'
}

/// `char::is_alphanumeric`: Unicode `Alphabetic` or `Numeric`.
pub uninterp spec fn alphanumeric(c: char) -> bool;

/// `char::is_alphabetic`: Unicode `Alphabetic`.
pub uninterp spec fn alphabetic(c: char) -> bool;

/// `char::is_whitespace`: Unicode `White_Space`.
pub uninterp spec fn whitespace(c: char) -> bool;

/// `char::is_alphanumeric` from std. Claimed: the result is a fixed function of
/// the character, and on ASCII it holds exactly for letters and digits, as the
/// Unicode property tables behind it give.
#[verifier::external_body]
pub fn is_alphanumeric(c: char) -> (r: bool)
    ensures
        r == alphanumeric(c),
        (c as u32) < 128 ==> (r <==> ascii_alnum(c)),
{
    c.is_alphanumeric()
}

/// `char::is_alphabetic` from std. Claimed: a fixed function of the character,
/// which on ASCII holds exactly for the letters, and which implies
/// `is_alphanumeric` (documented as alphabetic or numeric).
#[verifier::external_body]
pub fn is_alphabetic(c: char) -> (r: bool)
    ensures
        r == alphabetic(c),
        r ==> alphanumeric(c),
        (c as u32) < 128 ==> (r <==> (('a' <= c && c <= 'z') || ('A' <= c && c <= 'Z'))),
{
    c.is_alphabetic()
}

/// `char::is_whitespace` from std. Claimed: a fixed function of the
/// character, which on ASCII holds exactly for the six `White_Space`
/// characters.
#[verifier::external_body]
pub fn is_whitespace(c: char) -> (r: bool)
    ensures
        r == whitespace(c),
        (c as u32) < 128 ==> (r <==> ascii_space(c)),
{
    c.is_whitespace()
}

/// `String::push` from std. Claimed: the character is appended.
#[verifier::external_body]
pub fn push_char(s: &mut String, c: char)
    ensures
        final(s)@ == old(s)@.push(c),
{
    s.push(c)
}

/// A character that can continue an identifier: alphanumeric, `_` or `$`.
pub open spec fn word_char(c: char) -> bool {
    alphanumeric(c) || c == '_' || c == '$'
}

/// Exec form of [`word_char`].
pub fn is_word_char(c: char) -> (r: bool)
    ensures
        r == word_char(c),
{
    c == '_' || c == '$' || is_alphanumeric(c)
}

/// The characters of a string.
pub fn chars_of(s: &str) -> (r: Vec<char>)
    ensures
        r@ == s@,
{
    let mut r: Vec<char> = Vec::new();
    let mut it = s.chars();
    proof {
        broadcast use vstd::string::group_string_axioms;
    }
    loop
        invariant
            r@ + vstd::std_specs::iter::IteratorSpec::remaining(&it) == s@,
            vstd::std_specs::iter::IteratorSpec::decrease(&it) is Some,
            vstd::std_specs::iter::IteratorSpec::obeys_prophetic_iter_laws(&it),
        ensures
            r@ == s@,
        decreases vstd::std_specs::iter::IteratorSpec::decrease(&it)->0,
    {
        let ghost before = vstd::std_specs::iter::IteratorSpec::remaining(&it);
        match it.next() {
            Some(c) => {
                r.push(c);
                assert(r@ + vstd::std_specs::iter::IteratorSpec::remaining(&it) =~= s@);
            },
            None => {
                assert(r@ =~= s@);
                break;
            },
        }
    }
    r
}

/// A string made of the given characters.
pub fn string_of(v: &[char]) -> (r: String)
    ensures
        r@ == v@,
{
    let mut r = String::new();
    let mut i: usize = 0;
    while i < v.len()
        invariant
            i <= v@.len(),
            r@ == v@.take(i as int),
        decreases v@.len() - i,
    {
        push_char(&mut r, v[i]);
        assert(v@.take(i + 1) =~= v@.take(i as int).push(v@[i as int]));
        i += 1;
    }
    assert(v@.take(v@.len() as int) =~= v@);
    r
}

/// Append a string slice.
pub fn push_str(s: &mut String, t: &str)
    ensures
        final(s)@ == old(s)@ + t@,
{
    s.append(t);
}

/// Append a character sequence.
pub fn push_chars(s: &mut String, t: &[char])
    ensures
        final(s)@ == old(s)@ + t@,
{
    let ghost start = s@;
    let mut i: usize = 0;
    while i < t.len()
        invariant
            i <= t@.len(),
            s@ == start + t@.take(i as int),
        decreases t@.len() - i,
    {
        push_char(s, t[i]);
        assert(t@.take(i + 1) =~= t@.take(i as int).push(t@[i as int]));
        i += 1;
    }
    assert(t@.take(t@.len() as int) =~= t@);
}

/// Whether two character sequences are equal.
pub fn chars_eq(a: &[char], b: &[char]) -> (r: bool)
    ensures
        r == (a@ == b@),
{
    if a.len() != b.len() {
        return false;
    }
    let mut i: usize = 0;
    while i < a.len()
        invariant
            a@.len() == b@.len(),
            i <= a@.len(),
            forall|k: int| 0 <= k < i ==> a@[k] == b@[k],
        decreases a@.len() - i,
    {
        if a[i] != b[i] {
            return false;
        }
        i += 1;
    }
    assert(a@ =~= b@);
    true
}

/// Whether two strings are equal.
pub fn str_eq(a: &str, b: &str) -> (r: bool)
    ensures
        r == (a@ == b@),
{
    let x = chars_of(a);
    let y = chars_of(b);
    chars_eq(x.as_slice(), y.as_slice())
}

/// Whether `s` has `p` at position `at`.
pub open spec fn has_at(s: Seq<char>, at: int, p: Seq<char>) -> bool {
    0 <= at && at + p.len() <= s.len() && s.subrange(at, at + p.len()) == p
}

/// Whether `s` starts with `p`.
pub open spec fn starts_with(s: Seq<char>, p: Seq<char>) -> bool {
    has_at(s, 0, p)
}

/// Exec form of [`has_at`].
pub fn chars_at(s: &[char], at: usize, p: &[char]) -> (r: bool)
    ensures
        r == has_at(s@, at as int, p@),
{
    if at > s.len() || p.len() > s.len() - at {
        return false;
    }
    let mut i: usize = 0;
    while i < p.len()
        invariant
            at <= s@.len(),
            at + p@.len() <= s@.len(),
            at + p.len() <= s.len(),
            i <= p@.len(),
            forall|k: int| 0 <= k < i ==> s@[at + k] == p@[k],
        decreases p@.len() - i,
    {
        if s[at + i] != p[i] {
            assert(s@.subrange(at as int, at + p@.len())[i as int] != p@[i as int]);
            return false;
        }
        i += 1;
    }
    assert(s@.subrange(at as int, at + p@.len()) =~= p@);
    true
}

/// Whether `s` has the string `p` at position `at`.
pub fn str_at(s: &[char], at: usize, p: &str) -> (r: bool)
    ensures
        r == has_at(s@, at as int, p@),
{
    let pc = chars_of(p);
    chars_at(s, at, pc.as_slice())
}

/// A copy of `s[from..to]`.
pub fn slice_chars(s: &[char], from: usize, to: usize) -> (r: Vec<char>)
    requires
        from <= to <= s@.len(),
    ensures
        r@ == s@.subrange(from as int, to as int),
{
    let mut r: Vec<char> = Vec::new();
    let mut i = from;
    while i < to
        invariant
            from <= i <= to <= s@.len(),
            r@ == s@.subrange(from as int, i as int),
        decreases to - i,
    {
        r.push(s[i]);
        assert(s@.subrange(from as int, i + 1) =~= s@.subrange(from as int, i as int).push(s@[i as int]));
        i += 1;
    }
    r
}


/// The decimal digits of `n`, most significant first, with no leading zeros
/// (`"0"` for zero).
pub open spec fn decimal(n: nat) -> Seq<char>
    decreases n,
{
    if n < 10 {
        seq![digit_char(n)]
    } else {
        decimal(n / 10).push(digit_char(n % 10))
    }
}

/// The character for a digit below ten.
pub open spec fn digit_char(d: nat) -> char {
    if d == 0 { '0' }
    else if d == 1 { '1' }
    else if d == 2 { '2' }
    else if d == 3 { '3' }
    else if d == 4 { '4' }
    else if d == 5 { '5' }
    else if d == 6 { '6' }
    else if d == 7 { '7' }
    else if d == 8 { '8' }
    else { '9' }
}

fn digit(d: u64) -> (r: char)
    requires
        d < 10,
    ensures
        r == digit_char(d as nat),
{
    if d == 0 { '0' }
    else if d == 1 { '1' }
    else if d == 2 { '2' }
    else if d == 3 { '3' }
    else if d == 4 { '4' }
    else if d == 5 { '5' }
    else if d == 6 { '6' }
    else if d == 7 { '7' }
    else if d == 8 { '8' }
    else { '9' }
}

/// The decimal digits of `n`, as `to_string` writes them.
pub fn decimal_chars(n: u64) -> (r: Vec<char>)
    ensures
        r@ == decimal(n as nat),
    decreases n,
{
    if n < 10 {
        let mut r: Vec<char> = Vec::new();
        r.push(digit(n));
        r
    } else {
        let mut r = decimal_chars(n / 10);
        r.push(digit(n % 10));
        r
    }
}

/// `n` in decimal.
pub fn decimal_string(n: u64) -> (r: String)
    ensures
        r@ == decimal(n as nat),
{
    let c = decimal_chars(n);
    string_of(c.as_slice())
}

fn wide_digit(d: u128) -> (r: char)
    requires
        d < 10,
    ensures
        r == digit_char(d as nat),
{
    if d == 0 { '0' }
    else if d == 1 { '1' }
    else if d == 2 { '2' }
    else if d == 3 { '3' }
    else if d == 4 { '4' }
    else if d == 5 { '5' }
    else if d == 6 { '6' }
    else if d == 7 { '7' }
    else if d == 8 { '8' }
    else { '9' }
}

fn wide_chars(n: u128) -> (r: Vec<char>)
    ensures
        r@ == decimal(n as nat),
    decreases n,
{
    if n < 10 {
        let mut r: Vec<char> = Vec::new();
        r.push(wide_digit(n));
        r
    } else {
        let mut r = wide_chars(n / 10);
        r.push(wide_digit(n % 10));
        r
    }
}

/// `n`, which may exceed `u64`, in decimal.
pub fn wide_decimal_string(n: u128) -> (r: String)
    ensures
        r@ == decimal(n as nat),
{
    let c = wide_chars(n);
    string_of(c.as_slice())
}

/// `n`, possibly negative, in decimal.
pub open spec fn signed_decimal(n: int) -> Seq<char> {
    if n < 0 {
        seq!['-'] + decimal((-n) as nat)
    } else {
        decimal(n as nat)
    }
}

/// `n` in decimal, with a `-` when it is negative.
pub fn signed_decimal_string(n: i64) -> (r: String)
    ensures
        r@ == signed_decimal(n as int),
{
    if n < 0 {
        let m: u64 = if n == i64::MIN { 9223372036854775808u64 } else { (-n) as u64 };
        let mut r = String::new();
        push_char(&mut r, '-');
        let d = decimal_chars(m);
        push_chars(&mut r, d.as_slice());
        r
    } else {
        decimal_string(n as u64)
    }
}

/// The parts joined with `sep` between each two.
pub open spec fn joined(parts: Seq<Seq<char>>, sep: Seq<char>) -> Seq<char>
    decreases parts.len(),
{
    if parts.len() == 0 {
        seq![]
    } else if parts.len() == 1 {
        parts[0]
    } else {
        joined(parts.drop_last(), sep) + sep + parts.last()
    }
}

/// The views of a list of string slices.
pub open spec fn str_views(v: Seq<&str>) -> Seq<Seq<char>> {
    v.map_values(|s: &str| s@)
}

/// The views of a list of strings.
pub open spec fn string_views(v: Seq<String>) -> Seq<Seq<char>> {
    v.map_values(|s: String| s@)
}

/// Append the parts, with `sep` between each two.
pub fn push_joined(out: &mut String, parts: &[&str], sep: &str)
    ensures
        final(out)@ == old(out)@ + joined(str_views(parts@), sep@),
{
    let ghost start = out@;
    let ghost ps = str_views(parts@);
    let mut i: usize = 0;
    while i < parts.len()
        invariant
            ps == str_views(parts@),
            i <= parts@.len(),
            out@ == start + joined(ps.take(i as int), sep@),
        decreases parts@.len() - i,
    {
        assert(ps.take(i + 1).drop_last() =~= ps.take(i as int));
        assert(ps.take(i + 1).last() == parts@[i as int]@);
        if i > 0 {
            push_str(out, sep);
        }
        push_str(out, parts[i]);
        proof {
            if i == 0 {
                assert(ps.take(1) =~= seq![parts@[0]@]);
            }
        }
        i += 1;
    }
    assert(ps.take(parts@.len() as int) =~= ps);
}

/// Append the strings, with `sep` between each two.
pub fn push_joined_strings(out: &mut String, parts: &[String], sep: &str)
    ensures
        final(out)@ == old(out)@ + joined(string_views(parts@), sep@),
{
    let ghost start = out@;
    let ghost ps = string_views(parts@);
    let mut i: usize = 0;
    while i < parts.len()
        invariant
            ps == string_views(parts@),
            i <= parts@.len(),
            out@ == start + joined(ps.take(i as int), sep@),
        decreases parts@.len() - i,
    {
        assert(ps.take(i + 1).drop_last() =~= ps.take(i as int));
        assert(ps.take(i + 1).last() == parts@[i as int]@);
        if i > 0 {
            push_str(out, sep);
        }
        push_str(out, parts[i].as_str());
        proof {
            if i == 0 {
                assert(ps.take(1) =~= seq![parts@[0]@]);
            }
        }
        i += 1;
    }
    assert(ps.take(parts@.len() as int) =~= ps);
}

/// Code-point order on character sequences, as `String`'s `Ord` has it.
pub open spec fn lex_lt(a: Seq<char>, b: Seq<char>) -> bool
    decreases a.len(),
{
    if a.len() == 0 {
        b.len() > 0
    } else if b.len() == 0 {
        false
    } else if a[0] != b[0] {
        (a[0] as int) < (b[0] as int)
    } else {
        lex_lt(a.drop_first(), b.drop_first())
    }
}

pub proof fn lemma_lex_total(a: Seq<char>, b: Seq<char>)
    ensures
        a == b || lex_lt(a, b) || lex_lt(b, a),
        !(lex_lt(a, b) && lex_lt(b, a)),
        !lex_lt(a, a),
    decreases a.len(),
{
    if a.len() > 0 {
        lemma_lex_total(a.drop_first(), a.drop_first());
    }
    if a.len() == 0 {
        if b.len() == 0 {
            assert(a =~= b);
        }
    } else if b.len() == 0 {
    } else if a[0] != b[0] {
        assert((a[0] as int) != (b[0] as int));
    } else {
        lemma_lex_total(a.drop_first(), b.drop_first());
        if a.drop_first() == b.drop_first() {
            assert(a =~= seq![a[0]] + a.drop_first());
            assert(b =~= seq![b[0]] + b.drop_first());
        }
    }
}

pub proof fn lemma_lex_trans(a: Seq<char>, b: Seq<char>, c: Seq<char>)
    requires
        lex_lt(a, b),
        lex_lt(b, c),
    ensures
        lex_lt(a, c),
    decreases a.len(),
{
    if a.len() > 0 && b.len() > 0 && c.len() > 0 && a[0] == b[0] && b[0] == c[0] {
        lemma_lex_trans(a.drop_first(), b.drop_first(), c.drop_first());
    }
}

pub fn lex_less(a: &[char], b: &[char]) -> (r: bool)
    ensures
        r == lex_lt(a@, b@),
{
    let mut i: usize = 0;
    assert(a@.skip(0) =~= a@);
    assert(b@.skip(0) =~= b@);
    while i < a.len() && i < b.len() && a[i] == b[i]
        invariant
            i <= a@.len(),
            i <= b@.len(),
            lex_lt(a@, b@) == lex_lt(a@.skip(i as int), b@.skip(i as int)),
        decreases a@.len() - i,
    {
        assert(a@.skip(i as int).drop_first() =~= a@.skip(i + 1));
        assert(b@.skip(i as int).drop_first() =~= b@.skip(i + 1));
        i += 1;
    }
    if i == a.len() {
        i < b.len()
    } else if i == b.len() {
        false
    } else {
        assert(a@.skip(i as int)[0] == a@[i as int]);
        assert(b@.skip(i as int)[0] == b@[i as int]);
        a[i] < b[i]
    }
}

/// Whether a list of strings is strictly increasing in code-point order.
pub open spec fn strictly_sorted(v: Seq<Seq<char>>) -> bool {
    forall|i: int, j: int| 0 <= i < j < v.len() ==> lex_lt(#[trigger] v[i], #[trigger] v[j])
}


/// Insert `x` into a strictly sorted list of names, unless it is there
/// already: the list stays a sorted set.
pub fn insert_name(v: &mut Vec<&'static str>, x: &'static str)
    requires
        strictly_sorted(str_views(old(v)@)),
    ensures
        strictly_sorted(str_views(final(v)@)),
        str_views(final(v)@).to_set() == str_views(old(v)@).to_set().insert(x@),
{
    let ghost v0 = str_views(v@);
    let xc = chars_of(x);
    let mut p: usize = 0;
    while p < v.len() && lex_less(chars_of(v[p]).as_slice(), xc.as_slice())
        invariant
            v0 == str_views(v@),
            xc@ == x@,
            p <= v@.len(),
            forall|j: int| 0 <= j < p ==> lex_lt(#[trigger] v0[j], x@),
        decreases v@.len() - p,
    {
        p += 1;
    }
    if p < v.len() && str_eq(v[p], x) {
        proof {
            assert(v0.contains(x@)) by { assert(v0[p as int] == x@); }
            assert(v0.to_set().insert(x@) =~= v0.to_set());
        }
        return;
    }
    proof {
        if p < v0.len() {
            lemma_lex_total(v0[p as int], x@);
        }
    }
    let ghost xv = x@;
    v.insert(p, x);
    proof {
        let v1 = str_views(v@);
        assert(v1 =~= v0.insert(p as int, xv));
        assert forall|i: int, j: int| 0 <= i < j < v1.len() implies lex_lt(#[trigger] v1[i], #[trigger] v1[j]) by {
            if j < p {
                assert(v1[i] == v0[i] && v1[j] == v0[j]);
            } else if j == p {
                assert(v1[i] == v0[i]);
            } else if i == p {
                assert(v1[j] == v0[j - 1]);
                if j - 1 > p {
                    assert(lex_lt(v0[p as int], v0[j - 1]));
                    lemma_lex_trans(xv, v0[p as int], v0[j - 1]);
                }
            } else if i < p {
                assert(v1[i] == v0[i] && v1[j] == v0[j - 1]);
                if j - 1 >= p {
                    assert(lex_lt(v0[i], xv));
                }
                if i < j - 1 {
                } else {
                    assert(false);
                }
            } else {
                assert(v1[i] == v0[i - 1] && v1[j] == v0[j - 1]);
            }
        }
        assert forall|y: Seq<char>| v1.to_set().contains(y) <==> v0.to_set().insert(xv).contains(y) by {
            if v1.contains(y) {
                let k = choose|k: int| 0 <= k < v1.len() && v1[k] == y;
                if k < p { assert(v0[k] == y); } else if k > p { assert(v0[k - 1] == y); }
            }
            if v0.contains(y) {
                let k = choose|k: int| 0 <= k < v0.len() && v0[k] == y;
                if k < p { assert(v1[k] == y); } else { assert(v1[k + 1] == y); }
            }
            if y == xv { assert(v1[p as int] == y); }
        }
        assert(v1.to_set() =~= v0.to_set().insert(xv));
    }
}


/// Whether `p` occurs anywhere in `s`.
pub open spec fn occurs(s: Seq<char>, p: Seq<char>) -> bool {
    exists|i: int| has_at(s, i, p)
}

/// Whether the string `p` occurs anywhere in `s`.
pub fn find_str(s: &[char], p: &str) -> (r: bool)
    ensures
        r == occurs(s@, p@),
{
    let pc = chars_of(p);
    let mut i: usize = 0;
    while i < s.len()
        invariant
            pc@ == p@,
            i <= s@.len(),
            forall|k: int| 0 <= k < i ==> !has_at(s@, k, p@),
        decreases s@.len() - i,
    {
        if chars_at(s, i, pc.as_slice()) {
            return true;
        }
        i += 1;
    }
    if chars_at(s, i, pc.as_slice()) {
        return true;
    }
    proof {
        assert forall|k: int| !has_at(s@, k, p@) by {
            if has_at(s@, k, p@) {
                assert(k <= s@.len());
            }
        }
    }
    false
}

/// A piece of text when `b` holds, else nothing.
pub open spec fn text_when(b: bool, t: Seq<char>) -> Seq<char> {
    if b {
        t
    } else {
        seq![]
    }
}

/// Append `t` when `b` holds.
pub fn push_str_when(out: &mut String, b: bool, t: &str)
    ensures
        final(out)@ == old(out)@ + text_when(b, t@),
{
    if b {
        push_str(out, t);
    } else {
        assert(old(out)@ + text_when(b, t@) =~= old(out)@);
    }
}

/// Whether `n` is one of `list`.
pub fn str_in(n: &str, list: &[&str]) -> (r: bool)
    ensures
        r == str_views(list@).contains(n@),
{
    let mut i: usize = 0;
    while i < list.len()
        invariant
            i <= list@.len(),
            forall|k: int| 0 <= k < i ==> list@[k]@ != n@,
        decreases list@.len() - i,
    {
        if str_eq(list[i], n) {
            assert(str_views(list@)[i as int] == n@);
            return true;
        }
        i += 1;
    }
    proof {
        if str_views(list@).contains(n@) {
            let k = choose|k: int| 0 <= k < str_views(list@).len() && str_views(list@)[k] == n@;
            assert(list@[k]@ == n@);
        }
    }
    false
}


/// The pieces finished so far and the one being read, splitting at `sep`.
pub open spec fn split_scan(s: Seq<char>, sep: char) -> (Seq<Seq<char>>, Seq<char>)
    decreases s.len(),
{
    if s.len() == 0 {
        (seq![], seq![])
    } else {
        let (done, cur) = split_scan(s.drop_last(), sep);
        if s.last() == sep {
            (done.push(cur), seq![])
        } else {
            (done, cur.push(s.last()))
        }
    }
}

/// `s` split at every `sep`, as `str::split` with a character does it: there
/// is always at least one piece.
pub open spec fn split_on(s: Seq<char>, sep: char) -> Seq<Seq<char>> {
    let (done, cur) = split_scan(s, sep);
    done.push(cur)
}

/// Split a character sequence at every `sep`.
pub fn split_chars(s: &[char], sep: char) -> (r: Vec<Vec<char>>)
    ensures
        r@.map_values(|v: Vec<char>| v@) == split_on(s@, sep),
{
    let mut done: Vec<Vec<char>> = Vec::new();
    let mut cur: Vec<char> = Vec::new();
    let mut i: usize = 0;
    while i < s.len()
        invariant
            i <= s@.len(),
            split_scan(s@.take(i as int), sep) == (done@.map_values(|v: Vec<char>| v@), cur@),
        decreases s@.len() - i,
    {
        assert(s@.take(i + 1).drop_last() =~= s@.take(i as int));
        if s[i] == sep {
            let ghost o = done@.map_values(|v: Vec<char>| v@);
            done.push(cur);
            assert(done@.map_values(|v: Vec<char>| v@) =~= o.push(done@.last()@));
            cur = Vec::new();
        } else {
            cur.push(s[i]);
        }
        i += 1;
    }
    assert(s@.take(s@.len() as int) =~= s@);
    let ghost o = done@.map_values(|v: Vec<char>| v@);
    done.push(cur);
    assert(done@.map_values(|v: Vec<char>| v@) =~= o.push(done@.last()@));
    done
}

/// The middle of `s` when it starts with `pre` and then ends with `post`, as
/// `strip_prefix` followed by `strip_suffix` gives it.
pub open spec fn between(s: Seq<char>, pre: Seq<char>, post: Seq<char>) -> Option<Seq<char>> {
    if starts_with(s, pre) && s.len() - pre.len() >= post.len() && s.skip(pre.len() as int).subrange(
        s.len() - pre.len() - post.len(),
        s.len() - pre.len(),
    ) == post {
        Some(s.subrange(pre.len() as int, s.len() - post.len()))
    } else {
        None
    }
}

/// Exec form of [`between`].
pub fn between_chars(s: &[char], pre: &str, post: &str) -> (r: Option<Vec<char>>)
    ensures
        match between(s@, pre@, post@) {
            Some(m) => r matches Some(x) && x@ == m,
            None => r is None,
        },
{
    let p = chars_of(pre);
    let q = chars_of(post);
    if !chars_at(s, 0, p.as_slice()) {
        return None;
    }
    if s.len() - p.len() < q.len() {
        return None;
    }
    let end = s.len() - q.len();
    if !chars_at(s, end, q.as_slice()) {
        assert(!(s@.skip(p@.len() as int).subrange(s@.len() - p@.len() - q@.len(), s@.len() - p@.len()) == q@)) by {
            if s@.skip(p@.len() as int).subrange(s@.len() - p@.len() - q@.len(), s@.len() - p@.len()) == q@ {
                assert(s@.subrange(end as int, end + q@.len()) =~= s@.skip(p@.len() as int).subrange(
                    s@.len() - p@.len() - q@.len(),
                    s@.len() - p@.len(),
                ));
            }
        }
        return None;
    }
    assert(s@.subrange(end as int, end + q@.len()) =~= s@.skip(p@.len() as int).subrange(
        s@.len() - p@.len() - q@.len(),
        s@.len() - p@.len(),
    ));
    Some(slice_chars(s, p.len(), end))
}


/// Append the character sequences, with `sep` between each two.
pub fn push_joined_chars(out: &mut String, parts: &[Vec<char>], sep: &str)
    ensures
        final(out)@ == old(out)@ + joined(parts@.map_values(|v: Vec<char>| v@), sep@),
{
    let ghost start = out@;
    let ghost ps = parts@.map_values(|v: Vec<char>| v@);
    let mut i: usize = 0;
    while i < parts.len()
        invariant
            ps == parts@.map_values(|v: Vec<char>| v@),
            i <= parts@.len(),
            out@ == start + joined(ps.take(i as int), sep@),
        decreases parts@.len() - i,
    {
        assert(ps.take(i + 1).drop_last() =~= ps.take(i as int));
        assert(ps.take(i + 1).last() == parts@[i as int]@);
        if i > 0 {
            push_str(out, sep);
        }
        push_chars(out, parts[i].as_slice());
        proof {
            if i == 0 {
                assert(ps.take(1) =~= seq![parts@[0]@]);
            }
        }
        i += 1;
    }
    assert(ps.take(parts@.len() as int) =~= ps);
}

/// What `char::to_uppercase` yields for a character.
pub uninterp spec fn uppercase(c: char) -> Seq<char>;

/// `char::to_uppercase` from std, collected. Claimed: the result is a fixed
/// function of the character, and an ASCII lowercase letter maps to the one
/// uppercase letter 32 code points below it.
#[verifier::external_body]
pub fn to_uppercase(c: char) -> (r: Vec<char>)
    ensures
        r@ == uppercase(c),
        'a' <= c <= 'z' ==> r@ == seq![((c as int) - 32) as char],
{
    c.to_uppercase().collect()
}

/// Where `x` goes in a sorted list, searching from `p`: the first element not
/// below it.
pub open spec fn insert_point(v: Seq<Seq<char>>, x: Seq<char>, p: int) -> int
    decreases v.len() - p,
{
    if p < 0 || p >= v.len() || !lex_lt(v[p], x) {
        p
    } else {
        insert_point(v, x, p + 1)
    }
}

/// `x` inserted into a sorted list at its place, unless it is there already.
pub open spec fn sorted_insert(v: Seq<Seq<char>>, x: Seq<char>) -> Seq<Seq<char>> {
    let p = insert_point(v, x, 0);
    if 0 <= p < v.len() && v[p] == x {
        v
    } else {
        v.insert(p, x)
    }
}

/// Insert `x` into a strictly sorted list, unless it is there already.
pub fn insert_sorted(v: &mut Vec<Vec<char>>, x: Vec<char>)
    requires
        strictly_sorted(crate::lines::views(old(v)@)),
    ensures
        strictly_sorted(crate::lines::views(final(v)@)),
        crate::lines::views(final(v)@).to_set() == crate::lines::views(old(v)@).to_set().insert(x@),
        crate::lines::views(final(v)@) == sorted_insert(crate::lines::views(old(v)@), x@),
{
    let ghost v0 = crate::lines::views(v@);
    let mut p: usize = 0;
    while p < v.len() && lex_less(v[p].as_slice(), x.as_slice())
        invariant
            v0 == crate::lines::views(v@),
            p <= v@.len(),
            forall|j: int| 0 <= j < p ==> lex_lt(#[trigger] v0[j], x@),
            insert_point(v0, x@, 0) == insert_point(v0, x@, p as int),
        decreases v@.len() - p,
    {
        p += 1;
    }
    if p < v.len() && chars_eq(v[p].as_slice(), x.as_slice()) {
        proof {
            assert(v0.contains(x@)) by { assert(v0[p as int] == x@); }
            assert(v0.to_set().insert(x@) =~= v0.to_set());
        }
        return;
    }
    proof {
        if p < v0.len() {
            lemma_lex_total(v0[p as int], x@);
        }
    }
    let ghost xv = x@;
    v.insert(p, x);
    proof {
        let v1 = crate::lines::views(v@);
        assert(v1 =~= v0.insert(p as int, xv));
        assert forall|i: int, j: int| 0 <= i < j < v1.len() implies lex_lt(#[trigger] v1[i], #[trigger] v1[j]) by {
            if j < p {
                assert(v1[i] == v0[i] && v1[j] == v0[j]);
            } else if j == p {
                assert(v1[i] == v0[i]);
            } else if i == p {
                assert(v1[j] == v0[j - 1]);
                if j - 1 > p {
                    assert(lex_lt(v0[p as int], v0[j - 1]));
                    lemma_lex_trans(xv, v0[p as int], v0[j - 1]);
                }
            } else if i < p {
                assert(v1[i] == v0[i] && v1[j] == v0[j - 1]);
                if j - 1 >= p {
                    assert(lex_lt(v0[i], xv));
                }
                if i < j - 1 {
                } else {
                    assert(false);
                }
            } else {
                assert(v1[i] == v0[i - 1] && v1[j] == v0[j - 1]);
            }
        }
        assert forall|y: Seq<char>| v1.to_set().contains(y) <==> v0.to_set().insert(xv).contains(y) by {
            if v1.contains(y) {
                let k = choose|k: int| 0 <= k < v1.len() && v1[k] == y;
                if k < p { assert(v0[k] == y); } else if k > p { assert(v0[k - 1] == y); }
            }
            if v0.contains(y) {
                let k = choose|k: int| 0 <= k < v0.len() && v0[k] == y;
                if k < p { assert(v1[k] == y); } else { assert(v1[k + 1] == y); }
            }
            if y == xv { assert(v1[p as int] == y); }
        }
        assert(v1.to_set() =~= v0.to_set().insert(xv));
    }
}

} // verus!
