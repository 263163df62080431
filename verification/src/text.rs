//! Text as sequences of characters: searching, replacing, splitting and the
//! decimal form of integers.
//!
//! Every contract here is stated over `Seq<char>`, the view of `str` and
//! `String`.
use vstd::prelude::*;

verus! {

/// `pat` stands in `s` at position `i`.
pub open spec fn occurs_at(s: Seq<char>, pat: Seq<char>, i: int) -> bool {
    &&& 0 <= i
    &&& i + pat.len() <= s.len()
    &&& s.subrange(i, i + pat.len()) == pat
}

/// `pat` stands somewhere in `s`. The empty pattern stands in every text.
pub open spec fn contains_sub(s: Seq<char>, pat: Seq<char>) -> bool {
    exists|i: int| occurs_at(s, pat, i)
}

/// `s` with every occurrence of `pat` replaced by `to`, found from the left
/// and never overlapping. What was put in is not searched again.
///
/// An empty pattern leaves the text as it is.
pub open spec fn replace_all(s: Seq<char>, pat: Seq<char>, to: Seq<char>) -> Seq<char>
    decreases s.len(),
{
    if pat.len() == 0 || s.len() < pat.len() {
        s
    } else if occurs_at(s, pat, 0) {
        to + replace_all(s.skip(pat.len() as int), pat, to)
    } else {
        s.take(1) + replace_all(s.skip(1), pat, to)
    }
}

/// The position of the first `c` in `s`, or the length of `s` if there is none.
pub open spec fn first_index(s: Seq<char>, c: char) -> int
    decreases s.len(),
{
    if s.len() == 0 || s[0] == c {
        0
    } else {
        1 + first_index(s.skip(1), c)
    }
}

/// The pieces of `s` between occurrences of `sep`. A text with `n`
/// separators has `n + 1` pieces, some of which may be empty.
pub open spec fn split_on(s: Seq<char>, sep: char) -> Seq<Seq<char>>
    decreases s.len(),
{
    let i = first_index(s, sep);
    if 0 <= i < s.len() {
        seq![s.take(i)] + split_on(s.skip(i + 1), sep)
    } else {
        seq![s]
    }
}

/// The character for one decimal digit.
pub open spec fn digit_char(d: int) -> char {
    if d == 0 {
        '0'
    } else if d == 1 {
        '1'
    } else if d == 2 {
        '2'
    } else if d == 3 {
        '3'
    } else if d == 4 {
        '4'
    } else if d == 5 {
        '5'
    } else if d == 6 {
        '6'
    } else if d == 7 {
        '7'
    } else if d == 8 {
        '8'
    } else {
        '9'
    }
}

/// The decimal digits of `n`, most significant first, without leading zeros.
pub open spec fn nat_text(n: nat) -> Seq<char>
    decreases n,
{
    if n < 10 {
        seq![digit_char(n as int)]
    } else {
        nat_text(n / 10).push(digit_char((n % 10) as int))
    }
}

/// The decimal form of `n`, with a leading `-` for a negative number.
pub open spec fn int_text(n: int) -> Seq<char> {
    if n < 0 {
        seq!['-'] + nat_text((-n) as nat)
    } else {
        nat_text(n as nat)
    }
}

/// The views of a sequence of strings.
pub open spec fn views(v: Seq<String>) -> Seq<Seq<char>> {
    Seq::new(v.len(), |i: int| v[i]@)
}

/// `first_index` is the position before which no `c` stands and at which one
/// does, or the end of the text.
pub proof fn lemma_first_index(s: Seq<char>, c: char, k: int)
    requires
        0 <= k <= s.len(),
        forall|j: int| 0 <= j < k ==> s[j] != c,
        k < s.len() ==> s[k] == c,
    ensures
        first_index(s, c) == k,
    decreases s.len(),
{
    if k > 0 {
        let t = s.skip(1);
        assert forall|j: int| 0 <= j < k - 1 implies t[j] != c by {
            assert(t[j] == s[j + 1]);
        }
        lemma_first_index(t, c, k - 1);
    }
}

/// A text in which the pattern stands nowhere is left as it is.
pub proof fn lemma_replace_absent(s: Seq<char>, pat: Seq<char>, to: Seq<char>)
    requires
        !contains_sub(s, pat),
    ensures
        replace_all(s, pat, to) == s,
    decreases s.len(),
{
    if pat.len() == 0 || s.len() < pat.len() {
    } else {
        assert(!occurs_at(s, pat, 0));
        let t = s.skip(1);
        assert forall|i: int| !occurs_at(t, pat, i) by {
            if occurs_at(t, pat, i) {
                assert(t.subrange(i, i + pat.len()) == s.subrange(i + 1, i + 1 + pat.len()));
                assert(occurs_at(s, pat, i + 1));
            }
        }
        lemma_replace_absent(t, pat, to);
        assert(s.take(1) + t == s);
    }
}

/// Replacement leaves alone what stands before the first occurrence of the
/// pattern: if no occurrence begins before `k`, the first `k` characters are
/// kept and the rest is replaced on its own.
pub proof fn lemma_replace_skip_prefix(s: Seq<char>, pat: Seq<char>, to: Seq<char>, k: int)
    requires
        pat.len() > 0,
        0 <= k <= s.len(),
        forall|i: int| 0 <= i < k ==> !occurs_at(s, pat, i),
    ensures
        replace_all(s, pat, to) == s.take(k) + replace_all(s.skip(k), pat, to),
    decreases k,
{
    if k == 0 {
        assert(s.skip(0) == s);
        assert(s.take(0) + replace_all(s, pat, to) == replace_all(s, pat, to));
    } else if s.len() < pat.len() {
        assert(s.skip(k).len() < pat.len());
        assert(s.take(k) + s.skip(k) == s);
    } else {
        let t = s.skip(1);
        assert forall|i: int| 0 <= i < k - 1 implies !occurs_at(t, pat, i) by {
            if occurs_at(t, pat, i) {
                assert(t.subrange(i, i + pat.len()) == s.subrange(i + 1, i + 1 + pat.len()));
                assert(occurs_at(s, pat, i + 1));
            }
        }
        lemma_replace_skip_prefix(t, pat, to, k - 1);
        assert(t.skip(k - 1) == s.skip(k));
        assert(s.take(1) + t.take(k - 1) == s.take(k));
        assert(s.take(1) + (t.take(k - 1) + replace_all(s.skip(k), pat, to)) == s.take(k)
            + replace_all(s.skip(k), pat, to));
    }
}

/// The characters of `s`, in order.
pub fn chars_of(s: &str) -> (out: Vec<char>)
    ensures
        out@ == s@,
{
    let mut out: Vec<char> = Vec::new();
    for c in it: s.chars()
        invariant
            it.seq() == s@,
            out@ == it.seq().take(it.index() as int),
    {
        out.push(c);
    }
    out
}

/// `String::push`: puts one character at the end of the string.
#[verifier::external_body]
fn push_char(s: &mut String, c: char)
    ensures
        final(s)@ == old(s)@.push(c),
{
    s.push(c)
}

/// The string made of `chars`, in order.
pub fn string_of(chars: &Vec<char>) -> (out: String)
    ensures
        out@ == chars@,
{
    let mut out = String::new();
    let mut i: usize = 0;
    while i < chars.len()
        invariant
            i <= chars.len(),
            out@ == chars@.take(i as int),
        decreases chars.len() - i,
    {
        push_char(&mut out, chars[i]);
        assert(chars@.take(i + 1) == chars@.take(i as int).push(chars@[i as int]));
        i += 1;
    }
    assert(chars@.take(chars.len() as int) == chars@);
    out
}

/// Whether `pat` stands in `s` at position `i`.
pub fn matches_at(s: &Vec<char>, pat: &Vec<char>, i: usize) -> (found: bool)
    ensures
        found == occurs_at(s@, pat@, i as int),
{
    if pat.len() > s.len() || i > s.len() - pat.len() {
        return false;
    }
    let mut j: usize = 0;
    while j < pat.len()
        invariant
            j <= pat.len(),
            i + pat.len() <= s.len(),
            forall|k: int| 0 <= k < j ==> s@[i + k] == pat@[k],
        decreases pat.len() - j,
    {
        if s[i + j] != pat[j] {
            proof {
                let w = s@.subrange(i as int, i + pat.len());
                assert(w[j as int] == s@[i + j]);
            }
            return false;
        }
        j += 1;
    }
    assert(s@.subrange(i as int, i + pat.len()) == pat@);
    true
}

/// Whether `pat` stands somewhere in `s`.
pub fn contains_chars(s: &Vec<char>, pat: &Vec<char>) -> (found: bool)
    ensures
        found == contains_sub(s@, pat@),
{
    if pat.len() == 0 {
        assert(s@.subrange(0, 0) == pat@);
        assert(occurs_at(s@, pat@, 0));
        return true;
    }
    if pat.len() > s.len() {
        return false;
    }
    let last: usize = s.len() - pat.len();
    let mut i: usize = 0;
    while i <= last
        invariant
            i <= last + 1,
            last < s.len(),
            last == s.len() - pat.len(),
            forall|k: int| 0 <= k < i ==> !occurs_at(s@, pat@, k),
        decreases last + 1 - i,
    {
        if matches_at(s, pat, i) {
            return true;
        }
        i += 1;
    }
    false
}

/// Whether `pat` stands somewhere in `s`.
pub fn contains(s: &str, pat: &str) -> (found: bool)
    ensures
        found == contains_sub(s@, pat@),
{
    let sc = chars_of(s);
    let pc = chars_of(pat);
    contains_chars(&sc, &pc)
}

/// `s` with every occurrence of `pat` replaced by `to`; with an empty `pat`,
/// `s` as it is.
pub fn replace_chars(s: &Vec<char>, pat: &Vec<char>, to: &Vec<char>) -> (out: Vec<char>)
    ensures
        out@ == replace_all(s@, pat@, to@),
{
    if pat.len() == 0 {
        return s.clone();
    }
    let mut out: Vec<char> = Vec::new();
    let mut i: usize = 0;
    assert(s@.skip(0) == s@);
    assert(out@ + replace_all(s@, pat@, to@) == replace_all(s@, pat@, to@));
    while i < s.len()
        invariant
            pat.len() > 0,
            i <= s.len(),
            out@ + replace_all(s@.skip(i as int), pat@, to@) == replace_all(s@, pat@, to@),
        decreases s.len() - i,
    {
        let ghost rest = s@.skip(i as int);
        let ghost before = out@;
        if matches_at(s, pat, i) {
            proof {
                assert(rest.subrange(0, pat.len() as int) == s@.subrange(
                    i as int,
                    i + pat.len(),
                ));
                assert(occurs_at(rest, pat@, 0));
                assert(rest.skip(pat.len() as int) == s@.skip(i + pat.len()));
            }
            let mut j: usize = 0;
            while j < to.len()
                invariant
                    j <= to.len(),
                    out@ == before + to@.take(j as int),
                decreases to.len() - j,
            {
                out.push(to[j]);
                assert(to@.take(j + 1) == to@.take(j as int).push(to@[j as int]));
                j += 1;
            }
            proof {
                assert(to@.take(to.len() as int) == to@);
                assert((before + to@) + replace_all(s@.skip(i + pat.len()), pat@, to@) == before
                    + (to@ + replace_all(s@.skip(i + pat.len()), pat@, to@)));
            }
            i += pat.len();
        } else {
            proof {
                if rest.len() >= pat.len() {
                    assert(rest.subrange(0, pat.len() as int) == s@.subrange(
                        i as int,
                        i + pat.len(),
                    ));
                    assert(!occurs_at(rest, pat@, 0));
                    assert(rest.skip(1) == s@.skip(i + 1));
                    assert(rest.take(1) == seq![s@[i as int]]);
                    assert(before.push(s@[i as int]) + replace_all(s@.skip(i + 1), pat@, to@)
                        == before + (rest.take(1) + replace_all(rest.skip(1), pat@, to@)));
                } else {
                    assert(!contains_sub(rest.skip(1), pat@));
                    lemma_replace_absent(rest.skip(1), pat@, to@);
                    assert(rest.skip(1) == s@.skip(i + 1));
                    assert(before.push(s@[i as int]) + rest.skip(1) == before + rest);
                }
            }
            out.push(s[i]);
            i += 1;
        }
    }
    assert(s@.skip(s.len() as int).len() == 0);
    assert(out@ + Seq::<char>::empty() == out@);
    out
}

/// The pieces of `s` between occurrences of `sep`.
pub fn split_chars(s: &Vec<char>, sep: char) -> (out: Vec<String>)
    ensures
        views(out@) == split_on(s@, sep),
{
    let mut out: Vec<String> = Vec::new();
    let mut piece = String::new();
    let mut start: usize = 0;
    let mut i: usize = 0;
    assert(s@.skip(0) == s@);
    assert(views(out@) + split_on(s@, sep) == split_on(s@, sep));
    assert(piece@ == s@.subrange(0, 0));
    while i < s.len()
        invariant
            start <= i <= s.len(),
            piece@ == s@.subrange(start as int, i as int),
            forall|j: int| start <= j < i ==> s@[j] != sep,
            views(out@) + split_on(s@.skip(start as int), sep) == split_on(s@, sep),
        decreases s.len() - i,
    {
        let ghost before = views(out@);
        let ghost rest = s@.skip(start as int);
        if s[i] == sep {
            proof {
                lemma_first_index(rest, sep, i - start);
                assert(rest.take(i - start) == piece@);
                assert(rest.skip(i - start + 1) == s@.skip(i + 1));
            }
            out.push(piece);
            proof {
                assert(views(out@) == before.push(rest.take(i - start)));
                assert(before.push(rest.take(i - start)) + split_on(s@.skip(i + 1), sep) == before
                    + (seq![rest.take(i - start)] + split_on(s@.skip(i + 1), sep)));
            }
            piece = String::new();
            start = i + 1;
            assert(s@.subrange(start as int, start as int) == Seq::<char>::empty());
        } else {
            push_char(&mut piece, s[i]);
            assert(s@.subrange(start as int, i + 1) == s@.subrange(start as int, i as int).push(
                s@[i as int],
            ));
        }
        i += 1;
    }
    let ghost before = views(out@);
    proof {
        let rest = s@.skip(start as int);
        lemma_first_index(rest, sep, rest.len() as int);
        assert(piece@ == rest);
    }
    out.push(piece);
    assert(views(out@) == before.push(piece@));
    assert(before.push(piece@) == before + seq![piece@]);
    out
}

/// The character for the decimal digit `d`.
fn digit_of(d: u64) -> (c: char)
    requires
        d < 10,
    ensures
        c == digit_char(d as int),
{
    if d == 0 {
        '0'
    } else if d == 1 {
        '1'
    } else if d == 2 {
        '2'
    } else if d == 3 {
        '3'
    } else if d == 4 {
        '4'
    } else if d == 5 {
        '5'
    } else if d == 6 {
        '6'
    } else if d == 7 {
        '7'
    } else if d == 8 {
        '8'
    } else {
        '9'
    }
}

/// Appends the decimal digits of `n` to `out`.
fn push_nat_text(n: u64, out: &mut String)
    ensures
        final(out)@ == old(out)@ + nat_text(n as nat),
    decreases n,
{
    if n >= 10 {
        push_nat_text(n / 10, out);
    }
    push_char(out, digit_of(n % 10));
    proof {
        if n >= 10 {
            assert((old(out)@ + nat_text((n / 10) as nat)).push(digit_char((n % 10) as int))
                == old(out)@ + nat_text(n as nat));
        } else {
            assert(old(out)@.push(digit_char(n as int)) == old(out)@ + nat_text(n as nat));
        }
    }
}

/// The decimal form of `n`.
pub fn number_text(n: i32) -> (out: String)
    ensures
        out@ == int_text(n as int),
{
    let mut out = String::new();
    if n < 0 {
        push_char(&mut out, '-');
        let m: u64 = (-(n as i64)) as u64;
        push_nat_text(m, &mut out);
        assert(Seq::<char>::empty().push('-') == seq!['-']);
    } else {
        push_nat_text(n as u64, &mut out);
        assert(Seq::<char>::empty() + nat_text(n as nat) == nat_text(n as nat));
    }
    out
}

} // verus!
