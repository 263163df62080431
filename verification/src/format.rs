//! The name of a workspace, made from a template in which `%n` stands for the
//! workspace's number and `%i` for its icons.
use crate::text::{
    chars_of, contains_sub, int_text, lemma_replace_absent, lemma_replace_skip_prefix, nat_text,
    occurs_at, replace_all, replace_chars, string_of,
};
use vstd::prelude::*;

verus! {

/// The mark that the workspace's number replaces: `%n`.
pub open spec fn num_mark() -> Seq<char> {
    seq!['%', 'n']
}

/// The mark that the icons replace: `%i`.
pub open spec fn icon_mark() -> Seq<char> {
    seq!['%', 'i']
}

/// The template with each `%n` replaced by `num`, and then each `%i` by
/// `icons`. A mark that the icons bring along is not replaced again.
pub open spec fn format_text(template: Seq<char>, num: Seq<char>, icons: Seq<char>) -> Seq<char> {
    replace_all(replace_all(template, num_mark(), num), icon_mark(), icons)
}

/// One of the two marks begins at position `i` of `s`.
pub open spec fn mark_at(s: Seq<char>, i: int) -> bool {
    occurs_at(s, num_mark(), i) || occurs_at(s, icon_mark(), i)
}

/// `pat` stands in `s` at position `p` and nowhere else.
pub open spec fn sole_occurrence(s: Seq<char>, pat: Seq<char>, p: int) -> bool {
    &&& occurs_at(s, pat, p)
    &&& forall|i: int| occurs_at(s, pat, i) ==> i == p
}

/// The template with `num` in the place of the `%n` at `p` and `icons` in the
/// place of the `%i` at `q`.
pub open spec fn filled(
    template: Seq<char>,
    p: int,
    q: int,
    num: Seq<char>,
    icons: Seq<char>,
) -> Seq<char> {
    if p < q {
        template.take(p) + num + template.subrange(p + 2, q) + icons + template.skip(q + 2)
    } else {
        template.take(q) + icons + template.subrange(q + 2, p) + num + template.skip(p + 2)
    }
}

/// Where the icons begin in `filled`.
pub open spec fn icons_begin(p: int, q: int, num: Seq<char>) -> int {
    if p < q {
        q - 2 + num.len()
    } else {
        q
    }
}

/// A character of a number's decimal form: a digit or the sign.
pub open spec fn number_char(c: char) -> bool {
    ('0' <= c && c <= '9') || c == '-'
}

/// A mark is a `%` followed by its letter.
proof fn lemma_mark_chars(s: Seq<char>, i: int)
    ensures
        occurs_at(s, num_mark(), i) <==> (0 <= i && i + 2 <= s.len() && s[i] == '%' && s[i + 1]
            == 'n'),
        occurs_at(s, icon_mark(), i) <==> (0 <= i && i + 2 <= s.len() && s[i] == '%' && s[i + 1]
            == 'i'),
{
    if 0 <= i && i + 2 <= s.len() {
        let w = s.subrange(i, i + 2);
        assert(w[0] == s[i] && w[1] == s[i + 1]);
        if s[i] == '%' && s[i + 1] == 'n' {
            assert(w =~= num_mark());
        }
        if s[i] == '%' && s[i + 1] == 'i' {
            assert(w =~= icon_mark());
        }
    }
}

/// The decimal form of a number holds digits and, for a negative number, the
/// sign; it is never empty.
pub proof fn lemma_number_chars(n: int)
    ensures
        int_text(n).len() > 0,
        forall|k: int| 0 <= k < int_text(n).len() ==> number_char(#[trigger] int_text(n)[k]),
{
    if n < 0 {
        lemma_nat_chars((-n) as nat);
    } else {
        lemma_nat_chars(n as nat);
    }
}

proof fn lemma_nat_chars(n: nat)
    ensures
        nat_text(n).len() > 0,
        forall|k: int| 0 <= k < nat_text(n).len() ==> number_char(#[trigger] nat_text(n)[k]),
    decreases n,
{
    if n >= 10 {
        lemma_nat_chars(n / 10);
    }
}

/// Where the pattern stands exactly once, replacing puts `to` in its place
/// and keeps the rest.
pub proof fn lemma_replace_sole(s: Seq<char>, pat: Seq<char>, to: Seq<char>, p: int)
    requires
        pat.len() > 0,
        sole_occurrence(s, pat, p),
    ensures
        replace_all(s, pat, to) == s.take(p) + to + s.skip(p + pat.len()),
{
    let m = pat.len() as int;
    lemma_replace_skip_prefix(s, pat, to, p);
    let u = s.skip(p);
    assert(u.subrange(0, m) == s.subrange(p, p + m));
    assert(occurs_at(u, pat, 0));
    let rest = s.skip(p + m);
    assert(u.skip(m) == rest);
    assert forall|i: int| !occurs_at(rest, pat, i) by {
        if occurs_at(rest, pat, i) {
            assert(rest.subrange(i, i + m) == s.subrange(i + p + m, i + p + m + m));
            assert(occurs_at(s, pat, i + p + m));
        }
    }
    lemma_replace_absent(rest, pat, to);
    assert(s.take(p) + (to + rest) == s.take(p) + to + rest);
}

/// After the number has taken the place of `%n`, the `%i` still stands
/// exactly once and no `%n` is left: a number brings no mark.
proof fn lemma_marks_after_number(t: Seq<char>, num: Seq<char>, p: int, q: int)
    requires
        sole_occurrence(t, num_mark(), p),
        sole_occurrence(t, icon_mark(), q),
        num.len() > 0,
        forall|k: int| 0 <= k < num.len() ==> number_char(#[trigger] num[k]),
    ensures
        sole_occurrence(
            t.take(p) + num + t.skip(p + 2),
            icon_mark(),
            icons_begin(p, q, num),
        ),
        !contains_sub(t.take(p) + num + t.skip(p + 2), num_mark()),
{
    let r = t.take(p) + num + t.skip(p + 2);
    let d = num.len() - 2;
    let b = icons_begin(p, q, num);
    lemma_mark_chars(t, p);
    lemma_mark_chars(t, q);
    assert forall|i: int| 0 <= i < r.len() implies r[i] == (if i < p {
        t[i]
    } else if i < p + num.len() {
        num[i - p]
    } else {
        t[i - d]
    }) by {}
    lemma_mark_chars(r, b);
    assert(occurs_at(r, icon_mark(), b));
    // A mark in `r` is a mark of the template, before the number or after
    // it: one that touches the number would hold one of its characters.
    assert forall|i: int| mark_at(r, i) implies occurs_at(r, icon_mark(), i) && i == b by {
        lemma_mark_chars(r, i);
        if i + 1 < p {
            lemma_mark_chars(t, i);
        } else if i < p + num.len() {
            if i >= p {
                assert(number_char(num[i - p]));
            } else {
                assert(number_char(num[i + 1 - p]));
            }
        } else {
            lemma_mark_chars(t, i - d);
        }
    }
    assert forall|i: int| !occurs_at(r, num_mark(), i) by {
        if occurs_at(r, num_mark(), i) {
            assert(mark_at(r, i));
            lemma_mark_chars(r, i);
        }
    }
    assert forall|i: int| occurs_at(r, icon_mark(), i) implies i == b by {
        assert(mark_at(r, i));
    }
}

/// With exactly one `%n` and exactly one `%i` in the template, the name is
/// the template with the number's decimal form in the place of the one and
/// the icons in the place of the other.
///
/// No mark is left in the name, unless the icons bring one: inside them, or
/// begun by the character before them, or ended by the character after them.
pub proof fn lemma_format_round_trip(
    template: Seq<char>,
    n: int,
    icons: Seq<char>,
    p: int,
    q: int,
)
    requires
        sole_occurrence(template, num_mark(), p),
        sole_occurrence(template, icon_mark(), q),
    ensures
        format_text(template, int_text(n), icons) == filled(template, p, q, int_text(n), icons),
        (forall|i: int|
            icons_begin(p, q, int_text(n)) - 1 <= i < icons_begin(p, q, int_text(n)) + icons.len()
                ==> !mark_at(filled(template, p, q, int_text(n), icons), i)) ==> (forall|i: int|
            !mark_at(format_text(template, int_text(n), icons), i)),
{
    let t = template;
    let num = int_text(n);
    let b = icons_begin(p, q, num);
    lemma_number_chars(n);
    lemma_mark_chars(t, p);
    lemma_mark_chars(t, q);
    lemma_replace_sole(t, num_mark(), num, p);
    let r = t.take(p) + num + t.skip(p + 2);
    lemma_marks_after_number(t, num, p, q);
    lemma_replace_sole(r, icon_mark(), icons, b);
    let out = r.take(b) + icons + r.skip(b + 2);
    assert(format_text(t, num, icons) == out);
    let e = icons.len() - 2;
    assert(out =~= filled(t, p, q, num, icons));
    if forall|i: int| b - 1 <= i < b + icons.len() ==> !mark_at(out, i) {
        lemma_mark_chars(r, b);
        assert forall|i: int| !mark_at(out, i) by {
            lemma_mark_chars(out, i);
            if 0 <= i && i + 2 <= out.len() && !(b - 1 <= i < b + icons.len()) {
                // Both characters come from the template with the number
                // in it, where they are neighbours too and not the `%i`.
                let j = if i < b {
                    i
                } else {
                    i - e
                };
                assert(out[i] == r[j] && out[i + 1] == r[j + 1]);
                lemma_mark_chars(r, j);
                assert(j != b);
                assert(!occurs_at(r, num_mark(), j));
                assert(!mark_at(r, j));
            }
        }
    }
}

/// The name for a workspace: `template` with each `%n` replaced by `num` and
/// each `%i` by `icons`.
pub fn format_name(template: &str, num: &str, icons: &str) -> (name: String)
    ensures
        name@ == format_text(template@, num@, icons@),
{
    let t = chars_of(template);
    let mut num_pat: Vec<char> = Vec::new();
    num_pat.push('%');
    num_pat.push('n');
    let mut icon_pat: Vec<char> = Vec::new();
    icon_pat.push('%');
    icon_pat.push('i');
    assert(num_pat@ == num_mark());
    assert(icon_pat@ == icon_mark());
    let with_num = replace_chars(&t, &num_pat, &chars_of(num));
    let with_icons = replace_chars(&with_num, &icon_pat, &chars_of(icons));
    string_of(&with_icons)
}

} // verus!
