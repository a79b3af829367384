//! The inline rewriters: ordered, stateless, pure functions of one line.
//!
//! Each rewriter replaces every match of a small pattern with an HTML
//! fragment.  Matching follows leftmost, shortest-span (non-greedy)
//! semantics: the next match is the earliest position where the whole
//! pattern can complete, and the span between delimiters is as short as
//! possible.

use vstd::prelude::*;

use crate::chars::count_leading;
use crate::chars::dash_pred;
use crate::chars::find_at;
use crate::chars::find_at_exec;
use crate::chars::hash_pred;
use crate::chars::is_digit;
use crate::chars::is_digit_char;
use crate::chars::is_space;
use crate::chars::is_space_char;
use crate::chars::count_leading_dashes;
use crate::chars::count_leading_hashes;
use crate::chars::lemma_count_leading;
use crate::chars::matches_at;
use crate::chars::occurs_at;
use crate::chars::push_range;
use crate::chars::space_pred;
use crate::chars::count_leading_spaces;
use crate::chars::subvec;
use crate::chars::to_chars;
use crate::chars::to_string;
use crate::chars::trim_chars;
use crate::chars::trim_spec;

verus! {

// ------------------------------------------------------------------
// Delimiter patterns: `d content d`, content nonempty and as short as
// possible, replaced by `pre content post`.
// ------------------------------------------------------------------

/// The first position at or after `from` where the delimiter `d` opens a
/// complete match: `d` occurs there, and occurs again at least one
/// character further on.  Returns the open and close positions.
pub open spec fn find_wrap(s: Seq<char>, d: Seq<char>, from: int) -> Option<(int, int)>
    decreases s.len() - from,
{
    if from < 0 || d.len() == 0 || from + d.len() > s.len() {
        None
    } else if occurs_at(s, d, from) {
        match find_at(s, d, from + d.len() + 1) {
            Some(j) => Some((from, j)),
            None => None,
        }
    } else {
        find_wrap(s, d, from + 1)
    }
}

pub proof fn lemma_find_wrap_none(s: Seq<char>, d: Seq<char>, from: int)
    requires
        forall|i: int| from <= i ==> !occurs_at(s, d, i),
    ensures
        find_wrap(s, d, from) is None,
    decreases s.len() - from,
{
    if from < 0 || d.len() == 0 || from + d.len() > s.len() {
    } else {
        lemma_find_wrap_none(s, d, from + 1);
    }
}

/// Every delimiter-wrapped span `d content d` in `s` replaced by
/// `pre content post`, scanning left to right with non-greedy spans.
pub open spec fn replace_delim(s: Seq<char>, d: Seq<char>, pre: Seq<char>, post: Seq<char>) -> Seq<
    char,
>
    decreases s.len(),
{
    match find_wrap(s, d, 0) {
        Some((i, j)) => if 0 <= i && i + d.len() < j && j + d.len() <= s.len() {
            s.take(i) + pre + s.subrange(i + d.len(), j) + post + replace_delim(
                s.skip(j + d.len()),
                d,
                pre,
                post,
            )
        } else {
            s
        },
        None => s,
    }
}

pub proof fn lemma_replace_delim_id(s: Seq<char>, d: Seq<char>, pre: Seq<char>, post: Seq<char>)
    requires
        forall|i: int| 0 <= i ==> !occurs_at(s, d, i),
    ensures
        replace_delim(s, d, pre, post) == s,
{
    lemma_find_wrap_none(s, d, 0);
}

fn find_wrap_exec(v: &Vec<char>, d: &Vec<char>) -> (r: Option<(usize, usize)>)
    ensures
        match r {
            Some(p) => {
                &&& find_wrap(v@, d@, 0) == Some((p.0 as int, p.1 as int))
                &&& p.0 + d@.len() < p.1
                &&& p.1 + d@.len() <= v@.len()
            },
            None => find_wrap(v@, d@, 0) is None,
        },
{
    let n = v.len();
    let dl = d.len();
    if dl == 0 {
        return None;
    }
    let mut i: usize = 0;
    loop
        invariant
            n == v@.len(),
            dl == d@.len(),
            1 <= dl,
            i <= n,
            find_wrap(v@, d@, 0) == find_wrap(v@, d@, i as int),
        decreases n - i,
    {
        if dl > n - i {
            return None;
        }
        if matches_at(v, d, i) {
            if n - i == dl {
                return None;
            }
            match find_at_exec(v, d, i + dl + 1) {
                Some(j) => {
                    return Some((i, j));
                },
                None => {
                    return None;
                },
            }
        }
        i += 1;
    }
}

pub fn replace_delim_exec(v: &Vec<char>, d: &Vec<char>, pre: &Vec<char>, post: &Vec<char>) -> (r:
    Vec<char>)
    ensures
        r@ == replace_delim(v@, d@, pre@, post@),
{
    let ghost orig = v@;
    let vl = v.len();
    let mut rest = subvec(v, 0, vl);
    let mut out: Vec<char> = Vec::new();
    proof {
        assert(v@.subrange(0, v@.len() as int) =~= v@);
    }
    proof {
        assert(out@ + replace_delim(rest@, d@, pre@, post@) =~= replace_delim(
            orig,
            d@,
            pre@,
            post@,
        ));
    }
    loop
        invariant
            orig == v@,
            replace_delim(orig, d@, pre@, post@) == out@ + replace_delim(rest@, d@, pre@, post@),
        decreases rest@.len(),
    {
        match find_wrap_exec(&rest, d) {
            None => {
                let ghost outprev = out@;
                let rl = rest.len();
                push_range(&mut out, &rest, 0, rl);
                proof {
                    assert(rest@.subrange(0, rest@.len() as int) =~= rest@);
                    assert(replace_delim(rest@, d@, pre@, post@) == rest@);
                    assert(out@ == outprev + rest@);
                }
                return out;
            },
            Some((i, j)) => {
                let ghost prev = rest@;
                let ghost outprev = out@;
                let dl = d.len();
                let pl = pre.len();
                let ql = post.len();
                let rl = rest.len();
                push_range(&mut out, &rest, 0, i);
                push_range(&mut out, pre, 0, pl);
                push_range(&mut out, &rest, i + dl, j);
                push_range(&mut out, post, 0, ql);
                let new_rest = subvec(&rest, j + dl, rl);
                rest = new_rest;
                proof {
                    assert(pre@.subrange(0, pre@.len() as int) =~= pre@);
                    assert(post@.subrange(0, post@.len() as int) =~= post@);
                    assert(prev.subrange(0, i as int) =~= prev.take(i as int));
                    assert(replace_delim(prev, d@, pre@, post@) == prev.take(i as int) + pre@
                        + prev.subrange(i + d@.len(), j as int) + post@ + replace_delim(
                        prev.skip(j + d@.len()),
                        d@,
                        pre@,
                        post@,
                    ));
                    assert(rest@ == prev.skip(j + d@.len()));
                    assert(out@ =~= outprev + (prev.take(i as int) + pre@ + prev.subrange(
                        i + d@.len(),
                        j as int,
                    ) + post@));
                    assert(out@ + replace_delim(rest@, d@, pre@, post@) =~= outprev
                        + replace_delim(prev, d@, pre@, post@));
                }
            },
        }
    }
}

// ------------------------------------------------------------------
// The bold/italic, inline-code and strikethrough rewrites.
// ------------------------------------------------------------------

/// The bold/italic rewrite: three passes, most specific first.
/// `***x***` becomes `<b><i>x</i></b>`, then `**x**` becomes `<b>x</b>`,
/// then `*x*` becomes `<i>x</i>`.
pub open spec fn spec_bold_italics(s: Seq<char>) -> Seq<char> {
    replace_delim(
        replace_delim(
            replace_delim(s, "***"@, "<b><i>"@, "</i></b>"@),
            "**"@,
            "<b>"@,
            "</b>"@,
        ),
        "*"@,
        "<i>"@,
        "</i>"@,
    )
}

/// The inline-code rewrite: `` `x` `` becomes `<code>x</code>`.
pub open spec fn spec_code(s: Seq<char>) -> Seq<char> {
    replace_delim(s, "`"@, "<code>"@, "</code>"@)
}

/// The strikethrough rewrite: `~~x~~` becomes `<s>x</s>`.
pub open spec fn spec_strike(s: Seq<char>) -> Seq<char> {
    replace_delim(s, "~~"@, "<s>"@, "</s>"@)
}

pub(crate) fn bold_italics_chars(v: Vec<char>) -> (r: Vec<char>)
    ensures
        r@ == spec_bold_italics(v@),
{
    let v1 = replace_delim_exec(&v, &to_chars("***"), &to_chars("<b><i>"), &to_chars("</i></b>"));
    let v2 = replace_delim_exec(&v1, &to_chars("**"), &to_chars("<b>"), &to_chars("</b>"));
    replace_delim_exec(&v2, &to_chars("*"), &to_chars("<i>"), &to_chars("</i>"))
}

pub(crate) fn code_chars(v: Vec<char>) -> (r: Vec<char>)
    ensures
        r@ == spec_code(v@),
{
    replace_delim_exec(&v, &to_chars("`"), &to_chars("<code>"), &to_chars("</code>"))
}

pub(crate) fn strike_chars(v: Vec<char>) -> (r: Vec<char>)
    ensures
        r@ == spec_strike(v@),
{
    replace_delim_exec(&v, &to_chars("~~"), &to_chars("<s>"), &to_chars("</s>"))
}

/// Rewrites `***x***`, `**x**` and `*x*` spans of one line into
/// `<b><i>`, `<b>` and `<i>` markup, in that order of passes.
pub fn parse_bold_italics(line: String) -> (r: String)
    ensures
        r@ == spec_bold_italics(line@),
{
    let v = to_chars(line.as_str());
    let r = bold_italics_chars(v);
    to_string(&r)
}

/// Rewrites `` `x` `` spans of one line into `<code>x</code>`.
pub fn parse_code(line: String) -> (r: String)
    ensures
        r@ == spec_code(line@),
{
    let v = to_chars(line.as_str());
    let r = code_chars(v);
    to_string(&r)
}

/// Rewrites `~~x~~` spans of one line into `<s>x</s>`.
pub fn parse_strike(line: String) -> (r: String)
    ensures
        r@ == spec_strike(line@),
{
    let v = to_chars(line.as_str());
    let r = strike_chars(v);
    to_string(&r)
}

// ------------------------------------------------------------------
// Bracket patterns: `prefix alt mid link close`, with `alt` possibly
// empty and `link` nonempty, both as short as possible.
// ------------------------------------------------------------------

/// The first position at or after `from` where `mid` occurs and is
/// followed, at least one character later, by `close`: the seam between
/// the two captured parts of a bracket pattern.
pub open spec fn find_inner(s: Seq<char>, mid: Seq<char>, close: Seq<char>, from: int) -> Option<
    (int, int),
>
    decreases s.len() - from,
{
    if from < 0 || mid.len() == 0 || from + mid.len() > s.len() {
        None
    } else if occurs_at(s, mid, from) {
        match find_at(s, close, from + mid.len() + 1) {
            Some(q) => Some((from, q)),
            None => None,
        }
    } else {
        find_inner(s, mid, close, from + 1)
    }
}

/// The first position at or after `from` where `prefix` opens a complete
/// bracket match.  Returns the prefix position, the seam position and the
/// close position.
pub open spec fn find_bracket(
    s: Seq<char>,
    prefix: Seq<char>,
    mid: Seq<char>,
    close: Seq<char>,
    from: int,
) -> Option<(int, int, int)>
    decreases s.len() - from,
{
    if from < 0 || prefix.len() == 0 || from + prefix.len() > s.len() {
        None
    } else if occurs_at(s, prefix, from) {
        match find_inner(s, mid, close, from + prefix.len()) {
            Some((m, q)) => Some((from, m, q)),
            None => None,
        }
    } else {
        find_bracket(s, prefix, mid, close, from + 1)
    }
}

pub proof fn lemma_find_bracket_none(
    s: Seq<char>,
    prefix: Seq<char>,
    mid: Seq<char>,
    close: Seq<char>,
    from: int,
)
    requires
        forall|i: int| from <= i ==> !occurs_at(s, prefix, i),
    ensures
        find_bracket(s, prefix, mid, close, from) is None,
    decreases s.len() - from,
{
    if from < 0 || prefix.len() == 0 || from + prefix.len() > s.len() {
    } else {
        lemma_find_bracket_none(s, prefix, mid, close, from + 1);
    }
}

/// The replacement for one bracket match: the two captured parts laid
/// between the fragments `r1`, `r2` and `r3`, with `swap` putting the
/// second capture first.
pub open spec fn bracket_build(
    r1: Seq<char>,
    r2: Seq<char>,
    r3: Seq<char>,
    swap: bool,
    alt: Seq<char>,
    link: Seq<char>,
) -> Seq<char> {
    if swap {
        r1 + link + r2 + alt + r3
    } else {
        r1 + alt + r2 + link + r3
    }
}

/// Every bracket match `prefix alt mid link close` in `s` replaced by
/// `bracket_build(..)`, scanning left to right with non-greedy captures.
pub open spec fn replace_bracket(
    s: Seq<char>,
    prefix: Seq<char>,
    mid: Seq<char>,
    close: Seq<char>,
    r1: Seq<char>,
    r2: Seq<char>,
    r3: Seq<char>,
    swap: bool,
) -> Seq<char>
    decreases s.len(),
{
    match find_bracket(s, prefix, mid, close, 0) {
        Some((i, m, q)) => if 0 <= i && i + prefix.len() <= m && m + mid.len() < q && 0 < q
            + close.len() <= s.len() {
            s.take(i) + bracket_build(
                r1,
                r2,
                r3,
                swap,
                s.subrange(i + prefix.len(), m),
                s.subrange(m + mid.len(), q),
            ) + replace_bracket(s.skip(q + close.len()), prefix, mid, close, r1, r2, r3, swap)
        } else {
            s
        },
        None => s,
    }
}

pub proof fn lemma_replace_bracket_id(
    s: Seq<char>,
    prefix: Seq<char>,
    mid: Seq<char>,
    close: Seq<char>,
    r1: Seq<char>,
    r2: Seq<char>,
    r3: Seq<char>,
    swap: bool,
)
    requires
        forall|i: int| 0 <= i ==> !occurs_at(s, prefix, i),
    ensures
        replace_bracket(s, prefix, mid, close, r1, r2, r3, swap) == s,
{
    lemma_find_bracket_none(s, prefix, mid, close, 0);
}

fn find_inner_exec(v: &Vec<char>, mid: &Vec<char>, close: &Vec<char>, from: usize) -> (r: Option<
    (usize, usize),
>)
    ensures
        match r {
            Some(p) => {
                &&& find_inner(v@, mid@, close@, from as int) == Some((p.0 as int, p.1 as int))
                &&& from <= p.0
                &&& p.0 + mid@.len() < p.1
                &&& p.1 + close@.len() <= v@.len()
            },
            None => find_inner(v@, mid@, close@, from as int) is None,
        },
{
    let n = v.len();
    let ml = mid.len();
    if ml == 0 || from > n {
        return None;
    }
    let mut i: usize = from;
    loop
        invariant
            n == v@.len(),
            ml == mid@.len(),
            1 <= ml,
            from <= i <= n,
            find_inner(v@, mid@, close@, from as int) == find_inner(v@, mid@, close@, i as int),
        decreases n - i,
    {
        if ml > n - i {
            return None;
        }
        if matches_at(v, mid, i) {
            if n - i == ml {
                return None;
            }
            match find_at_exec(v, close, i + ml + 1) {
                Some(q) => {
                    return Some((i, q));
                },
                None => {
                    return None;
                },
            }
        }
        i += 1;
    }
}

fn find_bracket_exec(v: &Vec<char>, prefix: &Vec<char>, mid: &Vec<char>, close: &Vec<char>) -> (r:
    Option<(usize, usize, usize)>)
    ensures
        match r {
            Some(p) => {
                &&& find_bracket(v@, prefix@, mid@, close@, 0) == Some(
                    (p.0 as int, p.1 as int, p.2 as int),
                )
                &&& p.0 + prefix@.len() <= p.1
                &&& p.1 + mid@.len() < p.2
                &&& p.2 + close@.len() <= v@.len()
            },
            None => find_bracket(v@, prefix@, mid@, close@, 0) is None,
        },
{
    let n = v.len();
    let pl = prefix.len();
    if pl == 0 {
        return None;
    }
    let mut i: usize = 0;
    loop
        invariant
            n == v@.len(),
            pl == prefix@.len(),
            1 <= pl,
            i <= n,
            find_bracket(v@, prefix@, mid@, close@, 0) == find_bracket(
                v@,
                prefix@,
                mid@,
                close@,
                i as int,
            ),
        decreases n - i,
    {
        if pl > n - i {
            return None;
        }
        if matches_at(v, prefix, i) {
            match find_inner_exec(v, mid, close, i + pl) {
                Some((m, q)) => {
                    return Some((i, m, q));
                },
                None => {
                    return None;
                },
            }
        }
        i += 1;
    }
}

#[verifier::rlimit(60)]
pub fn replace_bracket_exec(
    v: &Vec<char>,
    prefix: &Vec<char>,
    mid: &Vec<char>,
    close: &Vec<char>,
    r1: &Vec<char>,
    r2: &Vec<char>,
    r3: &Vec<char>,
    swap: bool,
) -> (r: Vec<char>)
    ensures
        r@ == replace_bracket(v@, prefix@, mid@, close@, r1@, r2@, r3@, swap),
{
    let ghost orig = v@;
    let vl = v.len();
    let mut rest = subvec(v, 0, vl);
    let mut out: Vec<char> = Vec::new();
    proof {
        assert(v@.subrange(0, v@.len() as int) =~= v@);
        assert(out@ + replace_bracket(rest@, prefix@, mid@, close@, r1@, r2@, r3@, swap)
            =~= replace_bracket(orig, prefix@, mid@, close@, r1@, r2@, r3@, swap));
    }
    loop
        invariant
            orig == v@,
            replace_bracket(orig, prefix@, mid@, close@, r1@, r2@, r3@, swap) == out@
                + replace_bracket(rest@, prefix@, mid@, close@, r1@, r2@, r3@, swap),
        decreases rest@.len(),
    {
        match find_bracket_exec(&rest, prefix, mid, close) {
            None => {
                let ghost outprev = out@;
                let rl = rest.len();
                push_range(&mut out, &rest, 0, rl);
                proof {
                    assert(rest@.subrange(0, rest@.len() as int) =~= rest@);
                    assert(replace_bracket(rest@, prefix@, mid@, close@, r1@, r2@, r3@, swap)
                        == rest@);
                    assert(out@ == outprev + rest@);
                }
                return out;
            },
            Some((i, m, q)) => {
                let ghost prev = rest@;
                let ghost outprev = out@;
                let pl = prefix.len();
                let ml = mid.len();
                let cl = close.len();
                let rl = rest.len();
                push_range(&mut out, &rest, 0, i);
                if swap {
                    let l1 = r1.len();
                    push_range(&mut out, r1, 0, l1);
                    push_range(&mut out, &rest, m + ml, q);
                    let l2 = r2.len();
                    push_range(&mut out, r2, 0, l2);
                    push_range(&mut out, &rest, i + pl, m);
                    let l3 = r3.len();
                    push_range(&mut out, r3, 0, l3);
                } else {
                    let l1 = r1.len();
                    push_range(&mut out, r1, 0, l1);
                    push_range(&mut out, &rest, i + pl, m);
                    let l2 = r2.len();
                    push_range(&mut out, r2, 0, l2);
                    push_range(&mut out, &rest, m + ml, q);
                    let l3 = r3.len();
                    push_range(&mut out, r3, 0, l3);
                }
                let new_rest = subvec(&rest, q + cl, rl);
                rest = new_rest;
                proof {
                    assert(r1@.subrange(0, r1@.len() as int) =~= r1@);
                    assert(r2@.subrange(0, r2@.len() as int) =~= r2@);
                    assert(r3@.subrange(0, r3@.len() as int) =~= r3@);
                    assert(prev.subrange(0, i as int) =~= prev.take(i as int));
                    assert(replace_bracket(prev, prefix@, mid@, close@, r1@, r2@, r3@, swap)
                        == prev.take(i as int) + bracket_build(
                        r1@,
                        r2@,
                        r3@,
                        swap,
                        prev.subrange(i + prefix@.len(), m as int),
                        prev.subrange(m + mid@.len(), q as int),
                    ) + replace_bracket(
                        prev.skip(q + close@.len()),
                        prefix@,
                        mid@,
                        close@,
                        r1@,
                        r2@,
                        r3@,
                        swap,
                    ));
                    assert(rest@ == prev.skip(q + close@.len()));
                    assert(out@ =~= outprev + (prev.take(i as int) + bracket_build(
                        r1@,
                        r2@,
                        r3@,
                        swap,
                        prev.subrange(i + prefix@.len(), m as int),
                        prev.subrange(m + mid@.len(), q as int),
                    )));
                    assert(out@ + replace_bracket(rest@, prefix@, mid@, close@, r1@, r2@, r3@, swap)
                        =~= outprev + replace_bracket(
                        prev,
                        prefix@,
                        mid@,
                        close@,
                        r1@,
                        r2@,
                        r3@,
                        swap,
                    ));
                }
            },
        }
    }
}

/// The image rewrite: `![alt](src)` becomes `<img alt="alt" src="src">`,
/// with `alt` possibly empty.
pub open spec fn spec_images(s: Seq<char>) -> Seq<char> {
    replace_bracket(s, "!["@, "]("@, ")"@, "<img alt=\""@, "\" src=\""@, "\">"@, false)
}

/// The link rewrite: `[text](href)` becomes `<a href="href">text</a>`,
/// with `text` possibly empty.
pub open spec fn spec_links(s: Seq<char>) -> Seq<char> {
    replace_bracket(s, "["@, "]("@, ")"@, "<a href=\""@, "\">"@, "</a>"@, true)
}

pub(crate) fn images_chars(v: &Vec<char>) -> (r: Vec<char>)
    ensures
        r@ == spec_images(v@),
{
    replace_bracket_exec(
        v,
        &to_chars("!["),
        &to_chars("]("),
        &to_chars(")"),
        &to_chars("<img alt=\""),
        &to_chars("\" src=\""),
        &to_chars("\">"),
        false,
    )
}

pub(crate) fn links_chars(v: &Vec<char>) -> (r: Vec<char>)
    ensures
        r@ == spec_links(v@),
{
    replace_bracket_exec(
        v,
        &to_chars("["),
        &to_chars("]("),
        &to_chars(")"),
        &to_chars("<a href=\""),
        &to_chars("\">"),
        &to_chars("</a>"),
        true,
    )
}

/// Rewrites every `![alt](src)` image of one line into an `<img>` tag.
pub fn parse_images(line: String) -> (r: String)
    ensures
        r@ == spec_images(line@),
{
    let v = to_chars(line.as_str());
    let r = images_chars(&v);
    to_string(&r)
}

/// Rewrites every `[text](href)` link of one line into an `<a>` tag.
pub fn parse_links(line: String) -> (r: String)
    ensures
        r@ == spec_links(line@),
{
    let v = to_chars(line.as_str());
    let r = links_chars(&v);
    to_string(&r)
}

// ------------------------------------------------------------------
// Headers.
// ------------------------------------------------------------------

/// The opening tag for a header of level `n`, with `1 <= n <= 6`.
pub open spec fn header_open(n: int) -> Seq<char> {
    if n == 1 {
        "<h1>"@
    } else if n == 2 {
        "<h2>"@
    } else if n == 3 {
        "<h3>"@
    } else if n == 4 {
        "<h4>"@
    } else if n == 5 {
        "<h5>"@
    } else {
        "<h6>"@
    }
}

/// The closing tag for a header of level `n`, with `1 <= n <= 6`.
pub open spec fn header_close(n: int) -> Seq<char> {
    if n == 1 {
        "</h1>"@
    } else if n == 2 {
        "</h2>"@
    } else if n == 3 {
        "</h3>"@
    } else if n == 4 {
        "</h4>"@
    } else if n == 5 {
        "</h5>"@
    } else {
        "</h6>"@
    }
}

/// The header rewrite: a line opening with one to six `'#'` becomes a
/// header tag around the rest of the line, trimmed; any other count of
/// leading `'#'` leaves the line unchanged.
pub open spec fn spec_headers(s: Seq<char>) -> Seq<char> {
    let n = count_leading(s, hash_pred());
    if 1 <= n <= 6 {
        header_open(n) + trim_spec(s.skip(n)) + header_close(n)
    } else {
        s
    }
}

pub(crate) fn headers_chars(v: Vec<char>) -> (r: Vec<char>)
    ensures
        r@ == spec_headers(v@),
{
    let n = count_leading_hashes(&v);
    if n < 1 || n > 6 {
        return v;
    }
    proof {
        lemma_count_leading(v@, hash_pred());
    }
    let vl = v.len();
    let rest = subvec(&v, n, vl);
    let body = trim_chars(&rest);
    let open_s = if n == 1 {
        "<h1>"
    } else if n == 2 {
        "<h2>"
    } else if n == 3 {
        "<h3>"
    } else if n == 4 {
        "<h4>"
    } else if n == 5 {
        "<h5>"
    } else {
        "<h6>"
    };
    let close_s = if n == 1 {
        "</h1>"
    } else if n == 2 {
        "</h2>"
    } else if n == 3 {
        "</h3>"
    } else if n == 4 {
        "</h4>"
    } else if n == 5 {
        "</h5>"
    } else {
        "</h6>"
    };
    let mut out = to_chars(open_s);
    let bl = body.len();
    push_range(&mut out, &body, 0, bl);
    let close_v = to_chars(close_s);
    let cl = close_v.len();
    push_range(&mut out, &close_v, 0, cl);
    proof {
        assert(rest@ =~= v@.skip(n as int));
        assert(body@.subrange(0, body@.len() as int) =~= body@);
        assert(close_v@.subrange(0, close_v@.len() as int) =~= close_v@);
        assert(out@ =~= header_open(n as int) + trim_spec(v@.skip(n as int)) + header_close(
            n as int,
        ));
    }
    out
}

/// Rewrites a line opening with one to six `'#'` into the matching
/// `<h1>` through `<h6>` tag pair around its trimmed remainder.
pub fn parse_headers(line: String) -> (r: String)
    ensures
        r@ == spec_headers(line@),
{
    let v = to_chars(line.as_str());
    let r = headers_chars(v);
    to_string(&r)
}

// ------------------------------------------------------------------
// Horizontal rules.
// ------------------------------------------------------------------

/// A line of three or more `'-'` followed by nothing but whitespace.
pub open spec fn is_separator_line(s: Seq<char>) -> bool {
    let m = count_leading(s, dash_pred());
    3 <= m && (forall|i: int| m <= i < s.len() ==> is_space_char(s[i]))
}

/// The horizontal-rule rewrite: a separator line becomes `<hr>`; any
/// other line is unchanged.
pub open spec fn spec_separator(s: Seq<char>) -> Seq<char> {
    if is_separator_line(s) {
        "<hr>"@
    } else {
        s
    }
}

pub(crate) fn separator_chars(v: Vec<char>) -> (r: Vec<char>)
    ensures
        r@ == spec_separator(v@),
{
    let m = count_leading_dashes(&v);
    if m < 3 {
        return v;
    }
    proof {
        lemma_count_leading(v@, dash_pred());
    }
    let n = v.len();
    let mut k: usize = m;
    while k < n
        invariant
            3 <= m <= k <= n,
            n == v@.len(),
            m == count_leading(v@, dash_pred()),
            forall|i: int| m <= i < k ==> is_space_char(v@[i]),
        decreases n - k,
    {
        if !is_space(v[k]) {
            proof {
                assert(m <= k < v@.len() && !is_space_char(v@[k as int]));
            }
            return v;
        }
        k += 1;
    }
    to_chars("<hr>")
}

/// Rewrites a line of three or more dashes, up to trailing whitespace,
/// into `<hr>`.
pub fn parse_separator(line: String) -> (r: String)
    ensures
        r@ == spec_separator(line@),
{
    let v = to_chars(line.as_str());
    let r = separator_chars(v);
    to_string(&r)
}

// ------------------------------------------------------------------
// List items.
// ------------------------------------------------------------------

/// A list marker stands at position `j` of `s`: either `'*'` or `'-'`
/// followed by a space and at least one character, or a digit followed by
/// `'.'`, a space and at least one character.
pub open spec fn marker_at(s: Seq<char>, j: int) -> bool {
    ||| (0 <= j && j + 3 <= s.len() && (s[j] == '*' || s[j] == '-') && s[j + 1] == ' ')
    ||| (0 <= j && j + 4 <= s.len() && is_digit_char(s[j]) && s[j + 1] == '.' && s[j + 2] == ' ')
}

/// The position a list marker must stand at to make the line a list
/// item: just past the line's run of leading whitespace.
pub open spec fn marker_pos(s: Seq<char>) -> int {
    count_leading(s, space_pred())
}

/// A list line: a list marker stands immediately after the leading
/// whitespace run.
pub open spec fn is_list_line(s: Seq<char>) -> bool {
    marker_at(s, marker_pos(s))
}

/// Whether a list line's marker calls for `<ul>` rather than `<ol>`:
/// true for `'*'` and `'-'`, false for a numbered marker.
pub open spec fn list_is_ul(s: Seq<char>) -> bool {
    is_list_line(s) && (s[marker_pos(s)] == '*' || s[marker_pos(s)] == '-')
}

pub(crate) fn marker_check(v: &Vec<char>, j: usize) -> (b: bool)
    ensures
        b == marker_at(v@, j as int),
{
    let n = v.len();
    if j > n || n - j < 3 {
        return false;
    }
    let star = (v[j] == '*' || v[j] == '-') && v[j + 1] == ' ';
    let digit = n - j >= 4 && is_digit(v[j]) && v[j + 1] == '.' && v[j + 2] == ' ';
    star || digit
}

pub(crate) fn is_list_line_exec(v: &Vec<char>) -> (b: bool)
    ensures
        b == is_list_line(v@),
{
    let a = count_leading_spaces(v);
    proof {
        lemma_count_leading(v@, space_pred());
    }
    marker_check(v, a)
}

/// The list-item rewrite: the line is trimmed; a marker opening the
/// trimmed line, with the space after it, is replaced by `<li>`, and
/// `</li>` closes the rest of the line.  A trimmed line that does not
/// open with a marker is returned as trimmed.
pub open spec fn spec_list_item(s: Seq<char>) -> Seq<char> {
    let t = trim_spec(s);
    if marker_at(t, 0) {
        let content = if t[0] == '*' || t[0] == '-' {
            t.skip(2)
        } else {
            t.skip(3)
        };
        "<li>"@ + content + "</li>"@
    } else {
        t
    }
}

pub(crate) fn list_item_chars(v: &Vec<char>) -> (r: Vec<char>)
    ensures
        r@ == spec_list_item(v@),
{
    let t = trim_chars(v);
    if !marker_check(&t, 0) {
        return t;
    }
    let tl = t.len();
    let is_star = t[0] == '*' || t[0] == '-';
    let mut out = to_chars("<li>");
    if is_star {
        push_range(&mut out, &t, 2, tl);
    } else {
        push_range(&mut out, &t, 3, tl);
    }
    let close_v = to_chars("</li>");
    let lc = close_v.len();
    push_range(&mut out, &close_v, 0, lc);
    proof {
        assert(close_v@.subrange(0, close_v@.len() as int) =~= close_v@);
        if t@[0] == '*' || t@[0] == '-' {
            assert(t@.subrange(2, tl as int) =~= t@.skip(2));
        } else {
            assert(t@.subrange(3, tl as int) =~= t@.skip(3));
        }
        assert(out@ =~= spec_list_item(v@));
    }
    out
}

/// Rewrites a list marker opening the trimmed line into `<li>` markup
/// around the item's text.
pub fn parse_lists(line: String) -> (r: String)
    ensures
        r@ == spec_list_item(line@),
{
    let v = to_chars(line.as_str());
    let r = list_item_chars(&v);
    to_string(&r)
}

} // verus!
