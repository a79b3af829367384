//! Document-level laws of the converter, stated and proved once.

use vstd::prelude::*;

use crate::chars::count_leading;
use crate::chars::lemma_find_at_none;
use crate::chars::dash_pred;
use crate::chars::hash_pred;
use crate::chars::lemma_count_leading;
use crate::chars::lemma_count_trailing;
use crate::chars::occurs_at;
use crate::chars::space_pred;
use crate::chars::trim_spec;
use crate::rewrite::find_wrap;
use crate::rewrite::is_list_line;
use crate::rewrite::is_separator_line;
use crate::rewrite::marker_at;
use crate::rewrite::marker_pos;
use crate::rewrite::lemma_replace_bracket_id;
use crate::rewrite::lemma_replace_delim_id;
use crate::rewrite::spec_bold_italics;
use crate::rewrite::spec_code;
use crate::rewrite::spec_headers;
use crate::rewrite::spec_images;
use crate::rewrite::spec_links;
use crate::rewrite::spec_list_item;
use crate::rewrite::spec_separator;
use crate::rewrite::spec_strike;
use crate::scan::initial_state;
use crate::scan::is_fence_line;
use crate::scan::line_indent;
use crate::scan::list_close_tag;
use crate::scan::list_open_tag;
use crate::scan::md_to_html;
use crate::scan::scan_all;
use crate::scan::scan_step;
use crate::scan::spec_tail_chain;
use crate::scan::ScanModel;

verus! {

// ------------------------------------------------------------------
// Plain lines: no special syntax at all.
// ------------------------------------------------------------------

/// A character that opens no inline span: emphasis, inline code,
/// strikethrough, image or link.
pub open spec fn plain_char(c: char) -> bool {
    c != '*' && c != '`' && c != '~' && c != '['
}

/// A line with no special syntax: it has visible text, opens no inline
/// span, does not open with `'#'`, is not a list item and is not a dash
/// rule.
pub open spec fn plain_line(l: Seq<char>) -> bool {
    &&& trim_spec(l).len() > 0
    &&& forall|i: int| 0 <= i < l.len() ==> plain_char(#[trigger] l[i])
    &&& l.len() > 0 ==> l[0] != '#'
    &&& !is_list_line(l)
    &&& !is_separator_line(l)
}

proof fn lemma_excluded_char_no_occurs(s: Seq<char>, d: Seq<char>, k: int, c: char)
    requires
        0 <= k < d.len(),
        d[k] == c,
        forall|i: int| 0 <= i < s.len() ==> s[i] != c,
    ensures
        forall|i: int| !occurs_at(s, d, i),
{
    assert forall|i: int| !occurs_at(s, d, i) by {
        if occurs_at(s, d, i) {
            assert(s.subrange(i, i + d.len())[k] == d[k]);
            assert(s[i + k] == c);
        }
    }
}

/// No inline rewrite, and no structural rule, touches a line whose
/// characters are all plain.
pub proof fn lemma_plain_inline_id(l: Seq<char>)
    requires
        forall|i: int| 0 <= i < l.len() ==> plain_char(#[trigger] l[i]),
        l.len() > 0 ==> l[0] != '#',
        !is_separator_line(l),
    ensures
        spec_bold_italics(l) == l,
        spec_code(l) == l,
        spec_strike(l) == l,
        spec_headers(l) == l,
        spec_separator(l) == l,
        spec_images(l) == l,
        spec_links(l) == l,
        spec_tail_chain(l) == l,
        !is_fence_line(l),
{
    reveal_strlit("***");
    reveal_strlit("**");
    reveal_strlit("*");
    reveal_strlit("`");
    reveal_strlit("~~");
    reveal_strlit("![");
    reveal_strlit("[");
    lemma_excluded_char_no_occurs(l, "***"@, 0, '*');
    lemma_replace_delim_id(l, "***"@, "<b><i>"@, "</i></b>"@);
    lemma_excluded_char_no_occurs(l, "**"@, 0, '*');
    lemma_replace_delim_id(l, "**"@, "<b>"@, "</b>"@);
    lemma_excluded_char_no_occurs(l, "*"@, 0, '*');
    lemma_replace_delim_id(l, "*"@, "<i>"@, "</i>"@);
    lemma_excluded_char_no_occurs(l, "`"@, 0, '`');
    lemma_replace_delim_id(l, "`"@, "<code>"@, "</code>"@);
    lemma_excluded_char_no_occurs(l, "~~"@, 0, '~');
    lemma_replace_delim_id(l, "~~"@, "<s>"@, "</s>"@);
    lemma_excluded_char_no_occurs(l, "!["@, 1, '[');
    lemma_replace_bracket_id(l, "!["@, "]("@, ")"@, "<img alt=\""@, "\" src=\""@, "\">"@, false);
    lemma_excluded_char_no_occurs(l, "["@, 0, '[');
    lemma_replace_bracket_id(l, "["@, "]("@, ")"@, "<a href=\""@, "\">"@, "</a>"@, true);
    // Headers: no leading '#'.
    if l.len() > 0 {
        assert(l[0] != '#');
        assert(count_leading(l, hash_pred()) == 0);
    }
    // Fence marker: the first trimmed character is a character of `l`.
    let a = count_leading(l, space_pred());
    lemma_count_leading(l, space_pred());
    let rest = l.skip(a);
    lemma_count_trailing(rest, space_pred());
    let t = trim_spec(l);
    if t.len() >= 3 {
        assert(t[0] == rest[0]);
        assert(rest[0] == l[a]);
        assert(l[a] != '`');
    }
}

/// In normal mode, a line with no special syntax passes through the
/// scanner unchanged, as exactly one output line, and leaves the state
/// as it was.
pub proof fn lemma_plain_line_step(st: ScanModel, l: Seq<char>)
    requires
        !st.in_code_block,
        !st.in_list,
        plain_line(l),
    ensures
        scan_step(st, l).0 == st,
        scan_step(st, l).1 == seq![l],
{
    lemma_plain_inline_id(l);
    assert(Seq::<Seq<char>>::empty() + seq![l] =~= seq![l]);
}

proof fn lemma_plain_scan(st: ScanModel, lines: Seq<Seq<char>>)
    requires
        !st.in_code_block,
        !st.in_list,
        forall|i: int| 0 <= i < lines.len() ==> plain_line(#[trigger] lines[i]),
    ensures
        scan_all(st, lines).0 == st,
        scan_all(st, lines).1 == lines,
    decreases lines.len(),
{
    if lines.len() == 0 {
        assert(scan_all(st, lines).1 =~= lines);
    } else {
        assert(plain_line(lines[0]));
        lemma_plain_line_step(st, lines[0]);
        assert forall|i: int| 0 <= i < lines.skip(1).len() implies plain_line(
            #[trigger] lines.skip(1)[i],
        ) by {
            assert(lines.skip(1)[i] == lines[i + 1]);
        }
        lemma_plain_scan(st, lines.skip(1));
        assert(seq![lines[0]] + lines.skip(1) =~= lines);
    }
}

/// A document whose every line has no special syntax converts to itself:
/// the output equals the input, line for line.
pub proof fn lemma_plain_document(lines: Seq<Seq<char>>)
    requires
        forall|i: int| 0 <= i < lines.len() ==> plain_line(#[trigger] lines[i]),
    ensures
        md_to_html(lines) == lines,
{
    lemma_plain_scan(initial_state(), lines);
}

/// Converting is idempotent on a document whose output holds no Markdown
/// tokens: running the converter again over that output changes nothing.
pub proof fn lemma_idempotent_on_plain_output(lines: Seq<Seq<char>>)
    requires
        forall|i: int| 0 <= i < md_to_html(lines).len() ==> plain_line(#[trigger] md_to_html(
            lines,
        )[i]),
    ensures
        md_to_html(md_to_html(lines)) == md_to_html(lines),
{
    lemma_plain_document(md_to_html(lines));
}

// ------------------------------------------------------------------
// Fenced code blocks.
// ------------------------------------------------------------------

proof fn lemma_scan_single(st: ScanModel, l: Seq<char>)
    ensures
        scan_all(st, seq![l]).0 == scan_step(st, l).0,
        scan_all(st, seq![l]).1 == scan_step(st, l).1,
{
    let s = seq![l];
    assert(s[0] == l);
    assert(s.skip(1) =~= Seq::<Seq<char>>::empty());
    assert(scan_all(scan_step(st, l).0, s.skip(1)).0 == scan_step(st, l).0);
    assert(scan_all(scan_step(st, l).0, s.skip(1)).1 =~= Seq::<Seq<char>>::empty());
    assert(scan_step(st, l).1 + Seq::<Seq<char>>::empty() =~= scan_step(st, l).1);
}

proof fn lemma_scan_all_concat(st: ScanModel, a: Seq<Seq<char>>, b: Seq<Seq<char>>)
    ensures
        scan_all(st, a + b).0 == scan_all(scan_all(st, a).0, b).0,
        scan_all(st, a + b).1 == scan_all(st, a).1 + scan_all(scan_all(st, a).0, b).1,
    decreases a.len(),
{
    if a.len() == 0 {
        assert(a + b =~= b);
        assert(scan_all(st, a).1 =~= Seq::<Seq<char>>::empty());
        assert(Seq::<Seq<char>>::empty() + scan_all(st, b).1 =~= scan_all(st, b).1);
    } else {
        assert((a + b)[0] == a[0]);
        assert((a + b).skip(1) =~= a.skip(1) + b);
        let st1 = scan_step(st, a[0]).0;
        let out1 = scan_step(st, a[0]).1;
        lemma_scan_all_concat(st1, a.skip(1), b);
        assert(out1 + (scan_all(st1, a.skip(1)).1 + scan_all(scan_all(st1, a.skip(1)).0, b).1)
            =~= (out1 + scan_all(st1, a.skip(1)).1) + scan_all(scan_all(st1, a.skip(1)).0, b).1);
    }
}

proof fn lemma_scan_verbatim(st: ScanModel, lines: Seq<Seq<char>>)
    requires
        st.in_code_block,
        forall|i: int| 0 <= i < lines.len() ==> !is_fence_line(#[trigger] lines[i]),
    ensures
        scan_all(st, lines).0 == st,
        scan_all(st, lines).1 == lines,
    decreases lines.len(),
{
    if lines.len() == 0 {
        assert(scan_all(st, lines).1 =~= lines);
    } else {
        assert(!is_fence_line(lines[0]));
        assert forall|i: int| 0 <= i < lines.skip(1).len() implies !is_fence_line(
            #[trigger] lines.skip(1)[i],
        ) by {
            assert(lines.skip(1)[i] == lines[i + 1]);
        }
        lemma_scan_verbatim(st, lines.skip(1));
        assert(seq![lines[0]] + lines.skip(1) =~= lines);
    }
}

/// A document framed by exactly two fence-marker lines converts to
/// `<pre><code>`, the interior lines verbatim, `</code></pre>`: no
/// inline rewrite touches the interior.
pub proof fn lemma_fenced_block(lines: Seq<Seq<char>>)
    requires
        lines.len() >= 2,
        is_fence_line(lines[0]),
        is_fence_line(lines[lines.len() - 1]),
        forall|i: int| 1 <= i < lines.len() - 1 ==> !is_fence_line(#[trigger] lines[i]),
    ensures
        md_to_html(lines) == seq!["<pre><code>"@] + lines.subrange(1, lines.len() - 1) + seq![
            "</code></pre>"@,
        ],
{
    let first = seq![lines[0]];
    let mid = lines.subrange(1, lines.len() - 1);
    let last = seq![lines[lines.len() - 1]];
    assert(lines =~= (first + mid) + last);
    let st0 = initial_state();
    lemma_scan_all_concat(st0, first + mid, last);
    lemma_scan_all_concat(st0, first, mid);
    lemma_scan_single(st0, lines[0]);
    let st1 = scan_step(st0, lines[0]).0;
    assert(st1.in_code_block);
    assert forall|i: int| 0 <= i < mid.len() implies !is_fence_line(#[trigger] mid[i]) by {
        assert(mid[i] == lines[i + 1]);
    }
    lemma_scan_verbatim(st1, mid);
    lemma_scan_single(st1, lines[lines.len() - 1]);
    let st2 = scan_step(st1, lines[lines.len() - 1]).0;
    assert(!st2.in_list);
    assert(md_to_html(lines) =~= seq!["<pre><code>"@] + mid + seq!["</code></pre>"@]);
}

// ------------------------------------------------------------------
// The list stack.
// ------------------------------------------------------------------

/// The scanner's invariant over the list stack: nothing is owed outside
/// list mode, and every owed tag is a list closing tag.
pub open spec fn stack_wf(st: ScanModel) -> bool {
    &&& !st.in_list ==> st.list_history.len() == 0
    &&& forall|k: int|
        0 <= k < st.list_history.len() ==> #[trigger] st.list_history[k] == "</ul>"@
            || st.list_history[k] == "</ol>"@
}

/// Every step of the scanner preserves the list-stack invariant.
pub proof fn lemma_step_wf(st: ScanModel, l: Seq<char>)
    requires
        stack_wf(st),
    ensures
        stack_wf(scan_step(st, l).0),
{
    let st2 = scan_step(st, l).0;
    if !is_fence_line(l) && !st.in_code_block && is_list_line(l) {
        assert forall|k: int| 0 <= k < st2.list_history.len() implies #[trigger] st2.list_history[k]
            == "</ul>"@ || st2.list_history[k] == "</ol>"@ by {
            if k < st.list_history.len() {
                assert(st.list_history[k] == "</ul>"@ || st.list_history[k] == "</ol>"@);
            }
        }
    }
}

proof fn lemma_scan_wf(st: ScanModel, lines: Seq<Seq<char>>)
    requires
        stack_wf(st),
    ensures
        stack_wf(scan_all(st, lines).0),
    decreases lines.len(),
{
    if lines.len() == 0 {
    } else {
        lemma_step_wf(st, lines[0]);
        lemma_scan_wf(scan_step(st, lines[0]).0, lines.skip(1));
    }
}

/// However the document ends, every closing tag still owed for an open
/// list is emitted, deepest level first, at the very end of the output;
/// outside list mode nothing is owed at all.
pub proof fn lemma_unterminated_list_closed(lines: Seq<Seq<char>>)
    ensures
        ({
            let fin = scan_all(initial_state(), lines).0;
            let body = scan_all(initial_state(), lines).1;
            &&& fin.in_list ==> md_to_html(lines) == body + fin.list_history.reverse()
            &&& !fin.in_list ==> md_to_html(lines) == body && fin.list_history.len() == 0
            &&& forall|k: int|
                0 <= k < fin.list_history.len() ==> #[trigger] fin.list_history[k] == "</ul>"@
                    || fin.list_history[k] == "</ol>"@
        }),
{
    lemma_scan_wf(initial_state(), lines);
}

/// A list line in list mode moves the nesting by at most one level:
/// indenting past the current level pushes exactly one closing tag and
/// emits exactly one opening tag; dedenting pops and emits exactly one;
/// staying level touches the stack not at all.
pub proof fn lemma_indent_step(st: ScanModel, l: Seq<char>)
    requires
        !st.in_code_block,
        st.in_list,
        is_list_line(l),
        !is_fence_line(l),
    ensures
        ({
            let st2 = scan_step(st, l).0;
            let out = scan_step(st, l).1;
            let cur = line_indent(l);
            let item = spec_tail_chain(spec_list_item(spec_bold_italics(l)));
            &&& st2.in_list && st2.indent_level == cur
            &&& cur > st.indent_level ==> st2.list_history == st.list_history.push(
                list_close_tag(l),
            ) && out == seq![list_open_tag(l), item]
            &&& (cur < st.indent_level && st.list_history.len() > 0) ==> st2.list_history
                == st.list_history.drop_last() && out == seq![st.list_history.last(), item]
            &&& (cur < st.indent_level && st.list_history.len() == 0) ==> st2.list_history
                == st.list_history && out == seq![item]
            &&& cur == st.indent_level ==> st2.list_history == st.list_history && out == seq![item]
        }),
{
    let item = spec_tail_chain(spec_list_item(spec_bold_italics(l)));
    let cur = line_indent(l);
    if cur > st.indent_level {
        assert(Seq::<Seq<char>>::empty() + seq![list_open_tag(l)] + seq![item] =~= seq![
            list_open_tag(l),
            item,
        ]);
    } else if cur < st.indent_level && st.list_history.len() > 0 {
        assert(Seq::<Seq<char>>::empty() + seq![st.list_history.last()] + seq![item] =~= seq![
            st.list_history.last(),
            item,
        ]);
    } else {
        assert(Seq::<Seq<char>>::empty() + Seq::<Seq<char>>::empty() + seq![item] =~= seq![item]);
    }
}

// ------------------------------------------------------------------
// Counting output lines.
// ------------------------------------------------------------------

/// How many elements of `ls` equal `x`.
pub open spec fn count_eq(ls: Seq<Seq<char>>, x: Seq<char>) -> int
    decreases ls.len(),
{
    if ls.len() == 0 {
        0
    } else {
        count_eq(ls.drop_last(), x) + if ls.last() == x {
            1int
        } else {
            0int
        }
    }
}

proof fn lemma_count_eq_concat(a: Seq<Seq<char>>, b: Seq<Seq<char>>, x: Seq<char>)
    ensures
        count_eq(a + b, x) == count_eq(a, x) + count_eq(b, x),
    decreases b.len(),
{
    if b.len() == 0 {
        assert(a + b =~= a);
    } else {
        assert((a + b).drop_last() =~= a + b.drop_last());
        assert((a + b).last() == b.last());
        lemma_count_eq_concat(a, b.drop_last(), x);
    }
}

proof fn lemma_count_eq_single(y: Seq<char>, x: Seq<char>)
    ensures
        count_eq(seq![y], x) == if y == x {
            1int
        } else {
            0int
        },
{
    assert(seq![y].drop_last() =~= Seq::<Seq<char>>::empty());
    assert(count_eq(Seq::<Seq<char>>::empty(), x) == 0);
    assert(seq![y].last() == y);
}

proof fn lemma_count_eq_reverse(s: Seq<Seq<char>>, x: Seq<char>)
    ensures
        count_eq(s.reverse(), x) == count_eq(s, x),
    decreases s.len(),
{
    if s.len() == 0 {
        assert(s.reverse() =~= s);
    } else {
        assert(s.reverse() =~= seq![s.last()] + s.drop_last().reverse());
        lemma_count_eq_concat(seq![s.last()], s.drop_last().reverse(), x);
        lemma_count_eq_single(s.last(), x);
        lemma_count_eq_reverse(s.drop_last(), x);
    }
}

proof fn lemma_count_eq_wf_stack(hist: Seq<Seq<char>>, x: Seq<char>)
    requires
        forall|k: int| 0 <= k < hist.len() ==> #[trigger] hist[k] == "</ul>"@ || hist[k]
            == "</ol>"@,
        x != "</ul>"@,
        x != "</ol>"@,
    ensures
        count_eq(hist, x) == 0,
    decreases hist.len(),
{
    if hist.len() > 0 {
        assert(hist.last() == "</ul>"@ || hist.last() == "</ol>"@);
        assert(forall|k: int|
            0 <= k < hist.drop_last().len() ==> #[trigger] hist.drop_last()[k] == hist[k]);
        lemma_count_eq_wf_stack(hist.drop_last(), x);
    }
}


// ------------------------------------------------------------------
// List documents: every level opened is closed again.
// ------------------------------------------------------------------

/// A list line whose item text cannot be mistaken for a list tag line:
/// its trimmed form still opens with the marker (the item text is not
/// all whitespace), and the line holds no backtick, tilde or bracket,
/// and a `'*'` only as the marker itself.
pub open spec fn simple_list_line(l: Seq<char>) -> bool {
    &&& is_list_line(l)
    &&& marker_at(trim_spec(l), 0)
    &&& forall|i: int|
        0 <= i < l.len() ==> (#[trigger] l[i] != '`' && l[i] != '~' && l[i] != '[' && (l[i] == '*'
            ==> i == marker_pos(l)))
}

proof fn lemma_find_wrap_lone(s: Seq<char>, d: Seq<char>, from: int, p: int)
    requires
        1 <= d.len(),
        forall|i: int| occurs_at(s, d, i) ==> i == p,
    ensures
        find_wrap(s, d, from) is None,
    decreases s.len() - from,
{
    if from < 0 || d.len() == 0 || from + d.len() > s.len() {
    } else if occurs_at(s, d, from) {
        assert(from == p);
        lemma_find_at_none(s, d, from + d.len() + 1);
    } else {
        lemma_find_wrap_lone(s, d, from + 1, p);
    }
}

/// The output line a simple list line's item text becomes is never one
/// of the four list tag lines.
proof fn lemma_simple_item(l: Seq<char>)
    requires
        simple_list_line(l),
    ensures
        ({
            let c = spec_tail_chain(spec_list_item(spec_bold_italics(l)));
            &&& c != "<ul>"@
            &&& c != "</ul>"@
            &&& c != "<ol>"@
            &&& c != "</ol>"@
        }),
{
    reveal_strlit("***");
    reveal_strlit("**");
    reveal_strlit("*");
    reveal_strlit("`");
    reveal_strlit("~~");
    reveal_strlit("![");
    reveal_strlit("[");
    reveal_strlit("<li>");
    reveal_strlit("</li>");
    reveal_strlit("<ul>");
    reveal_strlit("</ul>");
    reveal_strlit("<ol>");
    reveal_strlit("</ol>");
    let mp = marker_pos(l);
    lemma_count_leading(l, space_pred());
    // Bold/italic leaves the line alone: a `'*'` stands only at the marker.
    assert forall|i: int| !occurs_at(l, "***"@, i) by {
        if occurs_at(l, "***"@, i) {
            assert(l.subrange(i, i + 3)[0] == '*');
            assert(l.subrange(i, i + 3)[1] == '*');
            assert(l[i] == '*' && l[i + 1] == '*');
        }
    }
    lemma_replace_delim_id(l, "***"@, "<b><i>"@, "</i></b>"@);
    assert forall|i: int| !occurs_at(l, "**"@, i) by {
        if occurs_at(l, "**"@, i) {
            assert(l.subrange(i, i + 2)[0] == '*');
            assert(l.subrange(i, i + 2)[1] == '*');
            assert(l[i] == '*' && l[i + 1] == '*');
        }
    }
    lemma_replace_delim_id(l, "**"@, "<b>"@, "</b>"@);
    assert forall|i: int| occurs_at(l, "*"@, i) implies i == mp by {
        assert(l.subrange(i, i + 1)[0] == '*');
        assert(l[i] == '*');
    }
    lemma_find_wrap_lone(l, "*"@, 0, mp);
    assert(spec_bold_italics(l) == l);
    // The item rewrite wraps the trimmed text in `<li>` tags.
    let t = trim_spec(l);
    let rest = l.skip(mp);
    lemma_count_trailing(rest, space_pred());
    assert forall|k: int| 0 <= k < t.len() implies t[k] == l[mp + k] by {
        assert(t[k] == rest[k]);
    }
    let content = if t[0] == '*' || t[0] == '-' {
        t.skip(2)
    } else {
        t.skip(3)
    };
    let li = spec_list_item(l);
    assert(li == "<li>"@ + content + "</li>"@);
    assert(li.len() == 4 + content.len() + 5);
    assert(li[0] == "<li>"@[0] && li[1] == "<li>"@[1]);
    // No backtick, tilde or bracket stands anywhere in the item line.
    assert forall|i: int| 0 <= i < li.len() implies (li[i] != '`' && li[i] != '~' && li[i]
        != '[') by {
        if i < 4 {
            assert(li[i] == "<li>"@[i]);
        } else if i < 4 + content.len() {
            assert(li[i] == content[i - 4]);
            if t[0] == '*' || t[0] == '-' {
                assert(content[i - 4] == t[i - 4 + 2]);
                assert(t[i - 4 + 2] == l[mp + i - 4 + 2]);
            } else {
                assert(content[i - 4] == t[i - 4 + 3]);
                assert(t[i - 4 + 3] == l[mp + i - 4 + 3]);
            }
        } else {
            assert(li[i] == "</li>"@[i - 4 - content.len()]);
        }
    }
    // The rewrites that follow the list handling leave the item alone.
    assert(count_leading(li, hash_pred()) == 0);
    assert(spec_headers(li) == li);
    lemma_excluded_char_no_occurs(li, "`"@, 0, '`');
    lemma_replace_delim_id(li, "`"@, "<code>"@, "</code>"@);
    assert(count_leading(li, dash_pred()) == 0);
    assert(!is_separator_line(li));
    assert(spec_separator(li) == li);
    lemma_excluded_char_no_occurs(li, "!["@, 1, '[');
    lemma_replace_bracket_id(li, "!["@, "]("@, ")"@, "<img alt=\""@, "\" src=\""@, "\">"@, false);
    lemma_excluded_char_no_occurs(li, "["@, 0, '[');
    lemma_replace_bracket_id(li, "["@, "]("@, ")"@, "<a href=\""@, "\">"@, "</a>"@, true);
    lemma_excluded_char_no_occurs(li, "~~"@, 0, '~');
    lemma_replace_delim_id(li, "~~"@, "<s>"@, "</s>"@);
    assert(spec_tail_chain(spec_list_item(spec_bold_italics(l))) == li);
    // The item line's second character is 'l'; each tag line's is not.
    assert(li[1] == 'l');
}

proof fn lemma_count_eq_push(s: Seq<Seq<char>>, y: Seq<char>, x: Seq<char>)
    ensures
        count_eq(s.push(y), x) == count_eq(s, x) + if y == x {
            1int
        } else {
            0int
        },
{
    assert(s.push(y).drop_last() =~= s);
    assert(s.push(y).last() == y);
}

proof fn lemma_count_eq_pair(a: Seq<char>, b: Seq<char>, x: Seq<char>)
    ensures
        count_eq(seq![a, b], x) == (if a == x {
            1int
        } else {
            0int
        }) + (if b == x {
            1int
        } else {
            0int
        }),
{
    assert(seq![a, b].drop_last() =~= seq![a]);
    assert(seq![a, b].last() == b);
    lemma_count_eq_single(a, x);
}

proof fn lemma_simple_list_step(st: ScanModel, l: Seq<char>)
    requires
        stack_wf(st),
        !st.in_code_block,
        simple_list_line(l),
    ensures
        ({
            let st2 = scan_step(st, l).0;
            let out = scan_step(st, l).1;
            &&& stack_wf(st2)
            &&& !st2.in_code_block
            &&& count_eq(out, "<ul>"@) + count_eq(st.list_history, "</ul>"@) == count_eq(
                out,
                "</ul>"@,
            ) + count_eq(st2.list_history, "</ul>"@)
            &&& count_eq(out, "<ol>"@) + count_eq(st.list_history, "</ol>"@) == count_eq(
                out,
                "</ol>"@,
            ) + count_eq(st2.list_history, "</ol>"@)
        }),
{
    reveal_strlit("<ul>");
    reveal_strlit("</ul>");
    reveal_strlit("<ol>");
    reveal_strlit("</ol>");
    assert("<ul>"@[1] == 'u' && "</ul>"@[1] == '/' && "<ol>"@[1] == 'o' && "</ol>"@[1] == '/');
    assert("<ul>"@[2] == 'l' && "<ol>"@[2] == 'l' && "</ul>"@[2] == 'u' && "</ol>"@[2] == 'o');
    assert("<ul>"@ != "</ul>"@ && "<ul>"@ != "<ol>"@ && "<ul>"@ != "</ol>"@);
    assert("<ol>"@ != "</ul>"@ && "<ol>"@ != "</ol>"@ && "</ul>"@ != "</ol>"@);
    lemma_simple_item(l);
    lemma_step_wf(st, l);
    // A list line is no fence line: its first trimmed character is the marker.
    let t = trim_spec(l);
    assert(t[0] != '`');
    assert(!is_fence_line(l));
    let c = spec_tail_chain(spec_list_item(spec_bold_italics(l)));
    let st2 = scan_step(st, l).0;
    let out = scan_step(st, l).1;
    let cur = line_indent(l);
    if !st.in_list || cur > st.indent_level {
        assert(out =~= seq![list_open_tag(l), c]);
        lemma_count_eq_pair(list_open_tag(l), c, "<ul>"@);
        lemma_count_eq_pair(list_open_tag(l), c, "</ul>"@);
        lemma_count_eq_pair(list_open_tag(l), c, "<ol>"@);
        lemma_count_eq_pair(list_open_tag(l), c, "</ol>"@);
        lemma_count_eq_push(st.list_history, list_close_tag(l), "</ul>"@);
        lemma_count_eq_push(st.list_history, list_close_tag(l), "</ol>"@);
    } else if cur < st.indent_level && st.list_history.len() > 0 {
        let last = st.list_history.last();
        assert(last == "</ul>"@ || last == "</ol>"@);
        assert(out =~= seq![last, c]);
        lemma_count_eq_pair(last, c, "<ul>"@);
        lemma_count_eq_pair(last, c, "</ul>"@);
        lemma_count_eq_pair(last, c, "<ol>"@);
        lemma_count_eq_pair(last, c, "</ol>"@);
    } else {
        assert(out =~= seq![c]);
        lemma_count_eq_single(c, "<ul>"@);
        lemma_count_eq_single(c, "</ul>"@);
        lemma_count_eq_single(c, "<ol>"@);
        lemma_count_eq_single(c, "</ol>"@);
    }
}

proof fn lemma_simple_list_scan(st: ScanModel, lines: Seq<Seq<char>>)
    requires
        stack_wf(st),
        !st.in_code_block,
        forall|i: int| 0 <= i < lines.len() ==> simple_list_line(#[trigger] lines[i]),
    ensures
        ({
            let fin = scan_all(st, lines).0;
            let out = scan_all(st, lines).1;
            &&& stack_wf(fin)
            &&& !fin.in_code_block
            &&& count_eq(out, "<ul>"@) + count_eq(st.list_history, "</ul>"@) == count_eq(
                out,
                "</ul>"@,
            ) + count_eq(fin.list_history, "</ul>"@)
            &&& count_eq(out, "<ol>"@) + count_eq(st.list_history, "</ol>"@) == count_eq(
                out,
                "</ol>"@,
            ) + count_eq(fin.list_history, "</ol>"@)
        }),
    decreases lines.len(),
{
    if lines.len() == 0 {
    } else {
        assert(simple_list_line(lines[0]));
        lemma_simple_list_step(st, lines[0]);
        let st1 = scan_step(st, lines[0]).0;
        let out1 = scan_step(st, lines[0]).1;
        assert forall|i: int| 0 <= i < lines.skip(1).len() implies simple_list_line(
            #[trigger] lines.skip(1)[i],
        ) by {
            assert(lines.skip(1)[i] == lines[i + 1]);
        }
        lemma_simple_list_scan(st1, lines.skip(1));
        let out2 = scan_all(st1, lines.skip(1)).1;
        lemma_count_eq_concat(out1, out2, "<ul>"@);
        lemma_count_eq_concat(out1, out2, "</ul>"@);
        lemma_count_eq_concat(out1, out2, "<ol>"@);
        lemma_count_eq_concat(out1, out2, "</ol>"@);
    }
}

/// Over a document of simple list lines, the converter emits as many
/// `<ul>` lines as `</ul>` lines and as many `<ol>` lines as `</ol>`
/// lines: every level opened is closed again by document end.  The
/// pending tags live on a stack, so closers meet their openers
/// last-in, first-out.
pub proof fn lemma_list_document_balanced(lines: Seq<Seq<char>>)
    requires
        forall|i: int| 0 <= i < lines.len() ==> simple_list_line(#[trigger] lines[i]),
    ensures
        count_eq(md_to_html(lines), "<ul>"@) == count_eq(md_to_html(lines), "</ul>"@),
        count_eq(md_to_html(lines), "<ol>"@) == count_eq(md_to_html(lines), "</ol>"@),
{
    reveal_strlit("<ul>");
    reveal_strlit("</ul>");
    reveal_strlit("<ol>");
    reveal_strlit("</ol>");
    assert("<ul>"@[1] == 'u' && "</ul>"@[1] == '/' && "<ol>"@[1] == 'o' && "</ol>"@[1] == '/');
    assert("<ul>"@[2] == 'l' && "<ol>"@[2] == 'l' && "</ul>"@[2] == 'u' && "</ol>"@[2] == 'o');
    assert("<ul>"@ != "</ul>"@ && "<ul>"@ != "<ol>"@ && "<ul>"@ != "</ol>"@);
    assert("<ol>"@ != "</ul>"@ && "<ol>"@ != "</ol>"@ && "</ul>"@ != "</ol>"@);
    lemma_simple_list_scan(initial_state(), lines);
    let fin = scan_all(initial_state(), lines).0;
    let out = scan_all(initial_state(), lines).1;
    assert(count_eq(Seq::<Seq<char>>::empty(), "</ul>"@) == 0);
    assert(count_eq(Seq::<Seq<char>>::empty(), "</ol>"@) == 0);
    if fin.in_list {
        let pending = fin.list_history.reverse();
        lemma_count_eq_concat(out, pending, "<ul>"@);
        lemma_count_eq_concat(out, pending, "</ul>"@);
        lemma_count_eq_concat(out, pending, "<ol>"@);
        lemma_count_eq_concat(out, pending, "</ol>"@);
        lemma_count_eq_reverse(fin.list_history, "<ul>"@);
        lemma_count_eq_reverse(fin.list_history, "</ul>"@);
        lemma_count_eq_reverse(fin.list_history, "<ol>"@);
        lemma_count_eq_reverse(fin.list_history, "</ol>"@);
        lemma_count_eq_wf_stack(fin.list_history, "<ul>"@);
        lemma_count_eq_wf_stack(fin.list_history, "<ol>"@);
    } else {
        assert(fin.list_history =~= Seq::<Seq<char>>::empty());
    }
}

} // verus!
