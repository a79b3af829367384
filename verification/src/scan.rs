//! The line scanner: the stateful walk over a document's lines.
//!
//! The scanner owns the document-level state — whether the current line
//! sits inside a fenced code block, and the stack of list levels still
//! open — and dispatches each line either to verbatim output or through
//! the inline rewriters.

use vstd::prelude::*;

use crate::chars::blank_pred;
use crate::chars::count_leading;
use crate::chars::count_leading_blanks;
use crate::chars::count_leading_spaces;
use crate::chars::lemma_count_leading;
use crate::chars::space_pred;
use crate::chars::to_chars;
use crate::chars::to_string;
use crate::chars::trim_chars;
use crate::chars::trim_spec;
use crate::rewrite::bold_italics_chars;
use crate::rewrite::code_chars;
use crate::rewrite::headers_chars;
use crate::rewrite::images_chars;
use crate::rewrite::is_list_line;
use crate::rewrite::is_list_line_exec;
use crate::rewrite::links_chars;
use crate::rewrite::list_is_ul;
use crate::rewrite::list_item_chars;
use crate::rewrite::separator_chars;
use crate::rewrite::spec_bold_italics;
use crate::rewrite::spec_code;
use crate::rewrite::spec_headers;
use crate::rewrite::spec_images;
use crate::rewrite::spec_links;
use crate::rewrite::spec_list_item;
use crate::rewrite::spec_separator;
use crate::rewrite::spec_strike;
use crate::rewrite::strike_chars;
use vstd::string::StringExecFns;

verus! {

/// The views of a sequence of owned lines.
pub open spec fn doc_view(lines: Seq<String>) -> Seq<Seq<char>> {
    Seq::new(lines.len(), |i: int| lines[i]@)
}

/// The scanner's state, as the contracts speak of it.
#[verifier::ext_equal]
pub ghost struct ScanModel {
    pub in_code_block: bool,
    pub in_list: bool,
    pub indent_level: int,
    pub list_history: Seq<Seq<char>>,
}

/// The scanner's state: code-fence mode, list mode, the current list
/// nesting depth, and the stack of closing tags still owed, deepest last.
pub struct ScanState {
    pub in_code_block: bool,
    pub in_list: bool,
    pub indent_level: usize,
    pub list_history: Vec<String>,
}

impl View for ScanState {
    type V = ScanModel;

    open spec fn view(&self) -> ScanModel {
        ScanModel {
            in_code_block: self.in_code_block,
            in_list: self.in_list,
            indent_level: self.indent_level as int,
            list_history: doc_view(self.list_history@),
        }
    }
}

/// The state a conversion starts from: outside any fence, outside any
/// list, with nothing owed.
pub open spec fn initial_state() -> ScanModel {
    ScanModel { in_code_block: false, in_list: false, indent_level: 0, list_history: Seq::empty() }
}

impl ScanState {
    /// A fresh scanner state.
    pub fn new() -> (s: ScanState)
        ensures
            s@ == initial_state(),
    {
        let s = ScanState {
            in_code_block: false,
            in_list: false,
            indent_level: 0,
            list_history: Vec::new(),
        };
        proof {
            assert(s@ =~= initial_state());
        }
        s
    }
}

/// The trimmed line opens with three backticks: a fence marker.
pub open spec fn starts_fence(t: Seq<char>) -> bool {
    t.len() >= 3 && t[0] == '`' && t[1] == '`' && t[2] == '`'
}

/// A line that toggles code-fence mode.
pub open spec fn is_fence_line(l: Seq<char>) -> bool {
    starts_fence(trim_spec(l))
}

/// The list nesting depth a line asks for: its leading plain spaces,
/// four to a level.
pub open spec fn line_indent(l: Seq<char>) -> int {
    count_leading(l, blank_pred()) / 4
}

/// The opening tag a list line introduces.
pub open spec fn list_open_tag(l: Seq<char>) -> Seq<char> {
    if list_is_ul(l) {
        "<ul>"@
    } else {
        "<ol>"@
    }
}

/// The closing tag owed for the level a list line introduces.
pub open spec fn list_close_tag(l: Seq<char>) -> Seq<char> {
    if list_is_ul(l) {
        "</ul>"@
    } else {
        "</ol>"@
    }
}

/// How a list line changes the list state, and the open or close tag
/// line it emits.  Entering list mode, or indenting past the current
/// level, opens exactly one level; dedenting closes exactly one, if any
/// level is still open.
pub open spec fn list_update(st: ScanModel, l: Seq<char>) -> (ScanModel, Seq<Seq<char>>) {
    let cur = line_indent(l);
    if !st.in_list || cur > st.indent_level {
        (
            ScanModel {
                in_list: true,
                indent_level: cur,
                list_history: st.list_history.push(list_close_tag(l)),
                ..st
            },
            seq![list_open_tag(l)],
        )
    } else if cur < st.indent_level && st.list_history.len() > 0 {
        (
            ScanModel {
                in_list: true,
                indent_level: cur,
                list_history: st.list_history.drop_last(),
                ..st
            },
            seq![st.list_history.last()],
        )
    } else {
        (ScanModel { in_list: true, indent_level: cur, ..st }, Seq::empty())
    }
}

/// One step of the scanner: the state after a line, and the output lines
/// the line produces, in order.
pub open spec fn scan_step(st: ScanModel, l: Seq<char>) -> (ScanModel, Seq<Seq<char>>) {
    if is_fence_line(l) {
        (
            ScanModel { in_code_block: !st.in_code_block, ..st },
            seq![
                if !st.in_code_block {
                    "<pre><code>"@
                } else {
                    "</code></pre>"@
                },
            ],
        )
    } else if st.in_code_block {
        (st, seq![l])
    } else {
        let leaving = st.in_list && !is_list_line(l);
        let closing: Seq<Seq<char>> = if leaving {
            st.list_history.reverse()
        } else {
            Seq::empty()
        };
        let st1 = if leaving {
            ScanModel { in_list: false, indent_level: 0, list_history: Seq::empty(), ..st }
        } else {
            st
        };
        let h1 = spec_bold_italics(l);
        if is_list_line(l) {
            let (st2, tags) = list_update(st1, l);
            (st2, closing + tags + seq![spec_tail_chain(spec_list_item(h1))])
        } else if trim_spec(l).len() == 0 {
            (st1, closing + seq!["<br />"@])
        } else {
            (st1, closing + seq![spec_tail_chain(h1)])
        }
    }
}

/// The inline rewrites that follow bold/italic and list handling, in
/// their fixed order: headers, inline code, horizontal rule, images,
/// links, strikethrough.
pub open spec fn spec_tail_chain(s: Seq<char>) -> Seq<char> {
    spec_strike(spec_links(spec_images(spec_separator(spec_code(spec_headers(s))))))
}

/// The scanner run over a whole document from a given state.
pub open spec fn scan_all(st: ScanModel, lines: Seq<Seq<char>>) -> (ScanModel, Seq<Seq<char>>)
    decreases lines.len(),
{
    if lines.len() == 0 {
        (st, Seq::empty())
    } else {
        let (st1, out1) = scan_step(st, lines[0]);
        let (st2, out2) = scan_all(st1, lines.skip(1));
        (st2, out1 + out2)
    }
}

/// The whole conversion: the scanner over every line from the initial
/// state, then every closing tag still owed, deepest first.
pub open spec fn md_to_html(lines: Seq<Seq<char>>) -> Seq<Seq<char>> {
    let (st, out) = scan_all(initial_state(), lines);
    if st.in_list {
        out + st.list_history.reverse()
    } else {
        out
    }
}

pub proof fn lemma_scan_all_snoc(st: ScanModel, lines: Seq<Seq<char>>, l: Seq<char>)
    ensures
        scan_all(st, lines.push(l)).0 == scan_step(scan_all(st, lines).0, l).0,
        scan_all(st, lines.push(l)).1 == scan_all(st, lines).1 + scan_step(
            scan_all(st, lines).0,
            l,
        ).1,
    decreases lines.len(),
{
    let whole = lines.push(l);
    if lines.len() == 0 {
        assert(whole[0] == l);
        assert(whole.skip(1) =~= Seq::<Seq<char>>::empty());
        assert(scan_all(st, lines).0 == st);
        let out2 = scan_step(st, l).1;
        assert(scan_all(scan_step(st, whole[0]).0, whole.skip(1)).1 == Seq::<Seq<char>>::empty());
        assert(scan_all(st, whole).1 == out2 + Seq::<Seq<char>>::empty());
        assert(out2 + Seq::<Seq<char>>::empty() =~= Seq::<Seq<char>>::empty() + out2);
    } else {
        assert(whole[0] == lines[0]);
        assert(whole.skip(1) =~= lines.skip(1).push(l));
        let sta = scan_step(st, lines[0]).0;
        let outa = scan_step(st, lines[0]).1;
        lemma_scan_all_snoc(sta, lines.skip(1), l);
        let st1 = scan_all(sta, lines.skip(1)).0;
        let out1 = scan_all(sta, lines.skip(1)).1;
        let out2 = scan_step(st1, l).1;
        assert(scan_all(st, whole).0 == scan_all(sta, whole.skip(1)).0);
        assert(scan_all(st, whole).1 == outa + scan_all(sta, whole.skip(1)).1);
        assert(scan_all(st, lines).0 == st1);
        assert(scan_all(st, lines).1 == outa + out1);
        assert(outa + (out1 + out2) =~= (outa + out1) + out2);
    }
}

/// Empties the stack of open-list closing tags into the output, deepest
/// level first.
pub fn close_lists(list_hist: &mut Vec<String>, new_lines: &mut Vec<String>)
    ensures
        final(list_hist)@.len() == 0,
        doc_view(final(new_lines)@) == doc_view(old(new_lines)@) + doc_view(
            old(list_hist)@,
        ).reverse(),
{
    while list_hist.len() > 0
        invariant
            doc_view(new_lines@) + doc_view(list_hist@).reverse() == doc_view(old(new_lines)@)
                + doc_view(old(list_hist)@).reverse(),
        decreases list_hist@.len(),
    {
        let ghost hist_prev = doc_view(list_hist@);
        let ghost lines_prev = doc_view(new_lines@);
        let tag = list_hist.pop().unwrap();
        new_lines.push(tag);
        proof {
            assert(doc_view(list_hist@) =~= hist_prev.drop_last());
            assert(doc_view(new_lines@) =~= lines_prev.push(hist_prev.last()));
            assert(hist_prev.reverse() =~= seq![hist_prev.last()] + hist_prev.drop_last().reverse());
            assert(doc_view(new_lines@) + doc_view(list_hist@).reverse() =~= lines_prev
                + hist_prev.reverse());
        }
    }
    proof {
        assert(doc_view(list_hist@).reverse() =~= Seq::<Seq<char>>::empty());
        assert(doc_view(new_lines@) + Seq::<Seq<char>>::empty() =~= doc_view(new_lines@));
    }
}

/// One line through the scanner: updates the state and appends the
/// line's output lines, exactly as `scan_step` says.
#[verifier::rlimit(80)]
pub fn scan_line(state: &mut ScanState, line: &String, out: &mut Vec<String>)
    ensures
        final(state)@ == scan_step(old(state)@, line@).0,
        doc_view(final(out)@) == doc_view(old(out)@) + scan_step(old(state)@, line@).1,
{
    let ghost st0 = state@;
    let ghost out0 = doc_view(out@);
    let chars = to_chars(line.as_str());
    let trimmed = trim_chars(&chars);
    let fence = trimmed.len() >= 3 && {
        let a = trimmed[0] == '`';
        let b = trimmed[1] == '`';
        let c = trimmed[2] == '`';
        a && b && c
    };
    proof {
        assert(fence == is_fence_line(line@));
    }
    if fence {
        state.in_code_block = !state.in_code_block;
        if state.in_code_block {
            out.push(String::from_str("<pre><code>"));
        } else {
            out.push(String::from_str("</code></pre>"));
        }
        proof {
            assert(state@ =~= scan_step(st0, line@).0);
            assert(doc_view(out@) =~~= out0 + scan_step(st0, line@).1);
        }
        return;
    }
    if state.in_code_block {
        out.push(line.clone());
        proof {
            assert(state@ =~= scan_step(st0, line@).0);
            assert(doc_view(out@) =~~= out0 + scan_step(st0, line@).1);
        }
        return;
    }
    let listy = is_list_line_exec(&chars);
    if state.in_list && !listy {
        state.in_list = false;
        state.indent_level = 0;
        close_lists(&mut state.list_history, out);
    }
    let ghost st1 = if st0.in_list && !is_list_line(line@) {
        ScanModel { in_list: false, indent_level: 0, list_history: Seq::empty(), ..st0 }
    } else {
        st0
    };
    let ghost closing: Seq<Seq<char>> = if st0.in_list && !is_list_line(line@) {
        st0.list_history.reverse()
    } else {
        Seq::empty()
    };
    proof {
        assert(state@ =~= st1);
        assert(doc_view(out@) =~= out0 + closing);
    }
    let cl = chars.len();
    let copy = crate::chars::subvec(&chars, 0, cl);
    proof {
        assert(copy@ =~= chars@);
    }
    let mut html = bold_italics_chars(copy);
    if listy {
        let cur = count_leading_blanks(&chars) / 4;
        let ghost out1 = doc_view(out@);
        if !state.in_list || cur > state.indent_level {
            let a = count_leading_spaces(&chars);
            proof {
                lemma_count_leading(chars@, space_pred());
                assert(a + 3 <= chars@.len());
            }
            let c = chars[a];
            let ul = c == '*' || c == '-';
            proof {
                assert(ul == list_is_ul(line@));
            }
            if ul {
                out.push(String::from_str("<ul>"));
                state.list_history.push(String::from_str("</ul>"));
            } else {
                out.push(String::from_str("<ol>"));
                state.list_history.push(String::from_str("</ol>"));
            }
            state.in_list = true;
            state.indent_level = cur;
            proof {
                assert(state@.list_history =~= st1.list_history.push(list_close_tag(line@)));
                assert(state@ =~= list_update(st1, line@).0);
                assert(doc_view(out@) =~= out1 + list_update(st1, line@).1);
            }
        } else if cur < state.indent_level && state.list_history.len() > 0 {
            let ghost hist_prev = doc_view(state.list_history@);
            let tag = state.list_history.pop().unwrap();
            out.push(tag);
            state.in_list = true;
            state.indent_level = cur;
            proof {
                assert(state@.list_history =~= st1.list_history.drop_last());
                assert(state@ =~= list_update(st1, line@).0);
                assert(doc_view(out@) =~= out1 + list_update(st1, line@).1);
            }
        } else {
            state.in_list = true;
            state.indent_level = cur;
            proof {
                assert(state@ =~= list_update(st1, line@).0);
                assert(doc_view(out@) =~= out1 + list_update(st1, line@).1);
            }
        }
        html = list_item_chars(&html);
        html = headers_chars(html);
        html = code_chars(html);
        html = separator_chars(html);
        html = images_chars(&html);
        html = links_chars(&html);
        html = strike_chars(html);
        let ghost content = spec_tail_chain(spec_list_item(spec_bold_italics(line@)));
        let ghost out_pre = doc_view(out@);
        out.push(to_string(&html));
        proof {
            assert(state@ == scan_step(st0, line@).0);
            assert(html@ == content);
            assert(out_pre == out1 + list_update(st1, line@).1);
            assert(doc_view(out@) =~~= out_pre.push(content));
            assert(scan_step(st0, line@).1 == closing + list_update(st1, line@).1 + seq![content]);
            assert(doc_view(out@) =~~= out0 + scan_step(st0, line@).1);
        }
        return;
    }
    if trimmed.len() == 0 {
        let ghost out_pre = doc_view(out@);
        out.push(String::from_str("<br />"));
        proof {
            assert(state@ == scan_step(st0, line@).0);
            assert(out_pre == out0 + closing);
            assert(doc_view(out@) =~~= out_pre.push("<br />"@));
            assert(scan_step(st0, line@).1 == closing + seq!["<br />"@]);
            assert(out_pre.push("<br />"@) =~~= out0 + (closing + seq!["<br />"@]));
            assert(doc_view(out@) =~~= out0 + scan_step(st0, line@).1);
        }
        return;
    }
    html = headers_chars(html);
    html = code_chars(html);
    html = separator_chars(html);
    html = images_chars(&html);
    html = links_chars(&html);
    html = strike_chars(html);
    let ghost content = spec_tail_chain(spec_bold_italics(line@));
    let ghost out_pre = doc_view(out@);
    out.push(to_string(&html));
    proof {
        assert(state@ == scan_step(st0, line@).0);
        assert(html@ == content);
        assert(out_pre == out0 + closing);
        assert(doc_view(out@) =~~= out_pre.push(content));
        assert(scan_step(st0, line@).1 == closing + seq![content]);
        assert(doc_view(out@) =~~= out0 + scan_step(st0, line@).1);
    }
}

/// Converts a whole document: every line through the scanner, then
/// every closing tag still owed.
pub fn parse_file(content: Vec<String>) -> (r: Vec<String>)
    ensures
        doc_view(r@) == md_to_html(doc_view(content@)),
{
    let ghost doc = doc_view(content@);
    let mut new_lines: Vec<String> = Vec::new();
    let mut state = ScanState::new();
    let n = content.len();
    let mut k: usize = 0;
    proof {
        assert(doc.take(0) =~= Seq::<Seq<char>>::empty());
        assert(scan_all(initial_state(), doc.take(0)).1 =~= doc_view(new_lines@));
    }
    while k < n
        invariant
            n == content@.len(),
            k <= n,
            doc == doc_view(content@),
            state@ == scan_all(initial_state(), doc.take(k as int)).0,
            doc_view(new_lines@) == scan_all(initial_state(), doc.take(k as int)).1,
        decreases n - k,
    {
        let ghost prefix = doc.take(k as int);
        scan_line(&mut state, &content[k], &mut new_lines);
        proof {
            lemma_scan_all_snoc(initial_state(), prefix, doc[k as int]);
            assert(doc.take(k + 1) =~= prefix.push(doc[k as int]));
            assert(content@[k as int]@ == doc[k as int]);
        }
        k += 1;
    }
    proof {
        assert(doc.take(n as int) =~= doc);
    }
    if state.in_list {
        close_lists(&mut state.list_history, &mut new_lines);
    }
    proof {
        assert(doc_view(new_lines@) =~= md_to_html(doc));
    }
    new_lines
}

} // verus!
