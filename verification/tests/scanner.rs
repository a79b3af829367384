use mdhtml::scan::parse_file;
use mdhtml::scan::close_lists;

fn doc(lines: &[&str]) -> Vec<String> {
    lines.iter().map(|l| String::from(*l)).collect()
}

#[test]
fn plain_line_passes_through() {
    assert_eq!(parse_file(doc(&["just text"])), doc(&["just text"]));
}

#[test]
fn fence_block_verbatim() {
    assert_eq!(
        parse_file(doc(&["```", "*x*", "```"])),
        doc(&["<pre><code>", "*x*", "</code></pre>"])
    );
}

#[test]
fn fence_protects_header() {
    assert_eq!(
        parse_file(doc(&["```", "# not a header", "```"])),
        doc(&["<pre><code>", "# not a header", "</code></pre>"])
    );
}

#[test]
fn list_opens_and_closes_before_blank() {
    assert_eq!(
        parse_file(doc(&["* a", "* b", ""])),
        doc(&["<ul>", "<li>a</li>", "<li>b</li>", "</ul>", "<br />"])
    );
}

#[test]
fn nested_list_push_pop_once() {
    assert_eq!(
        parse_file(doc(&["* a", "    * b", "* c"])),
        doc(&["<ul>", "<li>a</li>", "<ul>", "<li>b</li>", "</ul>", "<li>c</li>", "</ul>"])
    );
}

#[test]
fn unterminated_list_still_closed() {
    assert_eq!(parse_file(doc(&["* a"])), doc(&["<ul>", "<li>a</li>", "</ul>"]));
}

#[test]
fn ordered_list_uses_ol() {
    assert_eq!(parse_file(doc(&["1. a"])), doc(&["<ol>", "<li>a</li>", "</ol>"]));
}

#[test]
fn blank_line_becomes_break() {
    assert_eq!(parse_file(doc(&[""])), doc(&["<br />"]));
}

#[test]
fn list_closes_on_plain_text() {
    assert_eq!(
        parse_file(doc(&["* a", "text"])),
        doc(&["<ul>", "<li>a</li>", "</ul>", "text"])
    );
}

#[test]
fn header_through_pipeline() {
    assert_eq!(parse_file(doc(&["### Title"])), doc(&["<h3>Title</h3>"]));
}

#[test]
fn separator_through_pipeline() {
    assert_eq!(parse_file(doc(&["---"])), doc(&["<hr>"]));
}

#[test]
fn image_through_pipeline() {
    assert_eq!(
        parse_file(doc(&["![alt](a.png)"])),
        doc(&["<img alt=\"alt\" src=\"a.png\">"])
    );
}

#[test]
fn emphasis_on_list_marker_line() {
    assert_eq!(parse_file(doc(&["* *a*"])), doc(&["<ul>", "<i> </i>a*", "</ul>"]));
}

#[test]
fn deep_dedent_pops_at_most_what_is_open() {
    assert_eq!(
        parse_file(doc(&["        * a", "    * b", "* c"])),
        doc(&["<ul>", "<li>a</li>", "</ul>", "<li>b</li>", "<li>c</li>"])
    );
}

#[test]
fn rerun_on_output_is_identity() {
    let input = doc(&["# T", "text", "* a", ""]);
    let once = parse_file(input);
    let twice = parse_file(once.clone());
    assert_eq!(twice, once);
}

#[test]
fn whole_document() {
    let input = doc(&[
        "# Notes",
        "",
        "Some *emphasis* and `code`.",
        "* one",
        "* two",
        "    1. nested",
        "done [here](url) ~~gone~~",
        "---",
        "```",
        "* raw",
        "```",
    ]);
    let expected = doc(&[
        "<h1>Notes</h1>",
        "<br />",
        "Some <i>emphasis</i> and <code>code</code>.",
        "<ul>",
        "<li>one</li>",
        "<li>two</li>",
        "<ol>",
        "<li>nested</li>",
        "</ol>",
        "</ul>",
        "done <a href=\"url\">here</a> <s>gone</s>",
        "<hr>",
        "<pre><code>",
        "* raw",
        "</code></pre>",
    ]);
    assert_eq!(parse_file(input), expected);
}

#[test]
fn mid_line_dash_is_not_a_list_item() {
    assert_eq!(parse_file(doc(&["a - b"])), doc(&["a - b"]));
}

#[test]
fn mid_line_markers_survive_a_second_run() {
    let once = parse_file(doc(&["x - a - b"]));
    assert_eq!(once, doc(&["x - a - b"]));
    assert_eq!(parse_file(once.clone()), once);
}

#[test]
fn list_document_tags_balance() {
    let out = parse_file(doc(&["- a", "    1. b", "        - c", "- d"]));
    assert_eq!(
        out,
        doc(&[
            "<ul>", "<li>a</li>", "<ol>", "<li>b</li>", "<ul>", "<li>c</li>", "</ul>",
            "<li>d</li>", "</ol>", "</ul>",
        ])
    );
    let count = |tag: &str| out.iter().filter(|l| *l == tag).count();
    assert_eq!(count("<ul>"), count("</ul>"));
    assert_eq!(count("<ol>"), count("</ol>"));
}

#[test]
fn close_lists_drains_deepest_first() {
    let mut hist = doc(&["</ul>", "</ol>"]);
    let mut out = doc(&["x"]);
    close_lists(&mut hist, &mut out);
    assert_eq!(hist.len(), 0);
    assert_eq!(out, doc(&["x", "</ol>", "</ul>"]));
}
