use mdhtml::rewrite::parse_bold_italics;
use mdhtml::rewrite::parse_code;
use mdhtml::rewrite::parse_headers;
use mdhtml::rewrite::parse_images;
use mdhtml::rewrite::parse_links;
use mdhtml::rewrite::parse_lists;
use mdhtml::rewrite::parse_separator;
use mdhtml::rewrite::parse_strike;

#[test]
fn header_level_three() {
    assert_eq!(parse_headers(String::from("### Title")), "<h3>Title</h3>");
}

#[test]
fn header_seven_hashes_unchanged() {
    assert_eq!(parse_headers(String::from("####### x")), "####### x");
}

#[test]
fn header_no_hashes_unchanged() {
    assert_eq!(parse_headers(String::from("plain")), "plain");
}

#[test]
fn header_trailing_hash_kept() {
    assert_eq!(parse_headers(String::from("# a #")), "<h1>a #</h1>");
}

#[test]
fn bold_italic_mixed() {
    assert_eq!(
        parse_bold_italics(String::from("*a* **b** ***c***")),
        "<i>a</i> <b>b</b> <b><i>c</i></b>"
    );
}

#[test]
fn bold_unclosed_unchanged() {
    assert_eq!(parse_bold_italics(String::from("** a")), "** a");
}

#[test]
fn italic_nongreedy() {
    assert_eq!(parse_bold_italics(String::from("*a* and *b*")), "<i>a</i> and <i>b</i>");
}

#[test]
fn inline_code_basic() {
    assert_eq!(parse_code(String::from("`x`")), "<code>x</code>");
}

#[test]
fn inline_code_two_spans() {
    assert_eq!(parse_code(String::from("`a` and `b`")), "<code>a</code> and <code>b</code>");
}

#[test]
fn separator_three_dashes() {
    assert_eq!(parse_separator(String::from("---")), "<hr>");
}

#[test]
fn separator_many_dashes_trailing_spaces() {
    assert_eq!(parse_separator(String::from("------  ")), "<hr>");
}

#[test]
fn separator_two_dashes_unchanged() {
    assert_eq!(parse_separator(String::from("--")), "--");
}

#[test]
fn image_basic() {
    assert_eq!(
        parse_images(String::from("![alt](a.png)")),
        "<img alt=\"alt\" src=\"a.png\">"
    );
}

#[test]
fn image_empty_alt() {
    assert_eq!(parse_images(String::from("![](x)")), "<img alt=\"\" src=\"x\">");
}

#[test]
fn image_before_link_no_double_rewrite() {
    let once = parse_images(String::from("![alt](a.png)"));
    assert_eq!(parse_links(once), "<img alt=\"alt\" src=\"a.png\">");
}

#[test]
fn link_basic() {
    assert_eq!(parse_links(String::from("[t](u)")), "<a href=\"u\">t</a>");
}

#[test]
fn strike_basic() {
    assert_eq!(parse_strike(String::from("~~x~~")), "<s>x</s>");
}

#[test]
fn list_item_star() {
    assert_eq!(parse_lists(String::from("* a")), "<li>a</li>");
}

#[test]
fn list_item_dash() {
    assert_eq!(parse_lists(String::from("- a")), "<li>a</li>");
}

#[test]
fn list_item_numbered() {
    assert_eq!(parse_lists(String::from("1. b")), "<li>b</li>");
}

#[test]
fn list_item_indented_is_trimmed() {
    assert_eq!(parse_lists(String::from("    * c")), "<li>c</li>");
}

#[test]
fn list_item_marker_must_open_the_line() {
    assert_eq!(parse_lists(String::from("x * y")), "x * y");
}

#[test]
fn link_empty_text() {
    assert_eq!(parse_links(String::from("[](x)")), "<a href=\"x\"></a>");
}

#[test]
fn two_links_in_one_line() {
    assert_eq!(
        parse_links(String::from("[a](b) [c](d)")),
        "<a href=\"b\">a</a> <a href=\"d\">c</a>"
    );
}

#[test]
fn triple_star_inner_star_kept() {
    assert_eq!(parse_bold_italics(String::from("***c***")), "<b><i>c</i></b>");
}

#[test]
fn separator_with_inner_space_unchanged() {
    assert_eq!(parse_separator(String::from("--- -")), "--- -");
}
