use oxd::text::bullet_lines;
use oxd::text::chars_of;
use oxd::text::first_line_has_slash;
use oxd::text::has_full_stop;
use oxd::text::html_head_has_slash;
use oxd::text::indent;
use oxd::text::is_whitespace;
use oxd::text::push_chars;
use oxd::text::push_sentence;
use oxd::text::quote;
use oxd::text::trim;

#[test]
fn white_space_is_what_std_calls_white_space() {
    let mut code: u32 = 0;
    while code <= 0x10ffff {
        if let Some(c) = char::from_u32(code) {
            assert_eq!(is_whitespace(c), c.is_whitespace(), "U+{:04X}", code);
        }
        code += 1;
    }
}

#[test]
fn trim_agrees_with_std() {
    let samples = [
        "",
        " ",
        "a",
        "  a reddish coating  ",
        "\t\n tabs and feeds \r\n",
        "\u{a0}no-break\u{a0}",
        "\u{3000}ideographic\u{2003}",
        "inner  spaces stay",
        " \u{200b}zero width is no space\u{200b} ",
        "   ",
        "ˈrʌst ",
    ];
    for s in samples {
        assert_eq!(trim(s), s.trim());
    }
    assert_eq!(trim("  a reddish coating  "), "a reddish coating");
    assert_eq!(trim(" \t\n"), "");
}

#[test]
fn full_stop_is_found_only_at_the_end() {
    assert!(has_full_stop("already ends."));
    assert!(has_full_stop("."));
    assert!(!has_full_stop("a reddish coating"));
    assert!(!has_full_stop(""));
    assert!(!has_full_stop("e.g"));
    assert!(!has_full_stop("ends. "));
    assert!(!has_full_stop("fin。"));
}

#[test]
fn sentence_gets_one_full_stop() {
    let mut out = String::from(">");
    push_sentence(&mut out, "a reddish coating");
    assert_eq!(out, ">a reddish coating.");
    let mut out = String::new();
    push_sentence(&mut out, "already ends.");
    assert_eq!(out, "already ends.");
    let mut out = String::new();
    push_sentence(&mut out, "");
    assert_eq!(out, ".");
}

#[test]
fn quote_wraps_in_double_quotes() {
    assert_eq!(quote("rust never sleeps"), "\"rust never sleeps\"");
    assert_eq!(quote(""), "\"\"");
}

#[test]
fn indent_follows_every_line_feed() {
    assert_eq!(indent(""), "");
    assert_eq!(indent("one line"), "one line");
    assert_eq!(indent("a\nb\n"), "a\n  b\n  ");
    assert_eq!(indent("\n\n"), "\n  \n  ");
    assert_eq!(indent("a\nb\n"), "a\nb\n".replace("\n", "\n  "));
    assert_eq!(indent("tɛst\n- x\n"), "tɛst\n  - x\n  ");
}

#[test]
fn bullet_lines_make_a_block() {
    assert_eq!(bullet_lines("a coating.\n"), "- a coating.\n");
    assert_eq!(bullet_lines("a.\n- b.\n"), "- a.\n  - b.\n");
    assert_eq!(bullet_lines("a.\n- b.\n  - c.\n"), "- a.\n  - b.\n    - c.\n");
    assert_eq!(bullet_lines(""), "- ");
    assert_eq!(bullet_lines("x"), "- ");
    assert_eq!(bullet_lines("xyz"), "- x");
}

#[test]
fn chars_are_listed_one_by_one() {
    assert_eq!(chars_of("tɛst"), vec!['t', 'ɛ', 's', 't']);
    assert!(chars_of("").is_empty());
}

#[test]
fn push_chars_appends_a_range() {
    let v = vec!['a', 'b', 'c', 'd'];
    let mut out = String::from("x");
    push_chars(&mut out, &v, 1, 3);
    assert_eq!(out, "xbc");
    push_chars(&mut out, &v, 2, 2);
    assert_eq!(out, "xbc");
    push_chars(&mut out, &v, 0, 4);
    assert_eq!(out, "xbcabcd");
}

#[test]
fn slash_is_looked_for_in_the_first_line_only() {
    assert!(first_line_has_slash("rust  /rʌst/ \n"));
    assert!(first_line_has_slash("/"));
    assert!(first_line_has_slash("a/b"));
    assert!(!first_line_has_slash(""));
    assert!(!first_line_has_slash("rust  \n/rʌst/"));
    assert!(!first_line_has_slash("\n/"));
    assert!(!first_line_has_slash("rust"));
    assert!(first_line_has_slash("either/or\nnext"));
}

#[test]
fn slash_is_looked_for_before_the_first_closing_paragraph() {
    assert!(html_head_has_slash("<p>rust  /rʌst/ </p>"));
    assert!(!html_head_has_slash("<p>rust  </p><p><i>noun</i>  /x/"));
    assert!(!html_head_has_slash(""));
    assert!(!html_head_has_slash("<p>rust  "));
    assert!(!html_head_has_slash("</p>"));
    assert!(html_head_has_slash("</"));
    assert!(html_head_has_slash("</p"));
    assert!(html_head_has_slash("</i>"));
    assert!(html_head_has_slash("<p><i>noun</i>  </p>"));
    assert!(html_head_has_slash("a/b</p>"));
    assert!(!html_head_has_slash("<<</p>/"));
    assert!(html_head_has_slash("/</p>"));
}
