use oxd::display::Display;
use oxd::models::Domain;
use oxd::models::Entry;
use oxd::models::Example;
use oxd::models::HeadwordEntry;
use oxd::models::LexicalCategory;
use oxd::models::LexicalEntry;
use oxd::models::Pronunciation;
use oxd::models::Region;
use oxd::models::Register;
use oxd::models::RetrieveEntry;
use oxd::models::Sense;
use oxd::models::VariantForm;

fn plain() {
    colored::control::set_override(false);
}

fn styled() {
    colored::control::set_override(true);
}

fn text_of<T: Display>(value: &T) -> String {
    let mut canvas = String::new();
    value.display(&mut canvas);
    canvas
}

fn html_of<T: Display>(value: &T) -> String {
    let mut canvas = String::new();
    value.to_html(&mut canvas);
    canvas
}

fn pron(spelling: &str) -> Pronunciation {
    Pronunciation {
        phonetic_spelling: Some(spelling.to_string()),
        phonetic_notation: "IPA".to_string(),
        audio_file: None,
    }
}

fn sense(definition: &str) -> Sense {
    Sense {
        definitions: Some(vec![definition.to_string()]),
        examples: None,
        subsenses: None,
        domains: None,
        cross_reference_markers: None,
        registers: None,
    }
}

fn undefined_sense() -> Sense {
    Sense {
        definitions: None,
        examples: None,
        subsenses: None,
        domains: None,
        cross_reference_markers: None,
        registers: None,
    }
}

fn entry(pronunciations: Option<Vec<Pronunciation>>, senses: Option<Vec<Sense>>) -> Entry {
    Entry { senses, pronunciations, variant_forms: None, origins: None }
}

fn lexical(category: &str, entries: Vec<Entry>) -> LexicalEntry {
    LexicalEntry {
        entries,
        language: "en-us".to_string(),
        lexical_category: LexicalCategory { id: category.to_string(), text: "Shown".to_string() },
        derivative_of: None,
        text: "word".to_string(),
    }
}

fn head(word: &str, lexical_entries: Vec<LexicalEntry>) -> HeadwordEntry {
    HeadwordEntry {
        id: word.to_string(),
        language: "en-us".to_string(),
        lexical_entries,
        type_: "headword".to_string(),
        word: word.to_string(),
    }
}

fn lookup(headword_entries: Vec<HeadwordEntry>) -> RetrieveEntry {
    RetrieveEntry {
        id: Some("test".to_string()),
        metadata: serde_json::Value::Null,
        headword_entries,
        word: Some("test".to_string()),
    }
}

fn test_lookup(definition: &str) -> RetrieveEntry {
    lookup(vec![head(
        "test",
        vec![lexical("noun", vec![entry(Some(vec![pron("tɛst")]), Some(vec![sense(definition)]))])],
    )])
}

#[test]
fn definition_gets_a_full_stop() {
    plain();
    assert_eq!(text_of(&"a reddish coating".to_string()), "a reddish coating.\n");
    assert_eq!(html_of(&"a reddish coating".to_string()), "a reddish coating.<br>");
}

#[test]
fn definition_with_a_full_stop_stays() {
    plain();
    assert_eq!(text_of(&"already ends.".to_string()), "already ends.\n");
    assert_eq!(html_of(&"already ends.".to_string()), "already ends.<br>");
}

#[test]
fn absent_value_renders_nothing() {
    plain();
    let absent: Option<String> = None;
    let mut canvas = String::from("kept");
    absent.display(&mut canvas);
    absent.to_html(&mut canvas);
    assert_eq!(canvas, "kept");
    assert_eq!(text_of(&Some("x".to_string())), "x.\n");
}

#[test]
fn list_renders_its_items_in_order() {
    plain();
    let list = vec!["one".to_string(), "two.".to_string(), "three".to_string()];
    assert_eq!(text_of(&list), "one.\ntwo.\nthree.\n");
    assert_eq!(html_of(&list), "one.<br>two.<br>three.<br>");
    assert_eq!(text_of(&Vec::<String>::new()), "");
    assert_eq!(text_of(&Some(Vec::<String>::new())), "");
}

#[test]
fn rendering_appends_to_the_canvas() {
    plain();
    let mut canvas = String::from("before|");
    "x".to_string().display(&mut canvas);
    "y".to_string().to_html(&mut canvas);
    assert_eq!(canvas, "before|x.\ny.<br>");
}

#[test]
fn tags_stand_in_square_brackets() {
    plain();
    let domain = Domain { id: "chemistry".to_string(), text: "Chemistry".to_string() };
    let register = Register { id: "informal".to_string(), text: "informal".to_string() };
    assert_eq!(text_of(&domain), "[Chemistry] ");
    assert_eq!(html_of(&domain), "[Chemistry] ");
    assert_eq!(text_of(&register), "[informal] ");
    assert_eq!(html_of(&register), "[informal] ");
}

#[test]
fn pronunciation_shows_ipa_spelling_only() {
    plain();
    assert_eq!(text_of(&pron("tɛst")), "/tɛst/ ");
    assert_eq!(html_of(&pron("tɛst")), "/tɛst/ ");
    let mut respelled = pron("test");
    respelled.phonetic_notation = "respell".to_string();
    assert_eq!(text_of(&respelled), "");
    assert_eq!(html_of(&respelled), "");
    let mut unspelled = pron("test");
    unspelled.phonetic_spelling = None;
    assert_eq!(text_of(&unspelled), "");
    let mut lower = pron("test");
    lower.phonetic_notation = "ipa".to_string();
    assert_eq!(text_of(&lower), "");
}

#[test]
fn variant_form_names_its_first_region() {
    plain();
    let bare = VariantForm { regions: None, text: "colour".to_string() };
    assert_eq!(text_of(&bare), " (also colour) ");
    assert_eq!(html_of(&bare), " (also colour) ");
    let regional = VariantForm {
        regions: Some(vec![
            Region { id: "gb".to_string(), text: "British".to_string() },
            Region { id: "ca".to_string(), text: "Canadian".to_string() },
        ]),
        text: "colour".to_string(),
    };
    assert_eq!(text_of(&regional), " (also colour [British]) ");
    assert_eq!(html_of(&regional), " (also colour [British]) ");
    let no_region = VariantForm { regions: Some(vec![]), text: "colour".to_string() };
    assert_eq!(text_of(&no_region), " (also colour) ");
}

#[test]
fn example_is_trimmed_and_quoted() {
    plain();
    let example = Example { text: "  rust never sleeps \n".to_string() };
    assert_eq!(text_of(&example), "\"rust never sleeps\"\n");
    assert_eq!(html_of(&example), "\"rust never sleeps\"<br>");
}

#[test]
fn example_is_blue_and_italic_when_styled() {
    styled();
    let example = Example { text: " rust never sleeps".to_string() };
    assert_eq!(text_of(&example), "\u{1b}[3;34m\"rust never sleeps\"\u{1b}[0m\n");
    assert_eq!(html_of(&example), "\"rust never sleeps\"<br>");
}

#[test]
fn category_is_italic_when_styled() {
    styled();
    let shown = lexical("noun", vec![entry(Some(vec![pron("tɛst")]), None)]);
    assert_eq!(text_of(&shown), "\n\u{1b}[3mnoun\u{1b}[0m  /tɛst/ \n");
    plain();
    assert_eq!(text_of(&shown), "\nnoun  /tɛst/ \n");
}

#[test]
fn sense_is_a_bullet_block() {
    plain();
    assert_eq!(text_of(&sense("a reddish coating")), "- a reddish coating.\n");
    assert_eq!(html_of(&sense("a reddish coating")), "<li>a reddish coating.<br><ul></ul></li>");
}

#[test]
fn sense_without_definition_renders_nothing() {
    styled();
    let mut busy = undefined_sense();
    busy.examples = Some(vec![Example { text: "shown nowhere".to_string() }]);
    busy.domains = Some(vec![Domain { id: "d".to_string(), text: "Chemistry".to_string() }]);
    busy.registers = Some(vec![Register { id: "r".to_string(), text: "informal".to_string() }]);
    busy.subsenses = Some(vec![sense("a subsense that is lost with it")]);
    busy.definitions = Some(vec![]);
    assert_eq!(text_of(&busy), "");
    assert_eq!(html_of(&busy), "");
    let mut canvas = String::from("kept");
    busy.display(&mut canvas);
    busy.to_html(&mut canvas);
    assert_eq!(canvas, "kept");
}

#[test]
fn sense_with_a_marker_only_is_shown() {
    plain();
    let mut marked = undefined_sense();
    marked.cross_reference_markers = Some(vec!["see oxide".to_string()]);
    assert_eq!(text_of(&marked), "- see oxide.\n");
    assert_eq!(html_of(&marked), "<li>see oxide.<br><ul></ul></li>");
}

#[test]
fn sense_shows_its_parts_in_order() {
    plain();
    let full = Sense {
        definitions: Some(vec!["a coating".to_string(), "a disease of plants.".to_string()]),
        examples: Some(vec![
            Example { text: " rust never sleeps ".to_string() },
            Example { text: "a spot of rust".to_string() },
        ]),
        subsenses: Some(vec![sense("a colour")]),
        domains: Some(vec![Domain { id: "d".to_string(), text: "Chemistry".to_string() }]),
        cross_reference_markers: Some(vec!["see oxide".to_string()]),
        registers: Some(vec![Register { id: "r".to_string(), text: "informal".to_string() }]),
    };
    assert_eq!(
        text_of(&full),
        "- [Chemistry] [informal] \n  a coating.\n  a disease of plants.\n  see oxide.\n  \
         \"rust never sleeps\"\n  \"a spot of rust\"\n  - a colour.\n"
    );
    assert_eq!(
        html_of(&full),
        "<li>[Chemistry] [informal] <br>a coating.<br>a disease of plants.<br>see oxide.<br>\
         \"rust never sleeps\"<br>\"a spot of rust\"<br><ul><li>a colour.<br><ul></ul></li></ul></li>"
    );
}

#[test]
fn tags_get_a_line_only_where_there_are_any() {
    plain();
    let mut registered = sense("a coating");
    registered.registers = Some(vec![Register { id: "r".to_string(), text: "informal".to_string() }]);
    assert_eq!(text_of(&registered), "- [informal] \n  a coating.\n");
    assert_eq!(html_of(&registered), "<li>[informal] <br>a coating.<br><ul></ul></li>");
    let mut untagged = sense("a coating");
    untagged.domains = Some(vec![]);
    untagged.registers = Some(vec![]);
    assert_eq!(text_of(&untagged), "- a coating.\n");
    assert_eq!(html_of(&untagged), "<li>a coating.<br><ul></ul></li>");
}

#[test]
fn subsense_stands_one_indent_unit_deeper() {
    plain();
    let mut outer = sense("a reddish coating");
    outer.subsenses = Some(vec![sense("the colour of it")]);
    assert_eq!(text_of(&outer), "- a reddish coating.\n  - the colour of it.\n");
    assert_eq!(
        html_of(&outer),
        "<li>a reddish coating.<br><ul><li>the colour of it.<br><ul></ul></li></ul></li>"
    );
}

#[test]
fn indentation_grows_with_depth() {
    plain();
    let mut deepest = sense("d");
    deepest.examples = Some(vec![Example { text: "deep".to_string() }]);
    let mut third = sense("c");
    third.subsenses = Some(vec![deepest]);
    let mut second = sense("b");
    second.subsenses = Some(vec![third, sense("c2")]);
    let mut first = sense("a");
    first.subsenses = Some(vec![undefined_sense(), second, sense("b2")]);
    assert_eq!(
        text_of(&first),
        "- a.\n  - b.\n    - c.\n      - d.\n        \"deep\"\n    - c2.\n  - b2.\n"
    );
}

#[test]
fn styled_example_is_indented_with_its_sense() {
    styled();
    let mut inner = sense("b");
    inner.examples = Some(vec![Example { text: "x".to_string() }]);
    let mut outer = sense("a");
    outer.subsenses = Some(vec![inner]);
    assert_eq!(text_of(&outer), "- a.\n  - b.\n    \u{1b}[3;34m\"x\"\u{1b}[0m\n");
}

#[test]
fn line_feed_inside_a_definition_is_indented_too() {
    plain();
    assert_eq!(text_of(&sense("two\nlines")), "- two\n  lines.\n");
}

#[test]
fn entry_shows_its_pronunciation_on_a_fresh_canvas() {
    plain();
    let spoken = entry(Some(vec![pron("tɛst"), pron("test")]), Some(vec![sense("a trial")]));
    assert_eq!(text_of(&spoken), "/tɛst/ /test/ \n- a trial.\n");
    assert_eq!(html_of(&spoken), "/tɛst/ /test/ </p><ul><li>a trial.<br><ul></ul></li></ul>");
}

#[test]
fn entry_keeps_its_pronunciation_back_after_a_slash() {
    plain();
    let spoken = entry(Some(vec![pron("tɛst")]), None);
    let mut canvas = String::from("test  /tɛst/ \n\nnoun  ");
    spoken.display(&mut canvas);
    assert_eq!(canvas, "test  /tɛst/ \n\nnoun  \n");
    let mut canvas = String::from("either/or  ");
    spoken.display(&mut canvas);
    assert_eq!(canvas, "either/or  \n");
    let mut canvas = String::from("test  \n/elsewhere/");
    spoken.display(&mut canvas);
    assert_eq!(canvas, "test  \n/elsewhere//tɛst/ \n");
}

#[test]
fn html_entry_keeps_its_pronunciation_back_after_a_slash() {
    plain();
    let spoken = entry(Some(vec![pron("tɛst")]), None);
    let mut canvas = String::from("<p>test  /tɛst/ </p><p><i>noun</i>  ");
    spoken.to_html(&mut canvas);
    assert_eq!(canvas, "<p>test  /tɛst/ </p><p><i>noun</i>  </p><ul></ul>");
    let mut canvas = String::from("<p>test  </p><p><i>noun</i>  ");
    spoken.to_html(&mut canvas);
    assert_eq!(canvas, "<p>test  </p><p><i>noun</i>  /tɛst/ </p><ul></ul>");
    let mut canvas = String::from("<p><i>noun</i>  ");
    spoken.to_html(&mut canvas);
    assert_eq!(canvas, "<p><i>noun</i>  </p><ul></ul>");
}

#[test]
fn entry_shows_variant_forms_before_its_senses() {
    plain();
    let mut varied = entry(None, Some(vec![sense("a hue"), undefined_sense(), sense("a tint")]));
    varied.variant_forms = Some(vec![
        VariantForm { regions: None, text: "colour".to_string() },
        VariantForm {
            regions: Some(vec![Region { id: "us".to_string(), text: "US".to_string() }]),
            text: "color".to_string(),
        },
    ]);
    varied.origins = Some(vec!["Latin".to_string()]);
    assert_eq!(text_of(&varied), " (also colour)  (also color [US]) \n- a hue.\n- a tint.\n");
    assert_eq!(
        html_of(&varied),
        " (also colour)  (also color [US]) </p><ul><li>a hue.<br><ul></ul></li>\
         <li>a tint.<br><ul></ul></li></ul>"
    );
}

#[test]
fn lexical_entry_without_content_renders_nothing() {
    styled();
    let hollow = lexical("noun", vec![entry(None, None), entry(Some(vec![]), Some(vec![]))]);
    assert_eq!(text_of(&hollow), "");
    assert_eq!(html_of(&hollow), "");
    let none = lexical("verb", vec![]);
    assert_eq!(text_of(&none), "");
    assert_eq!(html_of(&none), "");
    let mut canvas = String::from("kept");
    hollow.display(&mut canvas);
    hollow.to_html(&mut canvas);
    assert_eq!(canvas, "kept");
}

#[test]
fn lexical_entry_shows_category_and_entries() {
    plain();
    let shown = lexical("noun", vec![entry(None, Some(vec![sense("a trial")]))]);
    assert_eq!(text_of(&shown), "\nnoun  \n- a trial.\n");
    assert_eq!(html_of(&shown), "<p><i>noun</i>  </p><ul><li>a trial.<br><ul></ul></li></ul>");
}

#[test]
fn headword_without_lexical_entries() {
    plain();
    let lone = head("rust", vec![]);
    assert_eq!(text_of(&lone), "rust  \n\n");
    assert_eq!(html_of(&lone), "<p>rust  </p>");
    let hollow = head("rust", vec![lexical("noun", vec![])]);
    assert_eq!(text_of(&hollow), "rust  \n\n");
    assert_eq!(html_of(&hollow), "<p>rust  </p>");
}

#[test]
fn headword_with_consistent_pronunciation_shows_it_once() {
    plain();
    let h = head(
        "rust",
        vec![
            lexical("noun", vec![entry(Some(vec![pron("rʌst")]), Some(vec![sense("a coating")]))]),
            lexical("verb", vec![entry(Some(vec![pron("rʌst")]), Some(vec![sense("to corrode")]))]),
        ],
    );
    assert_eq!(
        text_of(&h),
        "rust  /rʌst/ \n\nnoun  \n- a coating.\n\nverb  \n- to corrode.\n\n"
    );
    assert_eq!(
        html_of(&h),
        "<p>rust  /rʌst/ </p><p><i>noun</i>  </p><ul><li>a coating.<br><ul></ul></li></ul>\
         <p><i>verb</i>  </p><ul><li>to corrode.<br><ul></ul></li></ul>"
    );
}

#[test]
fn headword_with_different_pronunciations_leaves_them_to_the_entries() {
    plain();
    let h = head(
        "lead",
        vec![
            lexical("noun", vec![entry(Some(vec![pron("lɛd")]), Some(vec![sense("a metal")]))]),
            lexical("verb", vec![entry(Some(vec![pron("liːd")]), Some(vec![sense("to guide")]))]),
        ],
    );
    assert_eq!(
        text_of(&h),
        "lead  \n\nnoun  /lɛd/ \n- a metal.\n\nverb  /liːd/ \n- to guide.\n\n"
    );
    assert_eq!(
        html_of(&h),
        "<p>lead  </p><p><i>noun</i>  /lɛd/ </p><ul><li>a metal.<br><ul></ul></li></ul>\
         <p><i>verb</i>  /liːd/ </p><ul><li>to guide.<br><ul></ul></li></ul>"
    );
}

#[test]
fn headline_pronunciation_comes_from_the_first_entry() {
    plain();
    let h = head(
        "rust",
        vec![
            lexical("noun", vec![entry(None, Some(vec![sense("a coating")]))]),
            lexical("verb", vec![entry(Some(vec![pron("rʌst")]), Some(vec![sense("to corrode")]))]),
        ],
    );
    assert_eq!(
        text_of(&h),
        "rust  \n\nnoun  \n- a coating.\n\nverb  /rʌst/ \n- to corrode.\n\n"
    );
}

#[test]
fn end_to_end_text() {
    plain();
    let rendered = text_of(&test_lookup("A procedure for critical evaluation"));
    assert_eq!(
        rendered,
        "test  /tɛst/ \n\nnoun  \n- A procedure for critical evaluation.\n\n"
    );
    let lines: Vec<&str> = rendered.lines().collect();
    assert!(lines[0].starts_with("test"));
    assert!(lines[0].contains("/tɛst/"));
    assert!(lines.contains(&"- A procedure for critical evaluation."));
}

#[test]
fn end_to_end_text_keeps_the_case_of_the_definition() {
    plain();
    let rendered = text_of(&test_lookup("a procedure for critical evaluation"));
    assert_eq!(
        rendered,
        "test  /tɛst/ \n\nnoun  \n- a procedure for critical evaluation.\n\n"
    );
}

#[test]
fn end_to_end_text_styled() {
    styled();
    let rendered = text_of(&test_lookup("A procedure for critical evaluation"));
    assert_eq!(
        rendered,
        "test  /tɛst/ \n\n\u{1b}[3mnoun\u{1b}[0m  \n- A procedure for critical evaluation.\n\n"
    );
}

#[test]
fn end_to_end_html() {
    let rendered = html_of(&test_lookup("A procedure for critical evaluation"));
    assert_eq!(
        rendered,
        "<p>test  /tɛst/ </p><p><i>noun</i>  </p><ul>\
         <li>A procedure for critical evaluation.<br><ul></ul></li></ul>"
    );
}

#[test]
fn headwords_do_not_see_each_other() {
    plain();
    let spoken = head(
        "rust",
        vec![lexical("noun", vec![entry(Some(vec![pron("rʌst")]), None)])],
    );
    let split = head(
        "lead",
        vec![
            lexical("noun", vec![entry(Some(vec![pron("lɛd")]), None)]),
            lexical("verb", vec![entry(Some(vec![pron("liːd")]), None)]),
        ],
    );
    let both = lookup(vec![spoken, split]);
    let mut canvas = String::from("see/above\n");
    both.display(&mut canvas);
    assert_eq!(
        canvas,
        "see/above\nrust  /rʌst/ \n\nnoun  \n\nlead  \n\nnoun  /lɛd/ \n\nverb  /liːd/ \n\n"
    );
    let mut page = String::from("<p>a/b</p>");
    both.to_html(&mut page);
    assert_eq!(
        page,
        "<p>a/b</p><p>rust  /rʌst/ </p><p><i>noun</i>  </p><ul></ul>\
         <p>lead  </p><p><i>noun</i>  /lɛd/ </p><ul></ul><p><i>verb</i>  /liːd/ </p><ul></ul>"
    );
}

#[test]
fn headword_on_a_used_canvas_looks_at_its_first_line() {
    plain();
    let split = head(
        "lead",
        vec![
            lexical("noun", vec![entry(Some(vec![pron("lɛd")]), None)]),
            lexical("verb", vec![entry(Some(vec![pron("liːd")]), None)]),
        ],
    );
    let mut canvas = String::from("see/above ");
    split.display(&mut canvas);
    assert_eq!(canvas, "see/above lead  \n\nnoun  \n\nverb  \n\n");
}

#[test]
fn empty_lookup_renders_nothing() {
    plain();
    let nothing = lookup(vec![]);
    assert_eq!(text_of(&nothing), "");
    assert_eq!(html_of(&nothing), "");
}
