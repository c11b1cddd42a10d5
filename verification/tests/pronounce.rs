use oxd::models::Entry;
use oxd::models::HeadwordEntry;
use oxd::models::LexicalCategory;
use oxd::models::LexicalEntry;
use oxd::models::Pronunciation;
use oxd::models::RetrieveEntry;
use oxd::pronounce::Pronounce;

fn sound(file: Option<&str>) -> Pronunciation {
    Pronunciation {
        phonetic_spelling: None,
        phonetic_notation: "IPA".to_string(),
        audio_file: file.map(|f| f.to_string()),
    }
}

fn sounding(pronunciations: Option<Vec<Pronunciation>>) -> Entry {
    Entry { senses: None, pronunciations, variant_forms: None, origins: None }
}

fn group(entries: Vec<Entry>) -> LexicalEntry {
    LexicalEntry {
        entries,
        language: "en-us".to_string(),
        lexical_category: LexicalCategory { id: "noun".to_string(), text: "Noun".to_string() },
        derivative_of: None,
        text: "lead".to_string(),
    }
}

fn word(lexical_entries: Vec<LexicalEntry>) -> HeadwordEntry {
    HeadwordEntry {
        id: "lead".to_string(),
        language: "en-us".to_string(),
        lexical_entries,
        type_: "headword".to_string(),
        word: "lead".to_string(),
    }
}

#[test]
fn pronunciation_lists_its_audio_file() {
    assert_eq!(sound(Some("a.mp3")).audio_files(), vec!["a.mp3".to_string()]);
    assert!(sound(None).audio_files().is_empty());
}

#[test]
fn absent_value_has_no_audio() {
    let absent: Option<Pronunciation> = None;
    assert!(absent.audio_files().is_empty());
    assert_eq!(Some(sound(Some("a.mp3"))).audio_files(), vec!["a.mp3".to_string()]);
}

#[test]
fn entry_lists_its_audio_files_in_order() {
    let e = sounding(Some(vec![sound(Some("a.mp3")), sound(None), sound(Some("b.mp3"))]));
    assert_eq!(e.audio_files(), vec!["a.mp3".to_string(), "b.mp3".to_string()]);
    assert!(sounding(None).audio_files().is_empty());
}

#[test]
fn lexical_entry_lists_the_audio_of_every_entry() {
    let l = group(vec![
        sounding(Some(vec![sound(Some("a.mp3"))])),
        sounding(None),
        sounding(Some(vec![sound(Some("b.mp3")), sound(Some("a.mp3"))])),
    ]);
    assert_eq!(
        l.audio_files(),
        vec!["a.mp3".to_string(), "b.mp3".to_string(), "a.mp3".to_string()]
    );
}

#[test]
fn headword_plays_its_first_lexical_entry_only() {
    let h = word(vec![
        group(vec![sounding(Some(vec![sound(Some("led.mp3"))]))]),
        group(vec![sounding(Some(vec![sound(Some("leed.mp3"))]))]),
    ]);
    assert_eq!(h.audio_files(), vec!["led.mp3".to_string()]);
    assert!(word(vec![]).audio_files().is_empty());
    let silent_first = word(vec![
        group(vec![]),
        group(vec![sounding(Some(vec![sound(Some("leed.mp3"))]))]),
    ]);
    assert!(silent_first.audio_files().is_empty());
}

#[test]
fn lookup_plays_every_headword() {
    let r = RetrieveEntry {
        id: None,
        metadata: serde_json::Value::Null,
        headword_entries: vec![
            word(vec![group(vec![sounding(Some(vec![sound(Some("one.mp3"))]))])]),
            word(vec![]),
            word(vec![group(vec![sounding(Some(vec![sound(Some("two.mp3"))]))])]),
        ],
        word: None,
    };
    assert_eq!(r.audio_files(), vec!["one.mp3".to_string(), "two.mp3".to_string()]);
}
