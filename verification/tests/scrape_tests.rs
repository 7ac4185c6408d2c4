use executor::cambridge;
use executor::collins;
use executor::oxford;
use executor::scrape::{
    description, element_to_url, elements, first_element, inner_text, merge_definitions_into,
    mp3_element, mp3_element_to_url, DictionaryEntry,
};

#[test]
fn elements_test() {
    let html = r#"<ul><li class="w">one</li><li class="w">two</li><li>three</li></ul>"#;
    let found = elements(r#"li[class="w"]"#, html, true);
    assert_eq!(2, found.len());
    assert_eq!("one", found[0]);
    assert_eq!("two", found[1]);

    let none = elements(r#"li[class="missing"]"#, html, true);
    assert!(none.is_empty());

    let bad_selector = elements("][", html, true);
    assert!(bad_selector.is_empty());
}

#[test]
fn first_element_test() {
    let html = r#"<div><p>first</p><p>second</p></div>"#;
    let first = first_element("p", html, true).expect("a paragraph is present");
    assert_eq!("first", first);
    assert!(first_element("table", html, true).is_none());
}

#[test]
fn mp3_element_test() {
    let html = r#"<div><source type="audio/mpeg" src="/media/english/word.mp3"/></div>"#;
    let element = mp3_element(r#"source[type="audio/mpeg"]"#, html).expect("an audio source");
    assert!(!element.is_empty());
    assert!(element.contains("/media/english/word.mp3"));
}

#[test]
fn element_to_url_test() {
    let source = r#"src="https://host/English/Word.mp3" other words"#;
    assert_eq!(
        Some(String::from("https://host/english/word.mp3")),
        element_to_url(source, "https://", ".mp3")
    );
    assert_eq!(None, element_to_url("", "https://", ".mp3"));
    assert_eq!(None, element_to_url("nothing useful here", "https://", ".mp3"));
}

#[test]
fn mp3_element_to_url_test() {
    let source = r#"<source src="/media/english/cease.mp3" type="audio/mpeg">"#;
    assert_eq!(
        Some(String::from("/media/english/cease.mp3")),
        mp3_element_to_url(source, "/media")
    );
}

#[test]
fn cambridge_mp3_url_test() {
    let html = r#"<div><source type="audio/mpeg" src="/media/english/uk_cease.mp3"/></div>"#;
    assert_eq!(
        Some(String::from(
            "https://dictionary.cambridge.org/media/english/uk_cease.mp3"
        )),
        cambridge::mp3_url(html)
    );
    assert_eq!(None, cambridge::mp3_url("<div>no audio</div>"));
}

#[test]
fn collins_mp3_url_test() {
    let html = r#"<a class="hwd_sound sound audio_play_button icon-volume-up ptr" data-src-mp3="https://host/a.mp3">x</a>"#;
    assert_eq!(Some(String::from("https://host/a.mp3")), collins::mp3_url(html));
}

#[test]
fn oxford_definitions_test() {
    let html = r#"<div class="entry"><span class="def">to make something <a href="x">right</a></span><span class="def">free from  mistakes</span></div>"#;
    let defs = oxford::to_definitions(html);
    assert_eq!(2, defs.len());
    assert_eq!("to make something right", defs[0]);
    assert_eq!("free from mistakes", defs[1]);
}

#[test]
fn inner_text_test() {
    let flattened =
        inner_text(String::from(r#"a <a href="y">linked</a> word"#), "a").expect("flattens");
    assert_eq!("a linked word", flattened);

    let untouched = inner_text(String::from("plain text"), "a").expect("no tags");
    assert_eq!("plain text", untouched);
}

#[test]
fn description_test() {
    let cleaned = description(String::from(
        "to put  something\n<span>in order</span> ,   OK .",
    ))
    .expect("cleanable");
    assert_eq!("to put something in order , OK.", cleaned);
}

#[test]
fn check_for_redirects_test() {
    let straight = r#"<link rel="canonical" href="https://www.oxfordlearnersdictionaries.com/definition/english/correct"/>"#;
    assert!(!oxford::check_for_redirects("correct", straight));

    let redirected = r#"<link rel="canonical" href="https://www.oxfordlearnersdictionaries.com/definition/english/correct_1"/>"#;
    assert!(oxford::check_for_redirects("correct", redirected));

    assert!(!oxford::check_for_redirects("correct", "<div>no canonical</div>"));
}

#[test]
fn check_for_more_test() {
    let sibling = r#"<link rel="canonical" href="https://www.oxfordlearnersdictionaries.com/definition/english/correct_1"/>"#;
    assert_eq!(
        Some(String::from(
            "https://www.oxfordlearnersdictionaries.com/definition/english/correct_2"
        )),
        oxford::check_for_more("correct", sibling)
    );

    let second = r#"<link rel="canonical" href="https://www.oxfordlearnersdictionaries.com/definition/english/correct_2"/>"#;
    assert_eq!(
        Some(String::from(
            "https://www.oxfordlearnersdictionaries.com/definition/english/correct_3"
        )),
        oxford::check_for_more("correct", second)
    );

    let straight = r#"<link rel="canonical" href="https://www.oxfordlearnersdictionaries.com/definition/english/correct"/>"#;
    assert_eq!(None, oxford::check_for_more("correct", straight));
}

#[test]
fn merge_definitions_test() {
    let mut base = DictionaryEntry {
        source: executor::scrape::Dictionary::Oxford,
        url: String::from("u"),
        word: String::from("w"),
        mp3_link: None,
        file: None,
        definitions: vec![String::from("one")],
    };
    let more = DictionaryEntry {
        source: executor::scrape::Dictionary::Oxford,
        url: String::from("u2"),
        word: String::from("w"),
        mp3_link: None,
        file: None,
        definitions: vec![String::from("two"), String::from("three")],
    };
    merge_definitions_into(&mut base, more);
    assert_eq!(vec!["one", "two", "three"], base.definitions);
    assert_eq!("u", base.url);
}
