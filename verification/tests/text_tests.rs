use executor::error::{AppError, DictionaryError, DictionaryErrorKind};
use executor::files::{file_name, split};
use executor::model::{Command, MessageType, Status};
use executor::scrape::{
    is_not_found_page, to_url, Dictionary, BROWSE_DICTIONARY, NO_RESULTS, PAGE_NOT_FOUND,
    SEARCH_FOR,
};
use executor::utils::{random_in_range, replace_tabs, shuffle, shuffle_descriptions, trim_tabs};

const CAMBRIDGE_URL: &str = "https://dictionary.cambridge.org/dictionary/english/";
const OXFORD_URL: &str = "https://www.oxfordlearnersdictionaries.com/definition/english/";

#[test]
fn parse_text_test() {
    let text = String::from(
        "do: something, but nothing\n lets; play, what/ ever! do it? not do it\n dfadsfa\n end. A.",
    );
    let result = split(text.as_str());
    assert!(!result.is_empty());
    assert_eq!(12, result.len());
    for any in result {
        println!("-> {}", any);
    }
}

#[test]
fn url_test() {
    assert_eq!(
        "https://dictionary.cambridge.org/dictionary/english/dust-up",
        to_url(CAMBRIDGE_URL, "dust up")
    );

    assert_eq!(
        "https://www.oxfordlearnersdictionaries.com/definition/english/dust-up",
        to_url(OXFORD_URL, "dust up")
    );
}

#[test]
fn test_not_found() {
    let lower = String::from(PAGE_NOT_FOUND).to_lowercase();
    let not_found = vec![NO_RESULTS, PAGE_NOT_FOUND, SEARCH_FOR, BROWSE_DICTIONARY];
    let mut found = false;
    for marker in not_found {
        if lower.contains(marker) {
            found = true;
            break;
        }
    }

    assert!(found);
}

#[test]
fn trim_tabs_test() {
    assert_eq!("do it", trim_tabs("   do    it  "));
    assert_eq!("", trim_tabs("      "));
    assert_eq!("unchanged", trim_tabs("unchanged"));
}

#[test]
fn replace_tabs_test() {
    assert_eq!("do-it-now", replace_tabs("  Do   It  Now ", "-"));
    assert_eq!("wind_up", replace_tabs("Wind  Up", "_"));
}

#[test]
fn file_name_test() {
    assert_eq!("test/download.txt", file_name("test/", "download", ".txt"));
    assert_eq!("test/mp3/cease.mp3", file_name("test/mp3", "cease", ".mp3"));
    assert_eq!("dir/word.json", file_name("dir", "word.json", ".json"));
}

#[test]
fn to_url_invalid_test() {
    assert_eq!("invalid", to_url("", "word"));
    assert_eq!("invalid", to_url(CAMBRIDGE_URL, ""));
    assert_eq!(
        "https://dictionary.cambridge.org/dictionary/english/mixed-case",
        to_url(CAMBRIDGE_URL, "Mixed   Case")
    );
}

#[test]
fn is_not_found_page_test() {
    assert!(is_not_found_page("<html>Sorry, no results for that</html>"));
    assert!(is_not_found_page("PAGE NOT FOUND"));
    assert!(!is_not_found_page("<html>a real entry</html>"));
}

#[test]
fn throw_lowers_test() {
    let err = AppError::throw("Worker MISSING");
    assert_eq!("worker missing", err.message);

    let derr = DictionaryError::throw("Not FOUND", DictionaryErrorKind::NotFound);
    assert_eq!("not found", derr.message);
    assert_eq!(DictionaryErrorKind::NotFound, derr.error_kind);
}

#[test]
fn command_from_test() {
    assert_eq!(Command::Stop, Command::from(String::from("  Stop ")));
    assert_eq!(Command::Ping, Command::from(String::from("PING")));
    assert_eq!(Command::Status, Command::from(String::from("status")));
    assert_eq!(Command::Execute, Command::from(String::from("Execute")));
    assert_eq!(Command::Pause, Command::from(String::from("pause")));
    assert_eq!(Command::Undefined, Command::from(String::from("resume")));
}

#[test]
fn status_from_test() {
    assert_eq!(Status::Okay, Status::from(String::from("OK")));
    assert_eq!(Status::InProgress, Status::from(String::from("InProgress")));
    assert_eq!(Status::InProgress, Status::from(String::from("in_progress")));
    assert_eq!(Status::Error, Status::from(String::from("anything else")));
}

#[test]
fn message_type_from_test() {
    assert!(matches!(
        MessageType::from(String::from("respsone")),
        MessageType::Response
    ));
    assert!(matches!(
        MessageType::from(String::from("response")),
        MessageType::Request
    ));
    assert!(matches!(MessageType::default(), MessageType::Request));
}

#[test]
fn dictionary_from_test() {
    assert_eq!(Dictionary::Cambridge, Dictionary::from(String::from(" Cambridge ")));
    assert_eq!(Dictionary::Collins, Dictionary::from(String::from("collins")));
    assert_eq!(Dictionary::Oxford, Dictionary::from(String::from("OXFORD")));
    assert_eq!(Dictionary::Undefined, Dictionary::from(String::from("webster")));
}

#[test]
fn random_in_range_test() {
    let mut positions = random_in_range(20);
    assert_eq!(20, positions.len());
    positions.sort();
    for (i, p) in positions.iter().enumerate() {
        assert_eq!(i, *p);
    }
}

#[test]
fn shuffle_test() {
    let source = vec![5u32, 8, 13, 21, 34];
    let mut shuffled = shuffle(Box::new(source.clone()));
    assert_eq!(source.len(), shuffled.len());
    shuffled.sort();
    assert_eq!(source, shuffled);
}

#[test]
fn shuffle_descriptions_test() {
    let mut source = vec![
        String::from("alpha"),
        String::from("beta"),
        String::from("gamma"),
        String::from("delta"),
    ];
    let shuffled = shuffle_descriptions(&mut source);
    assert_eq!(source.len(), shuffled.len());
    let mut left = source.clone();
    let mut right = shuffled.clone();
    left.sort();
    right.sort();
    assert_eq!(left, right);
}
