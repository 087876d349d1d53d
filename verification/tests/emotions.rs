use actor_framework::leacteur::{score_words, strip_punctuation};
use actor_framework::utils::emotions_from_text;

#[test]
fn emotion_file_builds_the_table() {
    let t = emotions_from_text("happy\t3\nsad\t-2\r\nhappy\t5\n").unwrap();
    assert_eq!(t.len(), 2);
    assert_eq!(t.get(&['h', 'a', 'p', 'p', 'y']), Some(5));
    assert_eq!(t.get(&['s', 'a', 'd']), Some(-2));
    assert_eq!(t.get(&['s', 'a', 'd', '\r']), None);
    assert_eq!(t.get(&['x']), None);
}

#[test]
fn emotion_file_extra_fields_are_ignored() {
    let t = emotions_from_text("calm\t+7\tnote").unwrap();
    assert_eq!(t.get(&['c', 'a', 'l', 'm']), Some(7));
}

#[test]
fn emotion_file_last_line_keeps_its_carriage_return_in_the_value() {
    assert!(emotions_from_text("calm\t7\r").is_none());
}

#[test]
fn empty_emotion_file_gives_an_empty_table() {
    assert_eq!(emotions_from_text("").unwrap().len(), 0);
}

#[test]
fn emotion_file_errors() {
    assert!(emotions_from_text("novalue\n").is_none());
    assert!(emotions_from_text("word\tten\n").is_none());
    assert!(emotions_from_text("word\t128\n").is_none());
    assert!(emotions_from_text("word\t-129\n").is_none());
    assert!(emotions_from_text("ok\t1\n\n").is_none());
    assert_eq!(
        emotions_from_text("low\t-128\nhigh\t127").unwrap().get(&['l', 'o', 'w']),
        Some(-128)
    );
}

#[test]
fn punctuation_is_stripped() {
    assert_eq!(strip_punctuation("Wow. Is it? Yes!!"), "Wow Is it Yes");
    assert_eq!(strip_punctuation("é, ü;"), "é, ü;");
}

#[test]
fn words_are_scored() {
    let t = emotions_from_text("happy\t3\nsad\t-2\n").unwrap();
    let cleaned = strip_punctuation("happy. sad! happy? unknown");
    assert_eq!(score_words(&cleaned, &t), Some((4, 4)));
}

#[test]
fn spaces_make_empty_words() {
    let t = emotions_from_text("happy\t3\n").unwrap();
    assert_eq!(score_words("  ", &t), Some((0, 3)));
    assert_eq!(score_words("", &t), Some((0, 1)));
}
