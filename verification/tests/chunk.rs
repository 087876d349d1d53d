use actor_framework::lab::messages::{Tweet, TweetMessage};
use actor_framework::lab::utils::{get_message_from_chunk, try_message_from_chunk};
use actor_framework::messages::TweetMessage as TextMessage;
use actor_framework::utils::{get_message_from_chunk as get_text_message, try_text_message_from_chunk};

fn full_chunk() -> Vec<u8> {
    br#"{"created_at":"now","text":"Hello world!","user":{"screen_name":"bob","followers_count":10,"favorites_count":3,"retweet_count":2,"lang":"en"}}"#.to_vec()
}

fn tweet_of(m: TweetMessage) -> Tweet {
    match m {
        TweetMessage::Tweet(t) => t,
        TweetMessage::Halt => panic!("expected a tweet"),
    }
}

#[test]
fn chunk_with_every_field_gives_the_tweet() {
    let t = tweet_of(get_message_from_chunk(&full_chunk()));
    assert_eq!(t.text, "Hello world!");
    assert_eq!(t.user, "bob");
    assert_eq!(t.followers_count, 10);
    assert_eq!(t.favorite_count, 3);
    assert_eq!(t.retweet_count, 2);
}

#[test]
fn chunk_without_text_or_user_halts() {
    let m = get_message_from_chunk(br#"{"followers_count":4,"retweet_count":1,}"#);
    assert!(matches!(m, TweetMessage::Halt));
}

#[test]
fn chunk_with_user_only_is_a_tweet() {
    let t = tweet_of(get_message_from_chunk(br#"{"screen_name":"ann"}"#));
    assert_eq!(t.text, "");
    assert_eq!(t.user, "ann");
    assert_eq!(t.followers_count, 0);
}

#[test]
fn chunk_keeps_non_ascii_text() {
    let t = tweet_of(get_message_from_chunk("{\"text\":\"héllo wörld\"}".as_bytes()));
    assert_eq!(t.text, "héllo wörld");
}

#[test]
fn chunk_that_is_not_utf8_is_refused() {
    assert!(try_message_from_chunk(&[0x7b, 0xff, 0xfe]).is_none());
}

#[test]
fn chunk_with_bad_count_is_refused() {
    assert!(try_message_from_chunk(br#"{"text":"a","followers_count":ten,}"#).is_none());
    assert!(try_message_from_chunk(br#"{"text":"a","retweet_count":-1,}"#).is_none());
}

#[test]
fn chunk_with_unterminated_text_is_refused() {
    assert!(try_message_from_chunk(br#"{"text":"abc"#).is_none());
}

#[test]
fn chunk_with_count_without_comma_is_refused() {
    assert!(try_message_from_chunk(br#"{"text":"a","retweet_count":5}"#).is_none());
}

#[test]
fn chunk_whose_key_ends_the_text_is_refused() {
    assert!(try_message_from_chunk(br#"{"text""#).is_none());
}

#[test]
fn chunk_whose_skip_splits_a_character_is_refused() {
    assert!(try_message_from_chunk("{\"text\":é\"}".as_bytes()).is_none());
}

#[test]
fn chunk_whose_skip_lands_after_a_two_byte_character() {
    let t = tweet_of(get_message_from_chunk("{\"text\"é\"abc\",\"screen_name\":\"x\"}".as_bytes()));
    assert_eq!(t.text, "");
    assert_eq!(t.user, "x");
}

#[test]
fn chunk_count_with_plus_sign_is_read() {
    let t = tweet_of(get_message_from_chunk(br#"{"text":"a","favorites_count":+42,}"#));
    assert_eq!(t.favorite_count, 42);
}

#[test]
fn chunk_count_above_usize_is_refused() {
    assert!(try_message_from_chunk(br#"{"text":"a","favorites_count":99999999999999999999999,}"#).is_none());
}

#[test]
fn text_chunk_gives_text_or_halt() {
    match get_text_message(&full_chunk()) {
        TextMessage::TweetText(t) => assert_eq!(t, "Hello world!"),
        TextMessage::Halt => panic!("expected text"),
    }
    assert!(matches!(get_text_message(br#"{"user":1}"#), TextMessage::Halt));
    assert!(try_text_message_from_chunk(br#"{"text":"open"#).is_none());
    assert!(try_text_message_from_chunk(&[0xc3]).is_none());
}
