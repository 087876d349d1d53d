//! Reading tweets out of the chunks of the tweet stream.
use crate::lab::messages::{Tweet, TweetMessage, TweetMessageView, TweetView};
use crate::scan::{
    cut_bytes, cut_field, decimal_value, find_from, is_digit, is_digit_run, lemma_find_from,
    lemma_piece_valid, parse_unsigned,
    parse_usize, piece_string, utf8_to_string, FieldCut,
};
use vstd::prelude::*;
use vstd::utf8::*;

verus! {

/// The key `"text"`.
pub open spec fn text_key() -> Seq<u8> {
    seq![34u8, 116u8, 101u8, 120u8, 116u8, 34u8]
}

/// The key `"screen_name"`.
pub open spec fn screen_name_key() -> Seq<u8> {
    seq![34u8, 115u8, 99u8, 114u8, 101u8, 101u8, 110u8, 95u8, 110u8, 97u8, 109u8, 101u8, 34u8]
}

/// The key `"followers_count"`.
pub open spec fn followers_key() -> Seq<u8> {
    seq![
        34u8, 102u8, 111u8, 108u8, 108u8, 111u8, 119u8, 101u8, 114u8, 115u8,
        95u8, 99u8, 111u8, 117u8, 110u8, 116u8, 34u8,
    ]
}

/// The key `"favorites_count"`.
pub open spec fn favorites_key() -> Seq<u8> {
    seq![
        34u8, 102u8, 97u8, 118u8, 111u8, 114u8, 105u8, 116u8, 101u8, 115u8,
        95u8, 99u8, 111u8, 117u8, 110u8, 116u8, 34u8,
    ]
}

/// The key `"retweet_count"`.
pub open spec fn retweet_key() -> Seq<u8> {
    seq![34u8, 114u8, 101u8, 116u8, 119u8, 101u8, 101u8, 116u8, 95u8, 99u8, 111u8, 117u8, 110u8, 116u8, 34u8]
}

/// The byte `"`, which ends a string field.
pub open spec fn quote() -> u8 {
    34u8
}

/// The byte `,`, which ends a number field.
pub open spec fn comma() -> u8 {
    44u8
}

/// A string field: `None` when the chunk is malformed around it, the empty
/// text when its key is absent, else the text between the skip and the quote.
pub open spec fn read_text(data: Seq<u8>, key: Seq<u8>, skip: int) -> Option<Seq<char>> {
    match cut_field(data, key, skip, quote()) {
        FieldCut::Absent => Some(Seq::empty()),
        FieldCut::Found(a, b) => Some(decode_utf8(data.subrange(a, b))),
        FieldCut::Broken => None,
    }
}

/// A number field: `None` when the chunk is malformed around it or the field
/// is no decimal `usize`, `Some(None)` when its key is absent.
pub open spec fn read_count(data: Seq<u8>, key: Seq<u8>, skip: int) -> Option<Option<usize>> {
    match cut_field(data, key, skip, comma()) {
        FieldCut::Absent => Some(None),
        FieldCut::Found(a, b) => match parse_unsigned(
            decode_utf8(data.subrange(a, b)),
            usize::MAX as int,
        ) {
            Some(v) => Some(Some(v as usize)),
            None => None,
        },
        FieldCut::Broken => None,
    }
}

/// What remains of a text after a number field was cut out of it: the field,
/// or the whole text when the key is absent.
pub open spec fn count_remains(data: Seq<u8>, key: Seq<u8>, skip: int) -> Seq<u8> {
    match cut_field(data, key, skip, comma()) {
        FieldCut::Found(a, b) => data.subrange(a, b),
        _ => data,
    }
}

/// The later of two readings of a counter, or zero when neither found one.
pub open spec fn latest_count(first: Option<usize>, second: Option<usize>) -> usize {
    match second {
        Some(v) => v,
        None => match first {
            Some(v) => v,
            None => 0,
        },
    }
}

/// The message that a chunk of the tweet stream carries, or `None` when the
/// chunk is not UTF-8 or one of its fields is malformed.
///
/// The followers count is read twice, the second time from what remains of
/// the first reading.
pub open spec fn chunk_message(bytes: Seq<u8>) -> Option<TweetMessageView> {
    if !valid_utf8(bytes) {
        None
    } else {
        let text = read_text(bytes, text_key(), 8);
        let user = read_text(bytes, screen_name_key(), 15);
        let followers = read_count(bytes, followers_key(), 18);
        let favorites = read_count(bytes, favorites_key(), 18);
        let followers_again = read_count(
            count_remains(bytes, followers_key(), 18),
            followers_key(),
            18,
        );
        let retweets = read_count(bytes, retweet_key(), 16);
        if text is None || user is None || followers is None || favorites is None
            || followers_again is None || retweets is None {
            None
        } else {
            let tweet = TweetView {
                text: text->0,
                user: user->0,
                retweet_count: latest_count(None, retweets->0),
                favorite_count: latest_count(None, favorites->0),
                followers_count: latest_count(followers->0, followers_again->0),
            };
            if tweet.valid() {
                Some(TweetMessageView::Tweet(tweet))
            } else {
                Some(TweetMessageView::Halt)
            }
        }
    }
}

/// Law: once a followers count was read, the second reading of it finds no
/// key in what remains, so a chunk's followers count is its first reading.
pub proof fn lemma_followers_read_once(bytes: Seq<u8>)
    requires
        valid_utf8(bytes),
        read_count(bytes, followers_key(), 18) is Some,
    ensures
        read_count(count_remains(bytes, followers_key(), 18), followers_key(), 18) == Some(
            None::<usize>,
        ),
        latest_count(
            read_count(bytes, followers_key(), 18)->0,
            read_count(count_remains(bytes, followers_key(), 18), followers_key(), 18)->0,
        ) == latest_count(read_count(bytes, followers_key(), 18)->0, None),
{
    let key = followers_key();
    match cut_field(bytes, key, 18, comma()) {
        FieldCut::Found(a, b) => {
            let i = find_from(bytes, key, 0)->0;
            lemma_find_from(bytes, key, 0);
            lemma_find_from(bytes, seq![comma()], a);
            assert(bytes.subrange(b, b + 1)[0] == bytes[b]);
            lemma_piece_valid(bytes, a, b);
            let p = bytes.subrange(a, b);
            let cs = decode_utf8(p);
            decode_utf8_encode_utf8(p);
            let digits = if cs.len() > 0 && cs[0] == '+' {
                cs.drop_first()
            } else {
                cs
            };
            assert forall|j: int| 0 <= j < cs.len() implies cs[j] == '+' || is_digit(cs[j]) by {
                if !(cs.len() > 0 && cs[0] == '+') || j != 0 {
                    if cs.len() > 0 && cs[0] == '+' {
                        assert(digits[j - 1] == cs[j]);
                    }
                }
            }
            assert(is_ascii_chars(cs)) by {
                assert forall|j: int| 0 <= j < cs.len() implies '\0' <= #[trigger] cs[j] <= '\u{7f}' by {
                    assert(cs[j] == '+' || is_digit(cs[j]));
                }
            }
            is_ascii_chars_encode_utf8(cs);
            assert forall|j: int| 0 <= j < p.len() implies p[j] != 34u8 by {
                assert(cs[j] as u8 == p[j]);
                assert(cs[j] == '+' || is_digit(cs[j]));
            }
            lemma_find_from(p, key, 0);
            if find_from(p, key, 0) is Some {
                let k = find_from(p, key, 0)->0;
                assert(p.subrange(k, k + key.len())[0] == p[k]);
            }
        },
        _ => {},
    }
}

fn text_key_bytes() -> (k: [u8; 6])
    ensures
        k@ == text_key(),
{
    let k: [u8; 6] = [34, 116, 101, 120, 116, 34];
    assert(k@ =~= text_key());
    k
}

fn screen_name_key_bytes() -> (k: [u8; 13])
    ensures
        k@ == screen_name_key(),
{
    let k: [u8; 13] = [34, 115, 99, 114, 101, 101, 110, 95, 110, 97, 109, 101, 34];
    assert(k@ =~= screen_name_key());
    k
}

fn followers_key_bytes() -> (k: [u8; 17])
    ensures
        k@ == followers_key(),
{
    let k: [u8; 17] = [34, 102, 111, 108, 108, 111, 119, 101, 114, 115, 95, 99, 111, 117, 110, 116, 34];
    assert(k@ =~= followers_key());
    k
}

fn favorites_key_bytes() -> (k: [u8; 17])
    ensures
        k@ == favorites_key(),
{
    let k: [u8; 17] = [34, 102, 97, 118, 111, 114, 105, 116, 101, 115, 95, 99, 111, 117, 110, 116, 34];
    assert(k@ =~= favorites_key());
    k
}

fn retweet_key_bytes() -> (k: [u8; 15])
    ensures
        k@ == retweet_key(),
{
    let k: [u8; 15] = [34, 114, 101, 116, 119, 101, 101, 116, 95, 99, 111, 117, 110, 116, 34];
    assert(k@ =~= retweet_key());
    k
}

/// Reads a string field as [`read_text`] describes.
pub fn read_text_field(data: &[u8], key: &[u8], skip: usize) -> (res: Option<String>)
    requires
        valid_utf8(data@),
    ensures
        match read_text(data@, key@, skip as int) {
            Some(t) => res matches Some(s) && s@ == t,
            None => res is None,
        },
{
    match cut_bytes(data, key, skip, 34) {
        Err(()) => None,
        Ok(None) => Some(String::new()),
        Ok(Some((a, b))) => Some(piece_string(data, a, b)),
    }
}

/// Reads a number field as [`read_count`] describes, together with the byte
/// range of the field when there is one.
pub fn read_count_field(data: &[u8], key: &[u8], skip: usize) -> (res: Option<
    (Option<usize>, Option<(usize, usize)>),
>)
    requires
        valid_utf8(data@),
    ensures
        match read_count(data@, key@, skip as int) {
            Some(v) => res matches Some((w, _)) && w == v,
            None => res is None,
        },
        res matches Some((_, Some((a, b)))) ==> a <= b <= data@.len()
            && cut_field(data@, key@, skip as int, comma()) == FieldCut::Found(a as int, b as int)
            && is_char_boundary(data@, a as int) && data@[b as int] == comma(),
        res matches Some((_, None)) ==> cut_field(data@, key@, skip as int, comma())
            is Absent,
{
    match cut_bytes(data, key, skip, 44) {
        Err(()) => None,
        Ok(None) => Some((None, None)),
        Ok(Some((a, b))) => {
            let s = piece_string(data, a, b);
            match parse_usize(s.as_str()) {
                Some(v) => Some((Some(v), Some((a, b)))),
                None => None,
            }
        },
    }
}

/// The message a chunk carries, or `None` where the chunk is not UTF-8 or a
/// field of it is malformed.
pub fn try_message_from_chunk(bytes: &[u8]) -> (msg: Option<TweetMessage>)
    ensures
        match chunk_message(bytes@) {
            Some(m) => msg matches Some(x) && x@ == m,
            None => msg is None,
        },
{
    if utf8_to_string(vstd::slice::slice_to_vec(bytes)).is_none() {
        return None;
    }
    let mut tweet = Tweet::new();
    let text_k = text_key_bytes();
    match read_text_field(bytes, &text_k, 8) {
        Some(t) => {
            tweet.text = t;
        },
        None => return None,
    }
    let user_k = screen_name_key_bytes();
    match read_text_field(bytes, &user_k, 15) {
        Some(u) => {
            tweet.user = u;
        },
        None => return None,
    }
    let followers_k = followers_key_bytes();
    let remains: &[u8];
    match read_count_field(bytes, &followers_k, 18) {
        None => return None,
        Some((v, range)) => {
            match v {
                Some(n) => {
                    tweet.followers_count = n;
                },
                None => {},
            }
            match range {
                Some((a, b)) => {
                    proof {
                        lemma_piece_valid(bytes@, a as int, b as int);
                    }
                    remains = &bytes[a..b];
                },
                None => {
                    remains = bytes;
                },
            }
        },
    }
    assert(remains@ == count_remains(bytes@, followers_key(), 18));
    let favorites_k = favorites_key_bytes();
    match read_count_field(bytes, &favorites_k, 18) {
        None => return None,
        Some((v, _)) => match v {
            Some(n) => {
                tweet.favorite_count = n;
            },
            None => {},
        },
    }
    match read_count_field(remains, &followers_k, 18) {
        None => return None,
        Some((v, _)) => match v {
            Some(n) => {
                tweet.followers_count = n;
            },
            None => {},
        },
    }
    let retweet_k = retweet_key_bytes();
    match read_count_field(bytes, &retweet_k, 16) {
        None => return None,
        Some((v, _)) => match v {
            Some(n) => {
                tweet.retweet_count = n;
            },
            None => {},
        },
    }
    if tweet.is_valid() {
        return Some(TweetMessage::Tweet(tweet));
    }
    Some(TweetMessage::Halt)
}

/// The message a chunk of the tweet stream carries: the tweet whose fields
/// were found in it, or `Halt` when it has neither text nor user.
pub fn get_message_from_chunk(bytes: &[u8]) -> (msg: TweetMessage)
    requires
        chunk_message(bytes@) is Some,
    ensures
        msg@ == chunk_message(bytes@)->0,
{
    try_message_from_chunk(bytes).unwrap()
}

/* Laws of chunk reading */

/// The text of a string field, as the chunk gives it: empty when its key is
/// absent, else the characters between the skip and the closing quote.
pub open spec fn text_field_gives(bytes: Seq<u8>, key: Seq<u8>, skip: int, value: Seq<char>) -> bool {
    match cut_field(bytes, key, skip, quote()) {
        FieldCut::Absent => value.len() == 0,
        FieldCut::Found(a, b) => value == decode_utf8(bytes.subrange(a, b)),
        FieldCut::Broken => false,
    }
}

/// The value of a number field, as the chunk gives it: zero when its key is
/// absent, else the decimal number between the skip and the next comma.
pub open spec fn counter_field_gives(bytes: Seq<u8>, key: Seq<u8>, skip: int, value: usize) -> bool {
    match cut_field(bytes, key, skip, comma()) {
        FieldCut::Absent => value == 0,
        FieldCut::Found(a, b) => parse_unsigned(decode_utf8(bytes.subrange(a, b)), usize::MAX as int)
            == Some(value as int),
        FieldCut::Broken => false,
    }
}

/// True when a number field is absent, or present and a decimal `usize`.
pub open spec fn counter_field_readable(bytes: Seq<u8>, key: Seq<u8>, skip: int) -> bool {
    match cut_field(bytes, key, skip, comma()) {
        FieldCut::Absent => true,
        FieldCut::Found(a, b) => parse_unsigned(decode_utf8(bytes.subrange(a, b)), usize::MAX as int)
            is Some,
        FieldCut::Broken => false,
    }
}

proof fn lemma_decimal_value_nonneg(s: Seq<char>)
    requires
        forall|i: int| 0 <= i < s.len() ==> is_digit(#[trigger] s[i]),
    ensures
        decimal_value(s) >= 0,
    decreases s.len(),
{
    if s.len() > 0 {
        lemma_decimal_value_nonneg(s.drop_last());
        assert(is_digit(s[s.len() - 1]));
    }
}

proof fn lemma_parse_unsigned_nonneg(s: Seq<char>, max: int)
    ensures
        parse_unsigned(s, max) matches Some(v) ==> 0 <= v <= max,
{
    let digits = if s.len() > 0 && s[0] == '+' {
        s.drop_first()
    } else {
        s
    };
    if is_digit_run(digits) {
        lemma_decimal_value_nonneg(digits);
    }
}

proof fn lemma_counter_in_range(bytes: Seq<u8>, key: Seq<u8>, skip: int)
    ensures
        cut_field(bytes, key, skip, comma()) matches FieldCut::Found(a, b) ==> (parse_unsigned(
            decode_utf8(bytes.subrange(a, b)),
            usize::MAX as int,
        ) matches Some(v) ==> 0 <= v <= usize::MAX),
{
    match cut_field(bytes, key, skip, comma()) {
        FieldCut::Found(a, b) => lemma_parse_unsigned_nonneg(
            decode_utf8(bytes.subrange(a, b)),
            usize::MAX as int,
        ),
        _ => {},
    }
}

/// Law: a chunk is read when it is UTF-8 and each of its fields is absent
/// or well formed (a counter being a decimal `usize`), and then every field
/// of the tweet comes from its own key alone: the text from `"text"`, the
/// user from `"screen_name"`, each counter from its own key, and a field
/// whose key is absent is empty or zero whatever the other fields hold. The
/// chunk is `Halt` exactly when both text and user come out empty.
pub proof fn lemma_chunk_fields(bytes: Seq<u8>)
    ensures
        chunk_message(bytes) is Some <==> valid_utf8(bytes) && !(cut_field(
            bytes,
            text_key(),
            8,
            quote(),
        ) is Broken) && !(cut_field(bytes, screen_name_key(), 15, quote()) is Broken)
            && counter_field_readable(bytes, followers_key(), 18) && counter_field_readable(
            bytes,
            favorites_key(),
            18,
        ) && counter_field_readable(bytes, retweet_key(), 16),
        chunk_message(bytes) matches Some(TweetMessageView::Tweet(t)) ==> {
            &&& text_field_gives(bytes, text_key(), 8, t.text)
            &&& text_field_gives(bytes, screen_name_key(), 15, t.user)
            &&& counter_field_gives(bytes, followers_key(), 18, t.followers_count)
            &&& counter_field_gives(bytes, favorites_key(), 18, t.favorite_count)
            &&& counter_field_gives(bytes, retweet_key(), 16, t.retweet_count)
            &&& (t.text.len() > 0 || t.user.len() > 0)
        },
        chunk_message(bytes) matches Some(TweetMessageView::Halt) ==> text_field_gives(
            bytes,
            text_key(),
            8,
            Seq::empty(),
        ) && text_field_gives(bytes, screen_name_key(), 15, Seq::empty()),
{
    if valid_utf8(bytes) && read_count(bytes, followers_key(), 18) is Some {
        lemma_followers_read_once(bytes);
    }
    lemma_counter_in_range(bytes, followers_key(), 18);
    lemma_counter_in_range(bytes, favorites_key(), 18);
    lemma_counter_in_range(bytes, retweet_key(), 16);
    if chunk_message(bytes) matches Some(TweetMessageView::Halt) {
        assert(read_text(bytes, text_key(), 8)->0 =~= Seq::<char>::empty());
        assert(read_text(bytes, screen_name_key(), 15)->0 =~= Seq::<char>::empty());
    }
}

} // verus!
