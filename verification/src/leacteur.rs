//! Scoring the words of a tweet against the emotion table.
use crate::scan::{
    char_views, chars_of, chars_to_string, lemma_split_at_sep, lemma_split_without_sep, split_chars,
    split_on,
};
use crate::utils::EmotionTable;
use vstd::prelude::*;

verus! {

/// The punctuation that is dropped before a text is split into words.
pub open spec fn is_dropped_punctuation(c: char) -> bool {
    c == '.' || c == '?' || c == '!'
}

/// The text without its `.`, `?` and `!`.
pub open spec fn without_punctuation(s: Seq<char>) -> Seq<char>
    decreases s.len(),
{
    if s.len() == 0 {
        s
    } else if is_dropped_punctuation(s.last()) {
        without_punctuation(s.drop_last())
    } else {
        without_punctuation(s.drop_last()).push(s.last())
    }
}

/// The words of a text: the pieces between single spaces.
pub open spec fn words_of(s: Seq<char>) -> Seq<Seq<char>> {
    split_on(s, ' ')
}

/// The sum of the emotion values of the words that the table knows.
pub open spec fn score_of(words: Seq<Seq<char>>, table: Map<Seq<char>, i8>) -> int
    decreases words.len(),
{
    if words.len() == 0 {
        0
    } else {
        score_of(words.drop_last(), table) + if table.contains_key(words.last()) {
            table[words.last()] as int
        } else {
            0
        }
    }
}

/// True when every running total of the word scores fits in an `i32`.
pub open spec fn running_scores_fit(words: Seq<Seq<char>>, table: Map<Seq<char>, i8>) -> bool {
    forall|k: int|
        0 <= k <= words.len() ==> i32::MIN <= #[trigger] score_of(words.take(k), table)
            <= i32::MAX
}

/// The text with every `.`, `?` and `!` removed.
pub fn strip_punctuation(text: &str) -> (s: String)
    ensures
        s@ == without_punctuation(text@),
{
    let chars = chars_of(text);
    let n = chars.len();
    let mut kept: Vec<char> = Vec::new();
    let mut i: usize = 0;
    assert(text@.take(0) =~= Seq::<char>::empty());
    while i < n
        invariant
            n == text@.len(),
            chars@ == text@,
            i <= n,
            kept@ == without_punctuation(text@.take(i as int)),
        decreases n - i,
    {
        let c = chars[i];
        assert(text@.take(i + 1).drop_last() =~= text@.take(i as int));
        if !(c == '.' || c == '?' || c == '!') {
            kept.push(c);
        }
        i = i + 1;
    }
    assert(text@.take(n as int) =~= text@);
    chars_to_string(kept.as_slice())
}

/// The sum of the emotion values of the words of `text` (split at single
/// spaces) that the table knows, and the number of words; `None` when a
/// running total leaves the `i32` range.
pub fn score_words(text: &str, table: &EmotionTable) -> (res: Option<(i32, usize)>)
    ensures
        res is Some <==> running_scores_fit(words_of(text@), table@),
        res matches Some((sum, count)) ==> sum == score_of(words_of(text@), table@) && count
            == words_of(text@).len(),
{
    let chars = chars_of(text);
    let words = split_chars(chars.as_slice(), ' ');
    let ghost ws = words_of(text@);
    let n = words.len();
    let mut sum: i32 = 0;
    let mut i: usize = 0;
    assert(ws.take(0) =~= Seq::<Seq<char>>::empty());
    while i < n
        invariant
            n == ws.len(),
            char_views(words@) == ws,
            ws == words_of(text@),
            i <= n,
            sum == score_of(ws.take(i as int), table@),
            forall|k: int|
                0 <= k <= i ==> i32::MIN <= #[trigger] score_of(ws.take(k), table@) <= i32::MAX,
        decreases n - i,
    {
        assert(ws.take(i + 1).drop_last() =~= ws.take(i as int));
        assert(ws.take(i + 1).last() == words@[i as int]@);
        let add: i32 = match table.get(words[i].as_slice()) {
            Some(v) => v as i32,
            None => 0,
        };
        match sum.checked_add(add) {
            Some(total) => {
                sum = total;
            },
            None => {
                assert(!(i32::MIN <= score_of(ws.take(i + 1), table@) <= i32::MAX));
                return None;
            },
        }
        i = i + 1;
        assert(forall|k: int|
            0 <= k <= i ==> i32::MIN <= #[trigger] score_of(ws.take(k), table@) <= i32::MAX);
    }
    assert(ws.take(n as int) =~= ws);
    Some((sum, n))
}

/* Laws of scoring */

/// Law: no words score nothing.
pub proof fn lemma_score_empty(table: Map<Seq<char>, i8>)
    ensures
        score_of(Seq::empty(), table) == 0,
{
}

/// Law: a single word scores its value in the table, or nothing when the
/// table does not know it.
pub proof fn lemma_score_single(w: Seq<char>, table: Map<Seq<char>, i8>)
    ensures
        score_of(seq![w], table) == if table.contains_key(w) {
            table[w] as int
        } else {
            0
        },
{
    assert(seq![w].drop_last() =~= Seq::<Seq<char>>::empty());
    assert(seq![w].last() == w);
    reveal_with_fuel(score_of, 2);
}

/// Law: the score of words one after the other is the sum of their scores;
/// every word counts, the last one included.
pub proof fn lemma_score_concat(a: Seq<Seq<char>>, b: Seq<Seq<char>>, table: Map<Seq<char>, i8>)
    ensures
        score_of(a + b, table) == score_of(a, table) + score_of(b, table),
    decreases b.len(),
{
    if b.len() == 0 {
        assert(a + b =~= a);
    } else {
        assert((a + b).drop_last() =~= a + b.drop_last());
        assert((a + b).last() == b.last());
        lemma_score_concat(a, b.drop_last(), table);
    }
}

/// Law: appending a word adds its value (or nothing) to the score.
pub proof fn lemma_score_push(ws: Seq<Seq<char>>, w: Seq<char>, table: Map<Seq<char>, i8>)
    ensures
        score_of(ws.push(w), table) == score_of(ws, table) + if table.contains_key(w) {
            table[w] as int
        } else {
            0
        },
{
    lemma_score_concat(ws, seq![w], table);
    lemma_score_single(w, table);
    assert(ws + seq![w] =~= ws.push(w));
}

/// Law: a text without spaces is one word, scored by its value.
pub proof fn lemma_text_one_word(w: Seq<char>, table: Map<Seq<char>, i8>)
    requires
        !w.contains(' '),
    ensures
        words_of(w) == seq![w],
        score_of(words_of(w), table) == if table.contains_key(w) {
            table[w] as int
        } else {
            0
        },
{
    lemma_split_without_sep(w, ' ');
    lemma_score_single(w, table);
}

/// Law: the texts on both sides of a space are scored and counted apart and
/// added up.
pub proof fn lemma_text_at_space(a: Seq<char>, b: Seq<char>, table: Map<Seq<char>, i8>)
    ensures
        words_of(a + seq![' '] + b) == words_of(a) + words_of(b),
        words_of(a + seq![' '] + b).len() == words_of(a).len() + words_of(b).len(),
        score_of(words_of(a + seq![' '] + b), table) == score_of(words_of(a), table) + score_of(
            words_of(b),
            table,
        ),
{
    lemma_split_at_sep(a, b, ' ');
    lemma_score_concat(words_of(a), words_of(b), table);
}

/// Law: punctuation is dropped piece by piece: the text before and after a
/// cut lose theirs apart.
pub proof fn lemma_without_punctuation_concat(a: Seq<char>, b: Seq<char>)
    ensures
        without_punctuation(a + b) == without_punctuation(a) + without_punctuation(b),
    decreases b.len(),
{
    if b.len() == 0 {
        assert(a + b =~= a);
        assert(without_punctuation(a) + without_punctuation(b) =~= without_punctuation(a));
    } else {
        assert((a + b).drop_last() =~= a + b.drop_last());
        assert((a + b).last() == b.last());
        lemma_without_punctuation_concat(a, b.drop_last());
        if !is_dropped_punctuation(b.last()) {
            assert((without_punctuation(a) + without_punctuation(b.drop_last())).push(b.last())
                =~= without_punctuation(a) + without_punctuation(b.drop_last()).push(b.last()));
        }
    }
}

/// Law: of a single character, `.`, `?` and `!` are dropped and every other
/// one is kept.
pub proof fn lemma_without_punctuation_single(c: char)
    ensures
        without_punctuation(seq![c]) == if c == '.' || c == '?' || c == '!' {
            Seq::<char>::empty()
        } else {
            seq![c]
        },
{
    assert(seq![c].drop_last() =~= Seq::<char>::empty());
    assert(seq![c].last() == c);
    assert(Seq::<char>::empty().push(c) =~= seq![c]);
    reveal_with_fuel(without_punctuation, 2);
}

} // verus!
