//! Reading the tweet text out of a stream chunk, and the table of emotion
//! values that scores words.
use crate::lab::utils::{quote, read_text, read_text_field, text_field_gives, text_key};
use crate::messages::{TweetMessage, TweetTextView};
use crate::scan::{
    chars_equal, chars_of, chars_to_string, char_views, parse_i8, parse_signed, split_chars,
    split_on, utf8_to_string,
};
use vstd::prelude::*;
use vstd::utf8::*;

verus! {

/// The message that a chunk carries in the first version of the pipeline:
/// the text field when there is one, else `Halt`; `None` when the chunk is
/// not UTF-8 or its text field is malformed.
pub open spec fn chunk_text_message(bytes: Seq<u8>) -> Option<TweetTextView> {
    if !valid_utf8(bytes) {
        None
    } else {
        match read_text(bytes, text_key(), 8) {
            None => None,
            Some(t) => if crate::scan::find_from(bytes, text_key(), 0) is Some {
                Some(TweetTextView::TweetText(t))
            } else {
                Some(TweetTextView::Halt)
            },
        }
    }
}

/// The message a chunk carries, or `None` where the chunk is not UTF-8 or
/// its text field is malformed.
pub fn try_text_message_from_chunk(bytes: &[u8]) -> (msg: Option<TweetMessage>)
    ensures
        match chunk_text_message(bytes@) {
            Some(m) => msg matches Some(x) && x@ == m,
            None => msg is None,
        },
{
    if utf8_to_string(vstd::slice::slice_to_vec(bytes)).is_none() {
        return None;
    }
    let key: [u8; 6] = [34, 116, 101, 120, 116, 34];
    assert(key@ =~= text_key());
    if crate::scan::find_bytes(bytes, &key, 0).is_none() {
        return Some(TweetMessage::Halt);
    }
    match read_text_field(bytes, &key, 8) {
        Some(t) => Some(TweetMessage::TweetText(t)),
        None => None,
    }
}

/// The message a chunk of the tweet stream carries: its text field, or
/// `Halt` when it has none.
pub fn get_message_from_chunk(bytes: &[u8]) -> (msg: TweetMessage)
    requires
        chunk_text_message(bytes@) is Some,
    ensures
        msg@ == chunk_text_message(bytes@)->0,
{
    try_text_message_from_chunk(bytes).unwrap()
}

/// Law: a chunk is read when it is UTF-8 and its text field is absent or
/// well formed; it carries the text of its `"text"` field when that key is
/// there, and `Halt` exactly when it is not.
pub proof fn lemma_text_chunk_fields(bytes: Seq<u8>)
    ensures
        chunk_text_message(bytes) is Some <==> valid_utf8(bytes) && !(crate::scan::cut_field(
            bytes,
            text_key(),
            8,
            quote(),
        ) is Broken),
        chunk_text_message(bytes) matches Some(TweetTextView::TweetText(t)) ==> !(
        crate::scan::cut_field(bytes, text_key(), 8, quote()) is Absent) && text_field_gives(
            bytes,
            text_key(),
            8,
            t,
        ),
        chunk_text_message(bytes) matches Some(TweetTextView::Halt) ==> crate::scan::cut_field(
            bytes,
            text_key(),
            8,
            quote(),
        ) is Absent,
{
}

/* The emotion table */

/// A table from words to their emotion value; each word occurs once.
pub struct EmotionTable {
    entries: Vec<(Vec<char>, i8)>,
}

impl EmotionTable {
    #[verifier::type_invariant]
    spec fn keys_distinct(self) -> bool {
        forall|i: int, j: int|
            0 <= i < j < self.entries@.len() ==> #[trigger] self.entries@[i].0@
                != #[trigger] self.entries@[j].0@
    }

    spec fn has_key_at(self, k: Seq<char>, i: int) -> bool {
        0 <= i < self.entries@.len() && self.entries@[i].0@ == k
    }

    spec fn slot_of(self, k: Seq<char>) -> int {
        choose|i: int| self.has_key_at(k, i)
    }
}

impl View for EmotionTable {
    type V = Map<Seq<char>, i8>;

    closed spec fn view(&self) -> Map<Seq<char>, i8> {
        Map::new(
            |k: Seq<char>| exists|i: int| self.has_key_at(k, i),
            |k: Seq<char>| self.entries@[self.slot_of(k)].1,
        )
    }
}

impl EmotionTable {
    /// The empty table.
    pub fn new() -> (t: EmotionTable)
        ensures
            t@ == Map::<Seq<char>, i8>::empty(),
    {
        let t = EmotionTable { entries: Vec::new() };
        assert(t@ =~= Map::<Seq<char>, i8>::empty());
        t
    }

    /// The number of words in the table.
    pub fn len(&self) -> (n: usize)
        ensures
            n == self@.len(),
    {
        proof {
            use_type_invariant(self);
            self.lemma_dom_len();
        }
        self.entries.len()
    }

    proof fn lemma_dom_len(self)
        requires
            self.keys_distinct(),
        ensures
            self@.dom().finite(),
            self@.dom().len() == self.entries@.len(),
        decreases self.entries@.len(),
    {
        let keys = self.entries@.map_values(|e: (Vec<char>, i8)| e.0@);
        assert(self@.dom() =~= keys.to_set()) by {
            assert forall|k: Seq<char>| self@.dom().contains(k) implies keys.to_set().contains(k) by {
                let i = choose|i: int| self.has_key_at(k, i);
                assert(keys[i] == k);
            }
            assert forall|k: Seq<char>| keys.to_set().contains(k) implies self@.dom().contains(k) by {
                let i = choose|i: int| 0 <= i < keys.len() && keys[i] == k;
                assert(self.has_key_at(k, i));
            }
        }
        assert(keys.no_duplicates()) by {
            assert forall|i: int, j: int| 0 <= i < keys.len() && 0 <= j < keys.len() && i != j
                implies keys[i] != keys[j] by {
                if i < j {
                    assert(self.entries@[i].0@ != self.entries@[j].0@);
                } else {
                    assert(self.entries@[j].0@ != self.entries@[i].0@);
                }
            }
        }
        keys.unique_seq_to_set();
    }

    /// The position of a word in the table.
    fn position(&self, key: &[char]) -> (res: Option<usize>)
        ensures
            match res {
                Some(i) => self.has_key_at(key@, i as int),
                None => !self@.contains_key(key@),
            },
    {
        let n = self.entries.len();
        let mut i: usize = 0;
        while i < n
            invariant
                n == self.entries@.len(),
                i <= n,
                forall|j: int| 0 <= j < i ==> !self.has_key_at(key@, j),
            decreases n - i,
        {
            if chars_equal(self.entries[i].0.as_slice(), key) {
                return Some(i);
            }
            i = i + 1;
        }
        None
    }

    /// The emotion value of a word, when the table has it.
    pub fn get(&self, key: &[char]) -> (res: Option<i8>)
        ensures
            res == (if self@.contains_key(key@) {
                Some(self@[key@])
            } else {
                None
            }),
    {
        proof {
            use_type_invariant(self);
        }
        match self.position(key) {
            Some(i) => {
                proof {
                    let c = self.slot_of(key@);
                    assert(self.has_key_at(key@, c));
                    if c != i {
                        if c < i {
                            assert(self.entries@[c].0@ != self.entries@[i as int].0@);
                        } else {
                            assert(self.entries@[i as int].0@ != self.entries@[c].0@);
                        }
                    }
                }
                Some(self.entries[i].1)
            },
            None => None,
        }
    }

    proof fn lemma_view_at(self, k: Seq<char>, i: int)
        requires
            self.keys_distinct(),
            self.has_key_at(k, i),
        ensures
            self@.contains_key(k),
            self@[k] == self.entries@[i].1,
    {
        let c = self.slot_of(k);
        assert(self.has_key_at(k, c));
        if c < i {
            assert(self.entries@[c].0@ != self.entries@[i].0@);
        } else if i < c {
            assert(self.entries@[i].0@ != self.entries@[c].0@);
        }
    }

    /// Sets the emotion value of a word, replacing any earlier one.
    pub fn insert(&mut self, key: Vec<char>, value: i8)
        ensures
            final(self)@ == old(self)@.insert(key@, value),
    {
        proof {
            use_type_invariant(&*self);
        }
        let ghost before = *self;
        let ghost kv = key@;
        match self.position(key.as_slice()) {
            Some(i) => {
                let mut entries: Vec<(Vec<char>, i8)> = Vec::new();
                std::mem::swap(&mut entries, &mut self.entries);
                entries.set(i, (key, value));
                proof {
                    assert forall|a: int, b: int|
                        0 <= a < b < entries@.len() implies #[trigger] entries@[a].0@
                        != #[trigger] entries@[b].0@ by {
                        assert(before.entries@[a].0@ != before.entries@[b].0@);
                    }
                }
                self.entries = entries;
                proof {
                    use_type_invariant(&*self);
                    let after = *self;
                    assert forall|k2: Seq<char>, j: int|
                        after.has_key_at(k2, j) == before.has_key_at(k2, j) by {}
                    after.lemma_view_at(kv, i as int);
                    assert forall|k2: Seq<char>| #[trigger] after@.contains_key(k2) implies
                        after@[k2] == before@.insert(kv, value)[k2] by {
                        if k2 != kv {
                            let c = after.slot_of(k2);
                            assert(after.has_key_at(k2, c));
                            after.lemma_view_at(k2, c);
                            before.lemma_view_at(k2, c);
                        }
                    }
                    assert forall|k2: Seq<char>| before@.insert(kv, value).contains_key(k2)
                        implies #[trigger] after@.contains_key(k2) by {
                        if k2 != kv {
                            let c = before.slot_of(k2);
                            assert(before.has_key_at(k2, c));
                            assert(after.has_key_at(k2, c));
                        }
                    }
                    assert(after@ =~= before@.insert(kv, value));
                }
            },
            None => {
                let mut entries: Vec<(Vec<char>, i8)> = Vec::new();
                std::mem::swap(&mut entries, &mut self.entries);
                entries.push((key, value));
                let ghost n = before.entries@.len() as int;
                proof {
                    assert forall|a: int, b: int|
                        0 <= a < b < entries@.len() implies #[trigger] entries@[a].0@
                        != #[trigger] entries@[b].0@ by {
                        if b == n {
                            assert(before.has_key_at(entries@[a].0@, a));
                        } else {
                            assert(before.entries@[a].0@ != before.entries@[b].0@);
                        }
                    }
                }
                self.entries = entries;
                proof {
                    use_type_invariant(&*self);
                    let after = *self;
                    assert(after.has_key_at(kv, n));
                    after.lemma_view_at(kv, n);
                    assert forall|k2: Seq<char>| #[trigger] after@.contains_key(k2) implies
                        before@.insert(kv, value).contains_key(k2)
                        && after@[k2] == before@.insert(kv, value)[k2] by {
                        if k2 != kv {
                            let c = after.slot_of(k2);
                            assert(after.has_key_at(k2, c));
                            assert(c != n);
                            assert(before.has_key_at(k2, c));
                            after.lemma_view_at(k2, c);
                            before.lemma_view_at(k2, c);
                        }
                    }
                    assert forall|k2: Seq<char>| before@.insert(kv, value).contains_key(k2)
                        implies #[trigger] after@.contains_key(k2) by {
                        if k2 != kv {
                            let c = before.slot_of(k2);
                            assert(before.has_key_at(k2, c));
                            assert(after.has_key_at(k2, c));
                        }
                    }
                    assert(after@ =~= before@.insert(kv, value));
                }
            },
        }
    }
}

/// A line without the carriage return that ended it.
pub open spec fn strip_cr(l: Seq<char>) -> Seq<char> {
    if l.len() > 0 && l.last() == '\r' {
        l.drop_last()
    } else {
        l
    }
}

/// The lines of a text as `str::lines` gives them: split at `\n`, no final
/// empty line after a final `\n`, and a `\r` dropped before each `\n`.
pub open spec fn lines_of(s: Seq<char>) -> Seq<Seq<char>> {
    let raw = split_on(s, '\n');
    let n = if s.len() == 0 || s.last() == '\n' {
        raw.len() - 1
    } else {
        raw.len() as int
    };
    Seq::new(
        n as nat,
        |i: int|
            if i < raw.len() - 1 {
                strip_cr(raw[i])
            } else {
                raw[i]
            },
    )
}

/// One line of the emotion file: the word before the first tab and the
/// value between the first and the second tab; `None` when the line has no
/// tab or the value is no decimal `i8`.
pub open spec fn emotion_line(l: Seq<char>) -> Option<(Seq<char>, i8)> {
    let fields = split_on(l, '\t');
    if fields.len() < 2 {
        None
    } else {
        match parse_signed(fields[1], i8::MIN as int, i8::MAX as int) {
            Some(v) => Some((fields[0], v as i8)),
            None => None,
        }
    }
}

/// The table that the given lines build, a later line overriding an earlier
/// one with the same word; `None` when a line is malformed.
pub open spec fn table_of(lines: Seq<Seq<char>>) -> Option<Map<Seq<char>, i8>>
    decreases lines.len(),
{
    if lines.len() == 0 {
        Some(Map::empty())
    } else {
        match table_of(lines.drop_last()) {
            Some(m) => match emotion_line(lines.last()) {
                Some((k, v)) => Some(m.insert(k, v)),
                None => None,
            },
            None => None,
        }
    }
}

/// Once a prefix of the lines is malformed, so are all the lines.
proof fn lemma_table_of_none(lines: Seq<Seq<char>>, k: int)
    requires
        0 <= k <= lines.len(),
        table_of(lines.take(k)) is None,
    ensures
        table_of(lines) is None,
    decreases lines.len() - k,
{
    if k == lines.len() {
        assert(lines.take(k) =~= lines);
    } else {
        assert(lines.take(k + 1).drop_last() =~= lines.take(k));
        lemma_table_of_none(lines, k + 1);
    }
}

/// Law: of two well-formed lines for the same word, the later one decides
/// its value, and lines for other words keep theirs.
pub proof fn lemma_later_line_wins(lines: Seq<Seq<char>>, first: Seq<char>, second: Seq<char>)
    requires
        table_of(lines) is Some,
        emotion_line(first) matches Some((w1, _)) && emotion_line(second) matches Some((w2, _))
            && w1 == w2,
    ensures
        match emotion_line(second) {
            Some((word, value)) => {
                let both = table_of(lines.push(first).push(second));
                &&& both is Some
                &&& both->0[word] == value
                &&& forall|w: Seq<char>|
                    w != word ==> (both->0.contains_key(w) == table_of(lines)->0.contains_key(
                        w,
                    ))
            },
            None => false,
        },
{
    let one = lines.push(first);
    let two = one.push(second);
    assert(two.drop_last() =~= one);
    assert(one.drop_last() =~= lines);
    assert(two.last() == second);
    assert(one.last() == first);
    let m = table_of(lines)->0;
    let (w1, v1) = emotion_line(first)->0;
    let (w2, v2) = emotion_line(second)->0;
    assert(table_of(one) == Some(m.insert(w1, v1)));
    assert(table_of(two) == Some(m.insert(w1, v1).insert(w2, v2)));
}

/// The table that the text of the emotion file describes.
pub open spec fn emotion_table(text: Seq<char>) -> Option<Map<Seq<char>, i8>> {
    table_of(lines_of(text))
}

/// Builds the emotion table from the text of the emotion file, one
/// `word\tvalue` line at a time; `None` when a line is malformed.
pub fn emotions_from_text(text: &str) -> (res: Option<EmotionTable>)
    ensures
        match emotion_table(text@) {
            Some(m) => res matches Some(t) && t@ == m,
            None => res is None,
        },
{
    let chars = chars_of(text);
    let raw = split_chars(chars.as_slice(), '\n');
    proof {
        crate::scan::lemma_split_on_len(text@, '\n');
    }
    let n_raw = raw.len();
    let n = if chars.len() == 0 || chars[chars.len() - 1] == '\n' {
        n_raw - 1
    } else {
        n_raw
    };
    let ghost lines = lines_of(text@);
    assert(lines.len() == n);
    let mut table = EmotionTable::new();
    let mut i: usize = 0;
    assert(lines.take(0) =~= Seq::<Seq<char>>::empty());
    while i < n
        invariant
            n == lines.len(),
            n <= n_raw,
            n_raw == raw@.len(),
            lines == lines_of(text@),
            char_views(raw@) == split_on(text@, '\n'),
            i <= n,
            table_of(lines.take(i as int)) == Some(table@),
        decreases n - i,
    {
        let full: &Vec<char> = &raw[i];
        let len = full.len();
        let line: &[char] = if i < n_raw - 1 && len > 0 && full[len - 1] == '\r' {
            &full.as_slice()[0..len - 1]
        } else {
            full.as_slice()
        };
        assert(line@ =~= lines[i as int]);
        let fields = split_chars(line, '\t');
        proof {
            assert(lines.take(i + 1).drop_last() =~= lines.take(i as int));
            assert(lines.take(i + 1).last() == lines[i as int]);
        }
        if fields.len() < 2 {
            proof {
                lemma_table_of_none(lines, i + 1);
            }
            return None;
        }
        let value_text = chars_to_string(fields[1].as_slice());
        match parse_i8(value_text.as_str()) {
            None => {
                proof {
                    lemma_table_of_none(lines, i + 1);
                }
                return None;
            },
            Some(v) => {
                let key = vstd::slice::slice_to_vec(fields[0].as_slice());
                table.insert(key, v);
            },
        }
        i = i + 1;
    }
    assert(lines.take(n as int) =~= lines);
    Some(table)
}

/* Laws of the emotion file */

/// The value that a value field gives, as an `i8`.
pub open spec fn value_of_field(v: Seq<char>) -> Option<i8> {
    match parse_signed(v, -128, 127) {
        Some(x) => Some(x as i8),
        None => None,
    }
}

/// Law: a line without a tab is malformed.
pub proof fn lemma_line_without_tab(l: Seq<char>)
    requires
        !l.contains('\t'),
    ensures
        emotion_line(l) is None,
{
    crate::scan::lemma_split_without_sep(l, '\t');
}

/// Law: the word of a line is the whole text before its first tab, spaces
/// and all, and its value is the text after that tab up to the next tab or
/// the end of the line.
pub proof fn lemma_line_word_and_value(word: Seq<char>, value: Seq<char>, tail: Seq<char>)
    requires
        !word.contains('\t'),
        !value.contains('\t'),
    ensures
        emotion_line(word + seq!['\t'] + value) == match value_of_field(value) {
            Some(v) => Some((word, v)),
            None => None::<(Seq<char>, i8)>,
        },
        emotion_line(word + seq!['\t'] + (value + seq!['\t'] + tail)) == match value_of_field(
            value,
        ) {
            Some(v) => Some((word, v)),
            None => None::<(Seq<char>, i8)>,
        },
{
    crate::scan::lemma_split_without_sep(word, '\t');
    crate::scan::lemma_split_without_sep(value, '\t');
    crate::scan::lemma_split_at_sep(word, value, '\t');
    crate::scan::lemma_split_at_sep(value, tail, '\t');
    crate::scan::lemma_split_at_sep(word, value + seq!['\t'] + tail, '\t');
    crate::scan::lemma_split_on_len(tail, '\t');
    let f1 = split_on(word + seq!['\t'] + value, '\t');
    assert(f1 =~= seq![word, value]);
    let f2 = split_on(word + seq!['\t'] + (value + seq!['\t'] + tail), '\t');
    assert(f2 == seq![word] + (seq![value] + split_on(tail, '\t')));
    assert(f2[0] == word);
    assert(f2[1] == value);
}

/// Law: a file of one line `word<TAB>value`, ended by a newline or not,
/// builds the table that maps that whole word to that value, or is refused
/// when the value is no decimal `i8`.
pub proof fn lemma_one_line_file(word: Seq<char>, value: Seq<char>)
    requires
        !word.contains('\t') && !word.contains('\n') && !word.contains('\r'),
        !value.contains('\t') && !value.contains('\n') && !value.contains('\r'),
    ensures
        emotion_table(word + seq!['\t'] + value) == match value_of_field(value) {
            Some(v) => Some(Map::<Seq<char>, i8>::empty().insert(word, v)),
            None => None::<Map<Seq<char>, i8>>,
        },
        emotion_table(word + seq!['\t'] + value + seq!['\n']) == match value_of_field(value) {
            Some(v) => Some(Map::<Seq<char>, i8>::empty().insert(word, v)),
            None => None::<Map<Seq<char>, i8>>,
        },
{
    let line = word + seq!['\t'] + value;
    lemma_line_word_and_value(word, value, Seq::empty());
    assert(!line.contains('\n')) by {
        if line.contains('\n') {
            let j = choose|j: int| 0 <= j < line.len() && line[j] == '\n';
            if j < word.len() {
                assert(word[j] == '\n');
            } else if j > word.len() {
                assert(value[j - word.len() - 1] == '\n');
            }
        }
    }
    assert(line.last() != '\r') by {
        if value.len() > 0 {
            assert(line.last() == value[value.len() - 1]);
        } else {
            assert(line.last() == '\t');
        }
    }
    crate::scan::lemma_split_without_sep(line, '\n');
    assert(lines_of(line) =~= seq![line]);
    crate::scan::lemma_split_at_sep(line, Seq::empty(), '\n');
    assert(line + seq!['\n'] + Seq::<char>::empty() =~= line + seq!['\n']);
    assert(split_on(Seq::<char>::empty(), '\n') =~= seq![Seq::<char>::empty()]);
    assert(split_on(line + seq!['\n'], '\n') =~= seq![line, Seq::<char>::empty()]);
    assert((line + seq!['\n']).last() == '\n');
    assert(strip_cr(line) == line);
    assert(lines_of(line + seq!['\n']) =~= seq![line]);
    assert(seq![line].drop_last() =~= Seq::<Seq<char>>::empty());
    assert(seq![line].last() == line);
    reveal_with_fuel(table_of, 2);
}

/// Law: a text without a newline is one line, itself (none when empty).
pub proof fn lemma_lines_without_newline(l: Seq<char>)
    requires
        !l.contains('\n'),
    ensures
        lines_of(l) == if l.len() == 0 {
            Seq::<Seq<char>>::empty()
        } else {
            seq![l]
        },
{
    crate::scan::lemma_split_without_sep(l, '\n');
    if l.len() == 0 {
        assert(lines_of(l) =~= Seq::<Seq<char>>::empty());
    } else {
        assert(l[l.len() - 1] != '\n');
        assert(lines_of(l) =~= seq![l]);
    }
}

/// Law: the first line of a text is what comes before its first newline,
/// without a carriage return that ends it; the other lines are those of the
/// rest of the text.
pub proof fn lemma_lines_first(l: Seq<char>, rest: Seq<char>)
    requires
        !l.contains('\n'),
    ensures
        lines_of(l + seq!['\n'] + rest) == seq![strip_cr(l)] + lines_of(rest),
{
    let t = l + seq!['\n'] + rest;
    crate::scan::lemma_split_without_sep(l, '\n');
    crate::scan::lemma_split_at_sep(l, rest, '\n');
    crate::scan::lemma_split_on_len(rest, '\n');
    let raw = split_on(t, '\n');
    let rr = split_on(rest, '\n');
    assert(raw == seq![l] + rr);
    if rest.len() == 0 {
        assert(t.last() == '\n');
        assert(rr =~= seq![Seq::<char>::empty()]);
        assert(lines_of(rest) =~= Seq::<Seq<char>>::empty());
        assert(lines_of(t) =~= seq![strip_cr(l)] + lines_of(rest));
    } else {
        assert(t.last() == rest.last());
        assert(lines_of(t) =~= seq![strip_cr(l)] + lines_of(rest));
    }
}

} // verus!
