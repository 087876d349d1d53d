//! Byte-level scanning of UTF-8 text: pattern search, field cutting, and
//! the decimal number grammar that the pipeline reads.
use vstd::prelude::*;
use vstd::std_specs::iter::IteratorSpec;
use vstd::utf8::*;

verus! {

broadcast use vstd::seq::group_seq_axioms;

/// True when `pat` occurs in `s` starting at byte `i`.
pub open spec fn matches_at(s: Seq<u8>, pat: Seq<u8>, i: int) -> bool {
    0 <= i && i + pat.len() <= s.len() && s.subrange(i, i + pat.len()) == pat
}

/// The first position at or after `i` where `pat` occurs in `s`.
pub open spec fn find_from(s: Seq<u8>, pat: Seq<u8>, i: int) -> Option<int>
    decreases s.len() + 1 - i,
{
    if i < 0 || i + pat.len() > s.len() {
        None
    } else if s.subrange(i, i + pat.len()) == pat {
        Some(i)
    } else {
        find_from(s, pat, i + 1)
    }
}

/// Every position between `i` and a result of `find_from` does not match, and
/// the result itself matches.
pub proof fn lemma_find_from(s: Seq<u8>, pat: Seq<u8>, i: int)
    requires
        0 <= i,
    ensures
        match find_from(s, pat, i) {
            Some(k) => i <= k && matches_at(s, pat, k) && forall|j: int|
                i <= j < k ==> !matches_at(s, pat, j),
            None => forall|j: int| i <= j ==> !matches_at(s, pat, j),
        },
    decreases s.len() + 1 - i,
{
    if i + pat.len() > s.len() {
    } else if s.subrange(i, i + pat.len()) == pat {
    } else {
        lemma_find_from(s, pat, i + 1);
    }
}

/// True when `s[i..i + pat.len()]` equals `pat`.
fn bytes_match_at(s: &[u8], pat: &[u8], i: usize) -> (res: bool)
    requires
        i + pat@.len() <= s@.len(),
    ensures
        res == (s@.subrange(i as int, i + pat@.len()) == pat@),
{
    let n = s.len();
    let mut j: usize = 0;
    while j < pat.len()
        invariant
            n == s@.len(),
            j <= pat@.len(),
            i + pat@.len() <= s@.len(),
            forall|k: int| 0 <= k < j ==> s@[i + k] == pat@[k],
        decreases pat@.len() - j,
    {
        if s[i + j] != pat[j] {
            assert(s@.subrange(i as int, i + pat@.len())[j as int] != pat@[j as int]);
            return false;
        }
        j = j + 1;
    }
    assert(s@.subrange(i as int, i + pat@.len()) =~= pat@);
    true
}

/// The first position at or after `start` where `pat` occurs in `s`.
pub fn find_bytes(s: &[u8], pat: &[u8], start: usize) -> (res: Option<usize>)
    ensures
        match res {
            Some(k) => find_from(s@, pat@, start as int) == Some(k as int),
            None => find_from(s@, pat@, start as int) is None,
        },
{
    if start > s.len() || pat.len() > s.len() - start {
        return None;
    }
    let last = s.len() - pat.len();
    let mut i = start;
    loop
        invariant
            start <= i <= last,
            last + pat@.len() == s@.len(),
            find_from(s@, pat@, start as int) == find_from(s@, pat@, i as int),
        decreases last - i,
    {
        if bytes_match_at(s, pat, i) {
            return Some(i);
        }
        if i == last {
            return None;
        }
        i = i + 1;
    }
}

/// The outcome of cutting a field out of a text: the key is absent, the
/// field lies in the byte range `[start, end)`, or the text is malformed in a
/// way that makes the cut impossible.
pub enum FieldCut {
    Absent,
    Found(int, int),
    Broken,
}

/// Cutting the field that follows `key`: skip `skip` bytes from the start of
/// the key, which must land on a character boundary, and stop before the next
/// `stop` byte, which must exist.
pub open spec fn cut_field(data: Seq<u8>, key: Seq<u8>, skip: int, stop: u8) -> FieldCut {
    match find_from(data, key, 0) {
        None => FieldCut::Absent,
        Some(i) => if !is_char_boundary(data, i + skip) {
            FieldCut::Broken
        } else {
            match find_from(data, seq![stop], i + skip) {
                None => FieldCut::Broken,
                Some(j) => FieldCut::Found(i + skip, j),
            }
        },
    }
}

/// Splitting a valid text at an ASCII byte leaves valid text on both sides.
pub proof fn lemma_split_at_ascii(s: Seq<u8>, j: int)
    requires
        valid_utf8(s),
        0 <= j < s.len(),
        s[j] < 0x80,
    ensures
        valid_utf8(s.subrange(0, j)),
        valid_utf8(s.subrange(j + 1, s.len() as int)),
{
    is_char_boundary_iff_not_is_continuation_byte(s, j);
    valid_utf8_split(s, j);
    let t = s.subrange(j, s.len() as int);
    assert(t[0] == s[j]);
    assert(pop_first_scalar(t) =~= s.subrange(j + 1, s.len() as int));
}

/// A valid text is still valid from any character boundary on, up to any
/// later ASCII byte or to its end.
pub proof fn lemma_piece_valid(s: Seq<u8>, a: int, b: int)
    requires
        valid_utf8(s),
        is_char_boundary(s, a),
        0 <= a <= b <= s.len(),
        b == s.len() || s[b] < 0x80,
    ensures
        valid_utf8(s.subrange(a, b)),
{
    valid_utf8_split(s, a);
    let t = s.subrange(a, s.len() as int);
    if b == s.len() {
        assert(t =~= s.subrange(a, b));
    } else {
        lemma_split_at_ascii(t, b - a);
        assert(t.subrange(0, b - a) =~= s.subrange(a, b));
    }
}

/// True when byte `k` of a valid text starts a character (or is its end).
pub fn char_boundary_at(s: &[u8], k: usize) -> (res: bool)
    requires
        valid_utf8(s@),
    ensures
        res == is_char_boundary(s@, k as int),
{
    if k > s.len() {
        return false;
    }
    proof {
        is_char_boundary_start_end_of_seq(s@);
    }
    if k == s.len() {
        return true;
    }
    proof {
        is_char_boundary_iff_not_is_continuation_byte(s@, k as int);
    }
    !(0x80 <= s[k] && s[k] <= 0xbf)
}

/// Cuts the field that follows `key`, as [`cut_field`] describes.
pub fn cut_bytes(data: &[u8], key: &[u8], skip: usize, stop: u8) -> (res: Result<
    Option<(usize, usize)>,
    (),
>)
    requires
        valid_utf8(data@),
    ensures
        match cut_field(data@, key@, skip as int, stop) {
            FieldCut::Absent => res == Ok::<Option<(usize, usize)>, ()>(None),
            FieldCut::Found(a, b) => res matches Ok(Some((x, y))) && x == a && y == b,
            FieldCut::Broken => res is Err,
        },
        res matches Ok(Some((x, y))) ==> x <= y < data@.len() && data@[y as int] == stop
            && is_char_boundary(data@, x as int),
{
    match find_bytes(data, key, 0) {
        None => Ok(None),
        Some(i) => {
            proof {
                lemma_find_from(data@, key@, 0);
            }
            if skip > data.len() - i {
                proof {
                    assert(!is_char_boundary(data@, i + skip)) by {
                        if is_char_boundary(data@, i + skip) {
                            reveal_with_fuel(is_char_boundary, 1);
                        }
                    }
                }
                return Err(());
            }
            let start = i + skip;
            if !char_boundary_at(data, start) {
                return Err(());
            }
            let stop_pat: [u8; 1] = [stop];
            let stop_slice: &[u8] = &stop_pat;
            assert(stop_slice@ =~= seq![stop]);
            match find_bytes(data, stop_slice, start) {
                None => Err(()),
                Some(j) => {
                    proof {
                        lemma_find_from(data@, seq![stop], start as int);
                        assert(data@.subrange(j as int, j + 1)[0] == data@[j as int]);
                    }
                    Ok(Some((start, j)))
                },
            }
        },
    }
}

/// Converts bytes to a `String`, or gives `None` when they are not UTF-8.
///
/// Wraps `String::from_utf8`, which std documents to fail exactly on bytes
/// that are not valid UTF-8; on success the string holds the decoded text.
#[verifier::external_body]
pub fn utf8_to_string(bytes: Vec<u8>) -> (res: Option<String>)
    ensures
        res is Some <==> valid_utf8(bytes@),
        res matches Some(s) ==> s@ == decode_utf8(bytes@),
{
    String::from_utf8(bytes).ok()
}

/// The text of the bytes `[a, b)` of a valid text.
pub fn piece_string(data: &[u8], a: usize, b: usize) -> (s: String)
    requires
        valid_utf8(data@),
        is_char_boundary(data@, a as int),
        a <= b <= data@.len(),
        b == data@.len() || data@[b as int] < 0x80,
    ensures
        valid_utf8(data@.subrange(a as int, b as int)),
        s@ == decode_utf8(data@.subrange(a as int, b as int)),
{
    proof {
        lemma_piece_valid(data@, a as int, b as int);
    }
    let piece = vstd::slice::slice_to_vec(&data[a..b]);
    utf8_to_string(piece).unwrap()
}

/* The decimal grammar of `str::parse` for integers */

/// True when `c` is an ASCII decimal digit.
pub open spec fn is_digit(c: char) -> bool {
    '0' <= c <= '9'
}

/// The value of a sequence of decimal digits, most significant first.
pub open spec fn decimal_value(s: Seq<char>) -> int
    decreases s.len(),
{
    if s.len() == 0 {
        0
    } else {
        decimal_value(s.drop_last()) * 10 + ((s.last() as u32) - 48)
    }
}

/// True when `s` is a non-empty run of decimal digits.
pub open spec fn is_digit_run(s: Seq<char>) -> bool {
    s.len() > 0 && forall|i: int| 0 <= i < s.len() ==> is_digit(#[trigger] s[i])
}

/// The value that `str::parse` gives an unsigned integer type whose largest
/// value is `max`: an optional `+`, then digits, within range.
pub open spec fn parse_unsigned(s: Seq<char>, max: int) -> Option<int> {
    let digits = if s.len() > 0 && s[0] == '+' {
        s.drop_first()
    } else {
        s
    };
    if is_digit_run(digits) && decimal_value(digits) <= max {
        Some(decimal_value(digits))
    } else {
        None
    }
}

/// The value that `from_str_radix(_, 10)` gives a signed integer type with
/// range `[min, max]`: an optional `+` or `-`, then digits, within range.
pub open spec fn parse_signed(s: Seq<char>, min: int, max: int) -> Option<int> {
    if s.len() > 0 && s[0] == '-' {
        let digits = s.drop_first();
        if is_digit_run(digits) && min <= -decimal_value(digits) {
            Some(-decimal_value(digits))
        } else {
            None
        }
    } else {
        match parse_unsigned(s, max) {
            Some(v) => Some(v),
            None => None,
        }
    }
}

/// Law: the value of digits written one after the other is that of the
/// first ones shifted by as many places as the second ones have, plus that
/// of the second ones.
pub proof fn lemma_decimal_value_concat(a: Seq<char>, b: Seq<char>)
    ensures
        decimal_value(a + b) == decimal_value(a) * vstd::arithmetic::power::pow(10, b.len())
            + decimal_value(b),
    decreases b.len(),
{
    reveal(vstd::arithmetic::power::pow);
    if b.len() == 0 {
        assert(a + b =~= a);
        assert(vstd::arithmetic::power::pow(10, 0) == 1);
        assert(decimal_value(a) * 1 == decimal_value(a));
    } else {
        let b1 = b.drop_last();
        assert((a + b).drop_last() =~= a + b1);
        assert((a + b).last() == b.last());
        lemma_decimal_value_concat(a, b1);
        let p1 = vstd::arithmetic::power::pow(10, b1.len());
        assert(vstd::arithmetic::power::pow(10, b.len()) == 10 * p1);
        let x = decimal_value(a);
        let y = decimal_value(b1);
        assert((x * p1 + y) * 10 == x * (10 * p1) + y * 10) by (nonlinear_arith);
        let d = (b.last() as u32) - 48;
        assert(decimal_value(a + b) == decimal_value(a + b1) * 10 + d);
        assert(decimal_value(b) == y * 10 + d);
    }
}

/// Law: a text reads as an unsigned number exactly when, after one optional
/// leading `+`, it is a non-empty run of digits whose value is within the
/// bound; the number is that value.
pub proof fn lemma_parse_unsigned_shape(s: Seq<char>, max: int)
    ensures
        parse_unsigned(s, max) is Some <==> (exists|start: int|
            (start == 0 || (start == 1 && s[0] == '+')) && start < s.len() && (forall|i: int|
                start <= i < s.len() ==> is_digit(#[trigger] s[i])) && decimal_value(
                s.subrange(start, s.len() as int),
            ) <= max),
        parse_unsigned(s, max) matches Some(v) ==> v == decimal_value(
            if s[0] == '+' {
                s.drop_first()
            } else {
                s
            },
        ),
{
    let digits = if s.len() > 0 && s[0] == '+' {
        s.drop_first()
    } else {
        s
    };
    let start: int = if s.len() > 0 && s[0] == '+' {
        1
    } else {
        0
    };
    assert(digits =~= s.subrange(start, s.len() as int));
    if parse_unsigned(s, max) is Some {
        assert forall|i: int| start <= i < s.len() implies is_digit(#[trigger] s[i]) by {
            assert(digits[i - start] == s[i]);
        }
    }
    if exists|st: int|
        (st == 0 || (st == 1 && s[0] == '+')) && st < s.len() && (forall|i: int|
            st <= i < s.len() ==> is_digit(#[trigger] s[i])) && decimal_value(
            s.subrange(st, s.len() as int),
        ) <= max {
        let st = choose|st: int|
            (st == 0 || (st == 1 && s[0] == '+')) && st < s.len() && (forall|i: int|
                st <= i < s.len() ==> is_digit(#[trigger] s[i])) && decimal_value(
                s.subrange(st, s.len() as int),
            ) <= max;
        if st == 0 && s[0] == '+' {
            assert(is_digit(s[0]));
        }
        assert(st == start);
        assert forall|i: int| 0 <= i < digits.len() implies is_digit(#[trigger] digits[i]) by {
            assert(digits[i] == s[i + start]);
        }
    }
}

/// Parses a decimal `usize`.
///
/// Wraps `str::parse::<usize>`: std documents that it accepts an optional
/// `+` followed by one or more ASCII digits and fails on anything else or on
/// a value above `usize::MAX`; on success it returns the decimal value.
#[verifier::external_body]
pub fn parse_usize(s: &str) -> (res: Option<usize>)
    ensures
        match parse_unsigned(s@, usize::MAX as int) {
            Some(v) => res == Some(v as usize),
            None => res is None,
        },
{
    s.parse::<usize>().ok()
}

/// Parses a decimal `i8`.
///
/// Wraps `i8::from_str_radix(_, 10)`: std documents that it accepts an
/// optional `+` or `-` followed by one or more ASCII digits and fails on
/// anything else or on a value outside `-128..=127`; on success it returns
/// the signed decimal value.
#[verifier::external_body]
pub fn parse_i8(s: &str) -> (res: Option<i8>)
    ensures
        match parse_signed(s@, i8::MIN as int, i8::MAX as int) {
            Some(v) => res == Some(v as i8),
            None => res is None,
        },
{
    i8::from_str_radix(s, 10).ok()
}

} // verus!

verus! {

/* Character-level text */

/// The characters of a string slice, in order.
pub fn chars_of(s: &str) -> (v: Vec<char>)
    ensures
        v@ == s@,
{
    broadcast use vstd::string::group_string_axioms;

    let mut it = s.chars();
    let mut v: Vec<char> = Vec::new();
    loop
        invariant
            v@ + it.remaining() == s@,
            it.obeys_prophetic_iter_laws(),
            it.decrease() is Some,
        ensures
            v@ == s@,
        decreases it.decrease()->0,
    {
        match it.next() {
            Some(c) => {
                v.push(c);
            },
            None => {
                assert(v@ =~= s@);
                break ;
            },
        }
    }
    v
}

} // verus!

verus! {

/// The pieces of `s` between occurrences of `sep`, as `str::split` with a
/// one-character pattern gives them: there is always at least one piece.
pub open spec fn split_on(s: Seq<char>, sep: char) -> Seq<Seq<char>>
    decreases s.len(),
{
    if s.len() == 0 {
        seq![Seq::<char>::empty()]
    } else {
        let w = split_on(s.drop_last(), sep);
        if s.last() == sep {
            w.push(Seq::<char>::empty())
        } else {
            w.update(w.len() - 1, w.last().push(s.last()))
        }
    }
}

/// Splitting always gives at least one piece, and one more than there are
/// separators.
pub proof fn lemma_split_on_len(s: Seq<char>, sep: char)
    ensures
        split_on(s, sep).len() >= 1,
    decreases s.len(),
{
    if s.len() > 0 {
        lemma_split_on_len(s.drop_last(), sep);
    }
}

/// Law: a text without the separator is one piece, the text itself.
pub proof fn lemma_split_without_sep(a: Seq<char>, sep: char)
    requires
        !a.contains(sep),
    ensures
        split_on(a, sep) == seq![a],
    decreases a.len(),
{
    if a.len() > 0 {
        let b = a.drop_last();
        assert(!b.contains(sep)) by {
            if b.contains(sep) {
                let j = choose|j: int| 0 <= j < b.len() && b[j] == sep;
                assert(a[j] == sep);
            }
        }
        assert(a[a.len() - 1] != sep);
        lemma_split_without_sep(b, sep);
        assert(b.push(a.last()) =~= a);
        assert(split_on(a, sep) =~= seq![a]);
    } else {
        assert(a =~= Seq::<char>::empty());
    }
}

/// Law: a separator splits the text into the pieces before it followed by
/// the pieces after it.
pub proof fn lemma_split_at_sep(a: Seq<char>, b: Seq<char>, sep: char)
    ensures
        split_on(a + seq![sep] + b, sep) == split_on(a, sep) + split_on(b, sep),
    decreases b.len(),
{
    let s = a + seq![sep] + b;
    if b.len() == 0 {
        assert(s.drop_last() =~= a);
        assert(split_on(a, sep).push(Seq::<char>::empty()) =~= split_on(a, sep) + seq![
            Seq::<char>::empty(),
        ]);
    } else {
        let c = b.last();
        let b1 = b.drop_last();
        assert(s.drop_last() =~= a + seq![sep] + b1);
        assert(s.last() == c);
        lemma_split_at_sep(a, b1, sep);
        lemma_split_on_len(a, sep);
        lemma_split_on_len(b1, sep);
        let pa = split_on(a, sep);
        let pb = split_on(b1, sep);
        if c == sep {
            assert((pa + pb).push(Seq::<char>::empty()) =~= pa + pb.push(Seq::<char>::empty()));
        } else {
            let w = pa + pb;
            assert(w.last() == pb.last());
            assert(w.update(w.len() - 1, w.last().push(c)) =~= pa + pb.update(
                pb.len() - 1,
                pb.last().push(c),
            ));
        }
    }
}

/// Law: no piece holds the separator.
pub proof fn lemma_split_pieces_without_sep(s: Seq<char>, sep: char, i: int)
    requires
        0 <= i < split_on(s, sep).len(),
    ensures
        !split_on(s, sep)[i].contains(sep),
    decreases s.len(),
{
    if s.len() > 0 {
        let w = split_on(s.drop_last(), sep);
        lemma_split_on_len(s.drop_last(), sep);
        if s.last() == sep {
            if i < w.len() {
                lemma_split_pieces_without_sep(s.drop_last(), sep, i);
            }
        } else if i < w.len() - 1 {
            lemma_split_pieces_without_sep(s.drop_last(), sep, i);
        } else {
            lemma_split_pieces_without_sep(s.drop_last(), sep, i);
            let p = w.last().push(s.last());
            assert(!p.contains(sep)) by {
                if p.contains(sep) {
                    let j = choose|j: int| 0 <= j < p.len() && p[j] == sep;
                    if j < p.len() - 1 {
                        assert(w.last()[j] == sep);
                    }
                }
            }
        }
    }
}

/// The character sequences that a sequence of character vectors holds.
pub open spec fn char_views(v: Seq<Vec<char>>) -> Seq<Seq<char>> {
    v.map_values(|p: Vec<char>| p@)
}

/// Splits a character sequence at every occurrence of `sep`.
pub fn split_chars(s: &[char], sep: char) -> (parts: Vec<Vec<char>>)
    ensures
        char_views(parts@) == split_on(s@, sep),
{
    let n = s.len();
    let mut done: Vec<Vec<char>> = Vec::new();
    let mut cur: Vec<char> = Vec::new();
    let mut i: usize = 0;
    assert(s@.take(0) =~= Seq::<char>::empty());
    while i < n
        invariant
            n == s@.len(),
            i <= n,
            split_on(s@.take(i as int), sep) =~= char_views(done@).push(cur@),
        decreases n - i,
    {
        let c = s[i];
        proof {
            assert(s@.take(i + 1).drop_last() =~= s@.take(i as int));
            lemma_split_on_len(s@.take(i as int), sep);
        }
        if c == sep {
            let finished = cur;
            done.push(finished);
            cur = Vec::new();
            assert(char_views(done@) =~= split_on(s@.take(i as int), sep));
        } else {
            cur.push(c);
        }
        i = i + 1;
    }
    assert(s@.take(n as int) =~= s@);
    let last = cur;
    done.push(last);
    assert(char_views(done@) =~= split_on(s@, sep));
    done
}

/// A `String` holding the given characters.
///
/// Wraps `String`'s `FromIterator<&char>`, which std documents to append the
/// characters in order to an empty string.
#[verifier::external_body]
pub fn chars_to_string(cs: &[char]) -> (s: String)
    ensures
        s@ == cs@,
{
    cs.iter().collect()
}

/// True when two character sequences are equal.
pub fn chars_equal(a: &[char], b: &[char]) -> (res: bool)
    ensures
        res == (a@ == b@),
{
    if a.len() != b.len() {
        return false;
    }
    let n = a.len();
    let mut i: usize = 0;
    while i < n
        invariant
            n == a@.len(),
            n == b@.len(),
            i <= n,
            forall|k: int| 0 <= k < i ==> a@[k] == b@[k],
        decreases n - i,
    {
        if a[i] != b[i] {
            return false;
        }
        i = i + 1;
    }
    assert(a@ =~= b@);
    true
}

} // verus!
