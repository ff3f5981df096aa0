//! Texts: comparison, assembly and the decimal rendering of counts.

use vstd::prelude::*;

verus! {

/// `String::push` appends one character.
pub assume_specification[ String::push ](text: &mut String, c: char)
    ensures
        final(text)@ == old(text)@.push(c),
;

/// Whether two texts hold the same characters.
pub fn same_text(a: &str, b: &str) -> (r: bool)
    ensures
        r == (a@ == b@),
{
    a.to_owned() == b.to_owned()
}

/// The characters of `text`, in order.
pub fn chars_of(text: &str) -> (r: Vec<char>)
    ensures
        r@ == text@,
{
    let mut chars: Vec<char> = Vec::new();
    let n: usize = text.unicode_len();
    let mut i: usize = 0;
    while i < n
        invariant
            n == text@.len(),
            i <= n,
            chars@ == text@.take(i as int),
        decreases n - i,
    {
        chars.push(text.get_char(i));
        proof {
            assert(text@.take(i + 1) =~= text@.take(i as int).push(text@[i as int]));
        }
        i = i + 1;
    }
    assert(text@.take(n as int) =~= text@);
    chars
}

/// `chars[from..to]` as a text.
pub fn text_of(chars: &Vec<char>, from: usize, to: usize) -> (r: String)
    requires
        from <= to <= chars@.len(),
    ensures
        r@ == chars@.subrange(from as int, to as int),
{
    let mut text = String::new();
    let mut i: usize = from;
    while i < to
        invariant
            from <= i <= to <= chars@.len(),
            text@ == chars@.subrange(from as int, i as int),
        decreases to - i,
    {
        text.push(chars[i]);
        proof {
            assert(chars@.subrange(from as int, i + 1) =~= chars@.subrange(from as int, i as int).push(
                chars@[i as int],
            ));
        }
        i = i + 1;
    }
    text
}

// ---------------------------------------------------------------------------
// Counts in decimal
// ---------------------------------------------------------------------------

pub open spec fn digit(d: nat) -> char {
    (48 + d) as char
}

/// A count in decimal notation, without leading zeros.
pub open spec fn decimal(n: nat) -> Seq<char>
    decreases n,
{
    if n < 10 {
        seq![digit(n)]
    } else {
        decimal(n / 10).push(digit(n % 10))
    }
}

fn digit_char(d: u64) -> (c: char)
    requires
        d < 10,
    ensures
        c == digit(d as nat),
{
    (48 + d as u8) as char
}

pub fn text_of_count(n: u64) -> (r: String)
    ensures
        r@ == decimal(n as nat),
    decreases n,
{
    if n < 10 {
        let mut text = String::new();
        text.push(digit_char(n));
        assert(text@ =~= decimal(n as nat));
        text
    } else {
        let mut text = text_of_count(n / 10);
        text.push(digit_char(n % 10));
        text
    }
}

/// A whole number in decimal notation.
pub open spec fn signed_decimal(n: int) -> Seq<char> {
    if n < 0 {
        seq!['-'] + decimal((-n) as nat)
    } else {
        decimal(n as nat)
    }
}

pub fn text_of_integer(n: i64) -> (r: String)
    ensures
        r@ == signed_decimal(n as int),
{
    if n >= 0 {
        return text_of_count(n as u64);
    }
    let mut text = String::new();
    text.push('-');
    text.append(text_of_count((-(n as i128)) as u64).as_str());
    assert(text@ =~= signed_decimal(n as int));
    text
}

// ---------------------------------------------------------------------------
// Assembly
// ---------------------------------------------------------------------------

/// The characters of each text.
pub open spec fn texts(parts: Seq<String>) -> Seq<Seq<char>> {
    parts.map_values(|part: String| part@)
}

/// The parts with `separator` between each two.
pub open spec fn joined(parts: Seq<Seq<char>>, separator: Seq<char>) -> Seq<char>
    decreases parts.len(),
{
    if parts.len() == 0 {
        Seq::empty()
    } else if parts.len() == 1 {
        parts[0]
    } else {
        joined(parts.drop_last(), separator) + separator + parts.last()
    }
}

pub fn join(parts: &Vec<String>, separator: &str) -> (r: String)
    ensures
        r@ == joined(texts(parts@), separator@),
{
    let mut text = String::new();
    let mut i: usize = 0;
    while i < parts.len()
        invariant
            i <= parts@.len(),
            text@ == joined(texts(parts@).take(i as int), separator@),
        decreases parts@.len() - i,
    {
        if i > 0 {
            text.append(separator);
        }
        text.append(parts[i].as_str());
        proof {
            let next = texts(parts@).take(i + 1);
            assert(next.drop_last() =~= texts(parts@).take(i as int));
            assert(next.last() == parts@[i as int]@);
            if i == 0 {
                assert(text@ =~= parts@[0]@);
            }
        }
        i = i + 1;
    }
    assert(texts(parts@).take(i as int) =~= texts(parts@));
    text
}

/// Appends a text to a list of texts.
pub proof fn lemma_texts_push(parts: Seq<String>, part: String)
    ensures
        texts(parts.push(part)) == texts(parts).push(part@),
{
    assert(texts(parts.push(part)) =~= texts(parts).push(part@));
}

// ---------------------------------------------------------------------------
// Taking texts apart
// ---------------------------------------------------------------------------

/// The characters that Unicode counts as white space.
pub open spec fn is_white(c: char) -> bool {
    ||| '\u{9}' <= c <= '\u{d}'
    ||| c == ' '
    ||| c == '\u{85}'
    ||| c == '\u{a0}'
    ||| c == '\u{1680}'
    ||| '\u{2000}' <= c <= '\u{200a}'
    ||| c == '\u{2028}'
    ||| c == '\u{2029}'
    ||| c == '\u{202f}'
    ||| c == '\u{205f}'
    ||| c == '\u{3000}'
}

fn white(c: char) -> (r: bool)
    ensures
        r == is_white(c),
{
    ('\u{9}' <= c && c <= '\u{d}') || c == ' ' || c == '\u{85}' || c == '\u{a0}' || c == '\u{1680}' || (
    '\u{2000}' <= c && c <= '\u{200a}') || c == '\u{2028}' || c == '\u{2029}' || c == '\u{202f}' || c
        == '\u{205f}' || c == '\u{3000}'
}

pub open spec fn trimmed_front(text: Seq<char>) -> Seq<char>
    decreases text.len(),
{
    if text.len() > 0 && is_white(text[0]) {
        trimmed_front(text.drop_first())
    } else {
        text
    }
}

pub open spec fn trimmed_back(text: Seq<char>) -> Seq<char>
    decreases text.len(),
{
    if text.len() > 0 && is_white(text.last()) {
        trimmed_back(text.drop_last())
    } else {
        text
    }
}

/// A text without the white space at its ends.
pub open spec fn trimmed(text: Seq<char>) -> Seq<char> {
    trimmed_back(trimmed_front(text))
}

/// Removes the white space at both ends.
pub fn trim(text: &str) -> (r: String)
    ensures
        r@ == trimmed(text@),
{
    let chars: Vec<char> = chars_of(text);
    let mut from: usize = 0;
    assert(text@.skip(0) =~= text@);
    while from < chars.len() && white(chars[from])
        invariant
            from <= chars@.len(),
            chars@ == text@,
            trimmed_front(text@) == trimmed_front(text@.skip(from as int)),
        decreases chars@.len() - from,
    {
        assert(text@.skip(from as int).drop_first() =~= text@.skip(from + 1));
        from = from + 1;
    }
    let ghost rest = text@.skip(from as int);
    assert(trimmed_front(text@) == rest);
    let mut to: usize = chars.len();
    assert(chars@.subrange(from as int, to as int) =~= rest);
    while from < to && white(chars[to - 1])
        invariant
            from <= to <= chars@.len(),
            trimmed_back(rest) == trimmed_back(chars@.subrange(from as int, to as int)),
        decreases to,
    {
        assert(chars@.subrange(from as int, to as int).drop_last() =~= chars@.subrange(
            from as int,
            to - 1,
        ));
        to = to - 1;
    }
    text_of(&chars, from, to)
}

/// A character with an ASCII capital turned into its small letter.
pub open spec fn lowered(c: char) -> char {
    if 'A' <= c <= 'Z' {
        (c as u32 + 32) as char
    } else {
        c
    }
}

/// A text with its ASCII capitals turned into small letters.
pub fn lowercase(text: &str) -> (r: String)
    ensures
        r@ == text@.map_values(|c: char| lowered(c)),
{
    let chars: Vec<char> = chars_of(text);
    let mut out = String::new();
    let mut i: usize = 0;
    while i < chars.len()
        invariant
            i <= chars@.len(),
            chars@ == text@,
            out@ == text@.take(i as int).map_values(|c: char| lowered(c)),
        decreases chars@.len() - i,
    {
        let c: char = chars[i];
        if 'A' <= c && c <= 'Z' {
            out.push((c as u8 + 32) as char);
        } else {
            out.push(c);
        }
        proof {
            let f = |c: char| lowered(c);
            assert(text@.take(i + 1).map_values(f) =~= text@.take(i as int).map_values(f).push(
                lowered(c),
            ));
        }
        i = i + 1;
    }
    assert(text@.take(i as int) =~= text@);
    out
}

/// Whether `text` ends in `suffix`.
pub fn ends_with(text: &str, suffix: &str) -> (r: bool)
    ensures
        r == suffix@.is_suffix_of(text@),
{
    let chars: Vec<char> = chars_of(text);
    let tail: Vec<char> = chars_of(suffix);
    if tail.len() > chars.len() {
        return false;
    }
    let start: usize = chars.len() - tail.len();
    let mut i: usize = 0;
    while i < tail.len()
        invariant
            i <= tail@.len() <= chars@.len(),
            chars@ == text@,
            tail@ == suffix@,
            start + tail.len() == chars.len(),
            forall|j: int| 0 <= j < i ==> tail@[j] == #[trigger] chars@[start + j],
        decreases tail@.len() - i,
    {
        if chars[start + i] != tail[i] {
            assert(text@.subrange(start as int, text@.len() as int)[i as int] != suffix@[i as int]);
            return false;
        }
        i = i + 1;
    }
    proof {
        let end = text@.subrange(start as int, text@.len() as int);
        assert forall|j: int| 0 <= j < suffix@.len() implies end[j] == suffix@[j] by {
            assert(tail@[j] == chars@[start + j]);
        }
        assert(end =~= suffix@);
    }
    true
}

/// The pieces of a text between the `separator`s.
pub open spec fn pieces(text: Seq<char>, separator: char) -> Seq<Seq<char>>
    decreases text.len(),
{
    if text.len() == 0 {
        seq![Seq::empty()]
    } else {
        let before = pieces(text.drop_last(), separator);
        if text.last() == separator {
            before.push(Seq::empty())
        } else {
            before.drop_last().push(before.last().push(text.last()))
        }
    }
}

proof fn lemma_pieces_nonempty(text: Seq<char>, separator: char)
    ensures
        pieces(text, separator).len() > 0,
    decreases text.len(),
{
    if text.len() > 0 {
        lemma_pieces_nonempty(text.drop_last(), separator);
    }
}

/// Splits a text at every `separator`.
pub fn split(text: &str, separator: char) -> (r: Vec<String>)
    ensures
        texts(r@) == pieces(text@, separator),
{
    let chars: Vec<char> = chars_of(text);
    let mut done: Vec<String> = Vec::new();
    let mut piece = String::new();
    let mut i: usize = 0;
    proof {
        assert(texts(done@).push(piece@) =~= pieces(text@.take(0), separator));
    }
    while i < chars.len()
        invariant
            i <= chars@.len(),
            chars@ == text@,
            texts(done@).push(piece@) == pieces(text@.take(i as int), separator),
        decreases chars@.len() - i,
    {
        let ghost before = texts(done@).push(piece@);
        let c: char = chars[i];
        proof {
            assert(text@.take(i + 1).drop_last() =~= text@.take(i as int));
            assert(before.drop_last() =~= texts(done@));
        }
        if c == separator {
            proof {
                lemma_texts_push(done@, piece);
            }
            done.push(piece);
            piece = String::new();
            assert(piece@ =~= Seq::<char>::empty());
        } else {
            piece.push(c);
        }
        i = i + 1;
    }
    assert(text@.take(i as int) =~= text@);
    proof {
        lemma_texts_push(done@, piece);
    }
    done.push(piece);
    done
}

/// The value of a run of decimal digits.
pub open spec fn digits_value(text: Seq<char>) -> nat
    decreases text.len(),
{
    if text.len() == 0 {
        0
    } else {
        digits_value(text.drop_last()) * 10 + (text.last() as u32 - 48) as nat
    }
}

pub open spec fn is_digit(c: char) -> bool {
    '0' <= c <= '9'
}

pub open spec fn all_digits(text: Seq<char>) -> bool {
    text.len() > 0 && forall|i: int| 0 <= i < text.len() ==> is_digit(#[trigger] text[i])
}

/// The count a text denotes: decimal digits, after a `+` or not, that fit in 64
/// bits.
pub open spec fn count_reading(text: Seq<char>) -> Option<u64> {
    let digits = if text.len() > 0 && text[0] == '+' {
        text.skip(1)
    } else {
        text
    };
    if all_digits(digits) && digits_value(digits) <= u64::MAX {
        Some(digits_value(digits) as u64)
    } else {
        None
    }
}

proof fn lemma_digits_grow(text: Seq<char>, n: int)
    requires
        0 <= n <= text.len(),
        all_digits(text),
    ensures
        digits_value(text.take(n)) <= digits_value(text),
    decreases text.len() - n,
{
    if n < text.len() {
        lemma_digits_grow(text, n + 1);
        let next = text.take(n + 1);
        assert(next.drop_last() =~= text.take(n));
        assert(is_digit(text[n]));
        assert(digits_value(next) >= digits_value(text.take(n)));
    } else {
        assert(text.take(n) =~= text);
    }
}

pub fn parse_count(text: &str) -> (r: Option<u64>)
    ensures
        r == count_reading(text@),
{
    let chars: Vec<char> = chars_of(text);
    let mut i: usize = 0;
    if chars.len() > 0 && chars[0] == '+' {
        i = 1;
    }
    let ghost start = i as int;
    let ghost digits = text@.skip(start);
    assert(start == 0 ==> digits =~= text@);
    if i >= chars.len() {
        return None;
    }
    let mut value: u64 = 0;
    assert(digits.take(0) =~= Seq::empty());
    while i < chars.len()
        invariant
            0 <= start <= i <= chars@.len(),
            chars@ == text@,
            digits == text@.skip(start),
            digits.len() > 0,
            value == digits_value(digits.take(i - start)),
            forall|j: int| 0 <= j < i - start ==> is_digit(#[trigger] digits[j]),
            start == if text@.len() > 0 && text@[0] == '+' {
                1int
            } else {
                0
            },
            start == 0 ==> digits == text@,
        decreases chars@.len() - i,
    {
        let c: char = chars[i];
        proof {
            assert(c == digits[i - start]);
        }
        if c < '0' || c > '9' {
            assert(!is_digit(digits[i - start]));
            return None;
        }
        let d: u64 = (c as u8 - 48) as u64;
        proof {
            let next = digits.take(i + 1 - start);
            assert(next.drop_last() =~= digits.take(i - start));
            assert(digits_value(next) == value * 10 + d);
            if all_digits(digits) {
                lemma_digits_grow(digits, i + 1 - start);
            }
        }
        if value > (u64::MAX - d) / 10 {
            assert(value * 10 + d > u64::MAX);
            return None;
        }
        value = value * 10 + d;
        i = i + 1;
    }
    assert(digits.take(i - start) =~= digits);
    Some(value)
}

// ---------------------------------------------------------------------------
// Laws
// ---------------------------------------------------------------------------

/// A trimmed text is the text without white space round it: it neither begins nor ends with
/// white space, and what was taken off either end is nothing else.
pub proof fn law_trimming_takes_off_white_space(text: Seq<char>)
    ensures
        trimmed(text).len() > 0 ==> !is_white(trimmed(text)[0]) && !is_white(trimmed(text).last()),
        exists|from: int, to: int|
            {
                &&& 0 <= from <= to <= text.len()
                &&& trimmed(text) == #[trigger] text.subrange(from, to)
                &&& forall|i: int| 0 <= i < from ==> is_white(#[trigger] text[i])
                &&& forall|i: int| to <= i < text.len() ==> is_white(#[trigger] text[i])
            },
{
    let from = lemma_trimmed_front(text, 0);
    assert(text.skip(0) =~= text);
    let rest = text.skip(from);
    assert(rest == trimmed_front(text));
    let to = lemma_trimmed_back(rest);
    assert(text.subrange(from, from + to) =~= rest.take(to));
    assert forall|i: int| from + to <= i < text.len() implies is_white(#[trigger] text[i]) by {
        assert(rest[i - from] == text[i]);
    }
    if to > 0 {
        assert(rest.take(to)[0] == rest[0]);
        assert(rest[0] == text[from]);
    }
}

proof fn lemma_trimmed_front(text: Seq<char>, from: int) -> (cut: int)
    requires
        0 <= from <= text.len(),
    ensures
        from <= cut <= text.len(),
        trimmed_front(text.skip(from)) == text.skip(cut),
        cut < text.len() ==> !is_white(text[cut]),
        forall|i: int| from <= i < cut ==> is_white(#[trigger] text[i]),
    decreases text.len() - from,
{
    let rest = text.skip(from);
    if rest.len() > 0 && is_white(rest[0]) {
        assert(rest.drop_first() =~= text.skip(from + 1));
        lemma_trimmed_front(text, from + 1)
    } else {
        from
    }
}

proof fn lemma_trimmed_back(text: Seq<char>) -> (cut: int)
    ensures
        0 <= cut <= text.len(),
        trimmed_back(text) == text.take(cut),
        cut > 0 ==> !is_white(text[cut - 1]),
        forall|i: int| cut <= i < text.len() ==> is_white(#[trigger] text[i]),
    decreases text.len(),
{
    if text.len() > 0 && is_white(text.last()) {
        let front = text.drop_last();
        let cut = lemma_trimmed_back(front);
        assert(front.take(cut) =~= text.take(cut));
        assert forall|i: int| cut <= i < text.len() implies is_white(#[trigger] text[i]) by {
            if i < front.len() {
                assert(front[i] == text[i]);
            }
        }
        if cut > 0 {
            assert(front[cut - 1] == text[cut - 1]);
        }
        cut
    } else {
        assert(text.take(text.len() as int) =~= text);
        text.len() as int
    }
}

/// The pieces of a text hold no separator, and put together with it they are the text.
pub proof fn law_pieces_make_up_the_text(text: Seq<char>, separator: char)
    ensures
        joined(pieces(text, separator), seq![separator]) == text,
        forall|i: int, j: int|
            0 <= i < pieces(text, separator).len() && 0 <= j < pieces(text, separator)[i].len()
                ==> #[trigger] pieces(text, separator)[i][j] != separator,
    decreases text.len(),
{
    let all = pieces(text, separator);
    let gap = seq![separator];
    if text.len() == 0 {
        assert(joined(all, gap) =~= text);
    } else {
        let front = text.drop_last();
        let before = pieces(front, separator);
        lemma_pieces_nonempty(front, separator);
        law_pieces_make_up_the_text(front, separator);
        if text.last() == separator {
            assert(all.drop_last() =~= before);
            assert(joined(all, gap) =~= text);
            assert forall|i: int, j: int|
                0 <= i < all.len() && 0 <= j < all[i].len() implies #[trigger] all[i][j]
                != separator by {
                assert(all[i] == before[i]);
                assert(before[i][j] != separator);
            }
        } else {
            let longer = before.last().push(text.last());
            assert(all.drop_last() =~= before.drop_last());
            assert(all.last() == longer);
            assert(text =~= front.push(text.last()));
            if before.len() == 1 {
                assert(joined(before, gap) == before[0]);
                assert(joined(all, gap) == all[0]);
            } else {
                let head = joined(before.drop_last(), gap) + gap;
                assert(joined(before, gap) == head + before.last());
                assert(joined(all, gap) == head + longer);
                assert(head + longer =~= (head + before.last()).push(text.last()));
            }
            assert forall|i: int, j: int|
                0 <= i < all.len() && 0 <= j < all[i].len() implies #[trigger] all[i][j]
                != separator by {
                if i < before.len() - 1 {
                    assert(all[i] == before[i]);
                    assert(before[i][j] != separator);
                } else {
                    assert(all[i] == longer);
                    if j < longer.len() - 1 {
                        assert(before[before.len() - 1][j] != separator);
                    }
                }
            }
        }
    }
}

/// One more part is joined on behind the separator, and the first without one.
pub proof fn law_parts_are_joined_in_order(
    parts: Seq<Seq<char>>,
    part: Seq<char>,
    separator: Seq<char>,
)
    ensures
        joined(Seq::<Seq<char>>::empty(), separator).len() == 0,
        parts.len() == 0 ==> joined(parts.push(part), separator) == part,
        parts.len() > 0 ==> joined(parts.push(part), separator) == joined(parts, separator)
            + separator + part,
{
    assert(parts.push(part).drop_last() =~= parts);
}

/// A count in decimal has one digit below ten, and otherwise that of its tenth and one more;
/// no count of more than one digit begins with a zero. A whole number below zero has a
/// minus in front.
pub proof fn law_counts_in_decimal(n: nat)
    ensures
        n < 10 ==> decimal(n).len() == 1 && decimal(n)[0] as u32 == '0' as u32 + n,
        n >= 10 ==> decimal(n) == decimal(n / 10) + decimal(n % 10),
        decimal(n).len() > 0,
        decimal(n).len() > 1 ==> decimal(n)[0] != '0',
        signed_decimal(n as int) == decimal(n),
        n > 0 ==> signed_decimal(-(n as int)) == seq!['-'] + decimal(n),
    decreases n,
{
    if n >= 10 {
        law_counts_in_decimal(n / 10);
        assert(decimal(n) =~= decimal(n / 10) + decimal(n % 10));
        if n / 10 < 10 {
            assert(decimal(n / 10)[0] as u32 == '0' as u32 + n / 10);
        }
        assert(decimal(n)[0] == decimal(n / 10)[0]);
    }
}

/// A count is read from digits alone, after a plus or without one, and only where it fits.
pub proof fn law_what_reads_as_a_count(text: Seq<char>)
    ensures
        count_reading(text) matches Some(n) ==> ({
            let digits = if text[0] == '+' {
                text.skip(1)
            } else {
                text
            };
            &&& text.len() > 0
            &&& digits.len() > 0
            &&& forall|i: int| 0 <= i < digits.len() ==> '0' <= #[trigger] digits[i] <= '9'
            &&& digits_value(digits) == n
        }),
        (text.len() > 0 && forall|i: int|
            0 <= i < text.len() ==> '0' <= #[trigger] text[i] <= '9') ==> count_reading(text)
            == count_reading(seq!['+'] + text) && (count_reading(text) is Some <==> digits_value(
            text,
        ) <= u64::MAX),
{
    if text.len() > 0 && forall|i: int| 0 <= i < text.len() ==> '0' <= #[trigger] text[i] <= '9' {
        assert('0' <= text[0] <= '9');
        assert((seq!['+'] + text).skip(1) =~= text);
        assert(all_digits(text)) by {
            assert forall|i: int| 0 <= i < text.len() implies is_digit(#[trigger] text[i]) by {
                assert('0' <= text[i] <= '9');
            }
        }
    }
    if count_reading(text) is Some {
        let digits = if text.len() > 0 && text[0] == '+' {
            text.skip(1)
        } else {
            text
        };
        assert forall|i: int| 0 <= i < digits.len() implies '0' <= #[trigger] digits[i] <= '9' by {
            assert(is_digit(digits[i]));
        }
    }
}

/// One more digit takes the value tenfold and adds its own.
pub proof fn law_digits_weigh_tenfold(digits: Seq<char>, c: char)
    requires
        '0' <= c <= '9',
    ensures
        digits_value(Seq::<char>::empty()) == 0,
        digits_value(digits.push(c)) == 10 * digits_value(digits) + (c as u32 - '0' as u32),
{
    assert(digits.push(c).drop_last() =~= digits);
}

/// Which characters are small letters of which: the twenty-six of ASCII, in their order.
pub proof fn law_capitals_are_lowered(c: char)
    ensures
        'A' <= c <= 'Z' ==> 'a' <= lowered(c) <= 'z' && lowered(c) as u32 - 'a' as u32 == c as u32
            - 'A' as u32,
        !('A' <= c <= 'Z') ==> lowered(c) == c,
{
}

} // verus!
