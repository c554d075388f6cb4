//! The SVG files that icons are drawn from: one drawing of a declared size in whole pixels, made
//! of filled shapes with straight sides, with short plain numbers and nothing else.

use vstd::arithmetic::power::{lemma_pow_increases, pow};
use vstd::prelude::*;
use vstd::utf8::{encode_utf8, is_ascii_chars_encode_utf8};

verus! {

/// The longest file that is read, in bytes.
pub const MAX_FILE: usize = 65_536;

/// How many digits a side of the drawing is written with at most.
pub const MAX_SIDE_DIGITS: usize = 7;

/// How many digits follow each other at most in the numbers of a shape.
pub const MAX_DIGITS: usize = 4;

/// What every file begins with.
pub const OPENING: &'static str = "<svg xmlns=\"http://www.w3.org/2000/svg\" width=\"";

/// What stands between the two sides of the drawing.
pub const BETWEEN_SIDES: &'static str = "\" height=\"";

/// What stands between the second side and the shapes.
pub const AFTER_SIDES: &'static str = "\">";

/// `word` stands in the file from `at` on.
pub open spec fn word_at(file: Seq<u8>, at: int, word: Seq<char>) -> bool {
    &&& 0 <= at
    &&& at + encode_utf8(word).len() <= file.len()
    &&& file.subrange(at, at + encode_utf8(word).len()) == encode_utf8(word)
}

pub open spec fn is_digit(byte: u8) -> bool {
    '0' as u8 <= byte <= '9' as u8
}

pub open spec fn is_hex_digit(byte: u8) -> bool {
    is_digit(byte) || 'a' as u8 <= byte <= 'f' as u8 || 'A' as u8 <= byte <= 'F' as u8
}

pub open spec fn is_blank(byte: u8) -> bool {
    byte == ' ' as u8 || byte == '\n' as u8
}

/// What may stand between the numbers of a shape: blanks, points, commas, and the letters of
/// straight paths in absolute coordinates.
pub open spec fn is_separator(byte: u8) -> bool {
    ||| is_blank(byte)
    ||| byte == '.' as u8
    ||| byte == ',' as u8
    ||| byte == 'M' as u8
    ||| byte == 'L' as u8
    ||| byte == 'H' as u8
    ||| byte == 'V' as u8
    ||| byte == 'Z' as u8
}

/// Where the digits that stand from `at` on end.
pub open spec fn digits_end(file: Seq<u8>, at: int) -> int
    decreases file.len() - at,
{
    if 0 <= at < file.len() && is_digit(file[at]) {
        digits_end(file, at + 1)
    } else {
        at
    }
}

/// The number that the digits between two places are.
pub open spec fn number(file: Seq<u8>, from: int, to: int) -> nat
    decreases to - from,
{
    if from < to {
        number(file, from, to - 1) * 10 + (file[to - 1] - '0' as u8) as nat
    } else {
        0
    }
}

/// The end of a quoted list of numbers that goes on at `at`, behind `run` digits of the current
/// number; `None` where it holds anything else, or too long a number.
pub open spec fn numbers_end(file: Seq<u8>, at: int, run: int) -> Option<int>
    decreases file.len() - at,
{
    if !(0 <= at < file.len()) {
        None
    } else if file[at] == '"' as u8 {
        Some(at + 1)
    } else if is_digit(file[at]) {
        if run < MAX_DIGITS {
            numbers_end(file, at + 1, run + 1)
        } else {
            None
        }
    } else if is_separator(file[at]) {
        numbers_end(file, at + 1, 0)
    } else {
        None
    }
}

/// The end of a quoted colour of which the six hexadecimal digits begin at `at`.
pub open spec fn colour_end(file: Seq<u8>, at: int) -> Option<int> {
    if at + 7 <= file.len() && (forall|i: int| at <= i < at + 6 ==> is_hex_digit(#[trigger] file[i]))
        && file[at + 6] == '"' as u8 {
        Some(at + 7)
    } else {
        None
    }
}

/// The end of a word that stands from `at` on.
pub open spec fn word_end(file: Seq<u8>, at: int, word: Seq<char>) -> Option<int> {
    if word_at(file, at, word) {
        Some(at + encode_utf8(word).len())
    } else {
        None
    }
}

/// The end of the first word of a list, from the `i`th on, that stands from `at` on.
pub open spec fn first_end(file: Seq<u8>, at: int, words: Seq<&str>, i: int) -> Option<int>
    decreases words.len() - i,
{
    if !(0 <= i < words.len()) {
        None
    } else if word_at(file, at, words[i]@) {
        word_end(file, at, words[i]@)
    } else {
        first_end(file, at, words, i + 1)
    }
}

/// The words that stand alone: the beginnings of the shapes, their end, and the end of the
/// drawing.
pub open spec fn marks() -> Seq<&'static str> {
    seq!["<rect", "<polygon", "<path", "/>", "</svg>"]
}

/// The names of the attributes that a list of numbers follows.
pub open spec fn measures() -> Seq<&'static str> {
    seq!["x=\"", "y=\"", "width=\"", "height=\"", "points=\"", "d=\""]
}

/// The end of the piece that begins at `at`: a blank, a mark, an attribute with numbers, or a
/// colour.
pub open spec fn piece_end(file: Seq<u8>, at: int) -> Option<int> {
    if 0 <= at < file.len() && is_blank(file[at]) {
        Some(at + 1)
    } else if first_end(file, at, marks(), 0) is Some {
        first_end(file, at, marks(), 0)
    } else if first_end(file, at, measures(), 0) is Some {
        numbers_end(file, first_end(file, at, measures(), 0)->0, 0)
    } else if word_end(file, at, "fill=\"#"@) is Some {
        colour_end(file, word_end(file, at, "fill=\"#"@)->0)
    } else {
        None
    }
}

/// The file consists of such pieces from `at` on.
pub open spec fn all_pieces(file: Seq<u8>, at: int) -> bool
    decreases file.len() - at,
{
    if at >= file.len() {
        true
    } else {
        match piece_end(file, at) {
            Some(end) => at < end <= file.len() && all_pieces(file, end),
            None => false,
        }
    }
}

/// Where the first side begins and ends, and the second.
pub open spec fn first_side(file: Seq<u8>) -> (int, int) {
    let from = encode_utf8(OPENING@).len() as int;
    (from, digits_end(file, from))
}

pub open spec fn second_side(file: Seq<u8>) -> (int, int) {
    let from = first_side(file).1 + encode_utf8(BETWEEN_SIDES@).len();
    (from, digits_end(file, from))
}

/// A number of at least one digit, and of few enough, that is not zero.
pub open spec fn is_side(file: Seq<u8>, side: (int, int)) -> bool {
    &&& side.0 < side.1 <= side.0 + MAX_SIDE_DIGITS
    &&& number(file, side.0, side.1) > 0
}

/// The file is a drawing of this kind: it begins with its size and goes on in plain pieces.
pub open spec fn is_plain(file: Seq<u8>) -> bool {
    &&& file.len() <= MAX_FILE
    &&& word_at(file, 0, OPENING@)
    &&& is_side(file, first_side(file))
    &&& word_at(file, first_side(file).1, BETWEEN_SIDES@)
    &&& is_side(file, second_side(file))
    &&& word_at(file, second_side(file).1, AFTER_SIDES@)
    &&& all_pieces(file, second_side(file).1 + encode_utf8(AFTER_SIDES@).len())
}

/// The size that the file declares, in pixels.
pub open spec fn declared_size(file: Seq<u8>) -> (nat, nat) {
    (
        number(file, first_side(file).0, first_side(file).1),
        number(file, second_side(file).0, second_side(file).1),
    )
}

fn digit(byte: u8) -> (yes: bool)
    ensures
        yes == is_digit(byte),
{
    '0' as u8 <= byte && byte <= '9' as u8
}

fn hex_digit(byte: u8) -> (yes: bool)
    ensures
        yes == is_hex_digit(byte),
{
    digit(byte) || ('a' as u8 <= byte && byte <= 'f' as u8) || ('A' as u8 <= byte && byte
        <= 'F' as u8)
}

fn blank(byte: u8) -> (yes: bool)
    ensures
        yes == is_blank(byte),
{
    byte == ' ' as u8 || byte == '\n' as u8
}

fn separator(byte: u8) -> (yes: bool)
    ensures
        yes == is_separator(byte),
{
    blank(byte) || byte == '.' as u8 || byte == ',' as u8 || byte == 'M' as u8 || byte == 'L' as u8
        || byte == 'H' as u8 || byte == 'V' as u8 || byte == 'Z' as u8
}

/// The end of a word, where it stands from `at` on.
fn read_word(file: &[u8], at: usize, word: &str) -> (end: Option<usize>)
    requires
        at <= file@.len(),
    ensures
        end is Some == word_end(file@, at as int, word@) is Some,
        end matches Some(end) ==> end <= file@.len() && word_end(file@, at as int, word@) == Some(
            end as int,
        ),
{
    let bytes: &[u8] = word.as_bytes();
    if bytes.len() > file.len() - at {
        return None;
    }
    let mut i: usize = 0;
    while i < bytes.len()
        invariant
            i <= bytes@.len(),
            at + bytes@.len() <= file@.len() <= usize::MAX,
            bytes@ == encode_utf8(word@),
            forall|j: int| 0 <= j < i ==> file@[at + j] == bytes@[j],
        decreases bytes@.len() - i,
    {
        if file[at + i] != bytes[i] {
            assert(file@.subrange(at as int, at + bytes@.len())[i as int] != bytes@[i as int]);
            return None;
        }
        i += 1;
    }
    assert(file@.subrange(at as int, at + bytes@.len()) =~= bytes@);
    Some(at + bytes.len())
}

/// The end of the digits from `at` on.
fn read_digits(file: &[u8], at: usize) -> (end: usize)
    requires
        at <= file@.len(),
    ensures
        at <= end <= file@.len(),
        end == digits_end(file@, at as int),
{
    let mut end: usize = at;
    while end < file.len() && digit(file[end])
        invariant
            at <= end <= file@.len(),
            digits_end(file@, at as int) == digits_end(file@, end as int),
        decreases file@.len() - end,
    {
        end += 1;
    }
    end
}

/// A side of the drawing that begins at `at`, with its end.
fn read_side(file: &[u8], at: usize) -> (side: Option<(u32, usize)>)
    requires
        at <= file@.len(),
    ensures
        side is Some == is_side(file@, (at as int, digits_end(file@, at as int))),
        side matches Some(side) ==> {
            &&& side.1 == digits_end(file@, at as int)
            &&& side.1 <= file@.len()
            &&& side.0 == number(file@, at as int, side.1 as int)
        },
{
    let end: usize = read_digits(file, at);
    if end == at || end - at > MAX_SIDE_DIGITS {
        return None;
    }
    let mut value: u32 = 0;
    let mut i: usize = at;
    proof {
        reveal(pow);
    }
    while i < end
        invariant
            at <= i <= end <= file@.len(),
            value == number(file@, at as int, i as int),
            value < pow(10, (i - at) as nat),
            end == digits_end(file@, at as int),
            digits_end(file@, at as int) == digits_end(file@, i as int),
            end - at <= MAX_SIDE_DIGITS,
        decreases end - i,
    {
        proof {
            reveal(pow);
            lemma_pow_increases(10, (i + 1 - at) as nat, MAX_SIDE_DIGITS as nat);
            assert(pow(10, 7) == 10_000_000) by {
                reveal_with_fuel(pow, 8);
            }
        }
        value = value * 10 + (file[i] - '0' as u8) as u32;
        i += 1;
    }
    if value > 0 {
        Some((value, end))
    } else {
        None
    }
}

/// The end of a quoted list of numbers.
fn read_numbers(file: &[u8], at: usize) -> (end: Option<usize>)
    requires
        at <= file@.len(),
    ensures
        end is Some == numbers_end(file@, at as int, 0) is Some,
        end matches Some(end) ==> end <= file@.len() && numbers_end(file@, at as int, 0) == Some(
            end as int,
        ),
{
    let mut i: usize = at;
    let mut run: usize = 0;
    while i < file.len()
        invariant
            i <= file@.len(),
            run <= MAX_DIGITS,
            numbers_end(file@, at as int, 0) == numbers_end(file@, i as int, run as int),
        decreases file@.len() - i,
    {
        if file[i] == '"' as u8 {
            return Some(i + 1);
        }
        if digit(file[i]) {
            if run == MAX_DIGITS {
                return None;
            }
            run += 1;
        } else if separator(file[i]) {
            run = 0;
        } else {
            return None;
        }
        i += 1;
    }
    None
}

/// The end of a quoted colour.
fn read_colour(file: &[u8], at: usize) -> (end: Option<usize>)
    requires
        at <= file@.len(),
    ensures
        end is Some == colour_end(file@, at as int) is Some,
        end matches Some(end) ==> end <= file@.len() && colour_end(file@, at as int) == Some(
            end as int,
        ),
{
    if file.len() - at < 7 {
        return None;
    }
    let mut i: usize = at;
    while i < at + 6
        invariant
            at <= i <= at + 6,
            at + 7 <= file@.len() <= usize::MAX,
            forall|j: int| at <= j < i ==> is_hex_digit(#[trigger] file@[j]),
        decreases at + 6 - i,
    {
        if !hex_digit(file[i]) {
            return None;
        }
        i += 1;
    }
    if file[i] == '"' as u8 {
        Some(at + 7)
    } else {
        None
    }
}

/// The end of the first of some words that stands from `at` on.
fn read_one_of(file: &[u8], at: usize, words: &[&str]) -> (end: Option<usize>)
    requires
        at <= file@.len(),
    ensures
        end is Some == first_end(file@, at as int, words@, 0) is Some,
        end matches Some(end) ==> end <= file@.len() && first_end(file@, at as int, words@, 0) == Some(
            end as int,
        ),
{
    let mut i: usize = 0;
    while i < words.len()
        invariant
            i <= words@.len(),
            at <= file@.len(),
            first_end(file@, at as int, words@, 0) == first_end(file@, at as int, words@, i as int),
        decreases words@.len() - i,
    {
        let end = read_word(file, at, words[i]);
        if end.is_some() {
            return end;
        }
        i += 1;
    }
    None
}

/// The end of the piece that begins at `at`.
fn read_piece(file: &[u8], at: usize) -> (end: Option<usize>)
    requires
        at < file@.len(),
    ensures
        end is Some == piece_end(file@, at as int) is Some,
        end matches Some(end) ==> end <= file@.len() && piece_end(file@, at as int) == Some(
            end as int,
        ),
{
    if blank(file[at]) {
        return Some(at + 1);
    }
    let alone: [&str; 5] = ["<rect", "<polygon", "<path", "/>", "</svg>"];
    assert(alone@ =~= marks());
    let end = read_one_of(file, at, &alone);
    if end.is_some() {
        return end;
    }
    let measured: [&str; 6] = ["x=\"", "y=\"", "width=\"", "height=\"", "points=\"", "d=\""];
    assert(measured@ =~= measures());
    if let Some(from) = read_one_of(file, at, &measured) {
        return read_numbers(file, from);
    }
    match read_word(file, at, "fill=\"#") {
        Some(from) => read_colour(file, from),
        None => None,
    }
}

/// Whether the file consists of plain pieces from `at` on.
fn reads_through(file: &[u8], at: usize) -> (yes: bool)
    requires
        at <= file@.len(),
    ensures
        yes == all_pieces(file@, at as int),
{
    let mut i: usize = at;
    while i < file.len()
        invariant
            i <= file@.len(),
            all_pieces(file@, at as int) == all_pieces(file@, i as int),
        decreases file@.len() - i,
    {
        match read_piece(file, i) {
            Some(end) => {
                if end <= i {
                    return false;
                }
                i = end;
            },
            None => {
                return false;
            },
        }
    }
    true
}

/// The size that a plain file declares; `None` for every other file.
pub fn plain_size(file: &[u8]) -> (size: Option<(u32, u32)>)
    ensures
        size is Some == is_plain(file@),
        size matches Some(size) ==> (size.0 as nat, size.1 as nat) == declared_size(file@),
{
    if file.len() > MAX_FILE {
        return None;
    }
    let Some(from) = read_word(file, 0, OPENING) else {
        return None;
    };
    let Some((width, end)) = read_side(file, from) else {
        return None;
    };
    let Some(from) = read_word(file, end, BETWEEN_SIDES) else {
        return None;
    };
    let Some((height, end)) = read_side(file, from) else {
        return None;
    };
    let Some(from) = read_word(file, end, AFTER_SIDES) else {
        return None;
    };
    if reads_through(file, from) {
        Some((width, height))
    } else {
        None
    }
}

/// The text holds decimal digits only.
pub open spec fn all_digits(text: Seq<u8>) -> bool {
    forall|i: int| 0 <= i < text.len() ==> 48 <= #[trigger] text[i] <= 57
}

/// The number that decimal digits write.
pub open spec fn decimal(digits: Seq<u8>) -> nat
    decreases digits.len(),
{
    if digits.len() == 0 {
        0
    } else {
        10 * decimal(digits.drop_last()) + (digits.last() - 48) as nat
    }
}

proof fn lemma_number(file: Seq<u8>, from: int, to: int)
    requires
        0 <= from <= to <= file.len(),
        all_digits(file.subrange(from, to)),
    ensures
        number(file, from, to) == decimal(file.subrange(from, to)),
    decreases to - from,
{
    let digits = file.subrange(from, to);
    if from < to {
        let before = file.subrange(from, to - 1);
        assert(digits.drop_last() =~= before);
        assert forall|i: int| 0 <= i < before.len() implies 48 <= #[trigger] before[i] <= 57 by {
            assert(before[i] == digits[i]);
        }
        assert(digits[digits.len() - 1] == file[to - 1]);
        lemma_number(file, from, to - 1);
    }
}

proof fn lemma_digits_end(file: Seq<u8>, from: int, to: int)
    requires
        0 <= from <= to < file.len(),
        forall|i: int| from <= i < to ==> 48 <= #[trigger] file[i] <= 57,
        !(48 <= file[to] <= 57),
    ensures
        digits_end(file, from) == to,
    decreases to - from,
{
    if from < to {
        assert(48 <= file[from] <= 57);
        lemma_digits_end(file, from + 1, to);
    }
}

/// A file declares the size that is written in it: the first number is the width of the drawing,
/// the second its height.
pub proof fn law_files_declare_their_size(width: Seq<u8>, height: Seq<u8>, rest: Seq<u8>)
    requires
        all_digits(width),
        all_digits(height),
    ensures
        ({
            let file = encode_utf8("<svg xmlns=\"http://www.w3.org/2000/svg\" width=\""@) + width
                + encode_utf8("\" height=\""@) + height + encode_utf8("\">"@) + rest;
            declared_size(file) == (decimal(width), decimal(height))
        }),
{
    reveal_strlit("\" height=\"");
    reveal_strlit("\">");
    is_ascii_chars_encode_utf8("\" height=\""@);
    is_ascii_chars_encode_utf8("\">"@);
    let (opening, between, after) = (
        encode_utf8(OPENING@),
        encode_utf8(BETWEEN_SIDES@),
        encode_utf8(AFTER_SIDES@),
    );
    assert(BETWEEN_SIDES@[0] == '"' && AFTER_SIDES@[0] == '"');
    assert(between[0] == 34 && after[0] == 34);
    let file = opening + width + between + height + after + rest;
    let first = opening.len() as int;
    let second = first + width.len() + between.len();
    assert forall|i: int| first <= i < first + width.len() implies 48 <= #[trigger] file[i] <= 57 by {
        assert(file[i] == width[i - first]);
    }
    assert forall|i: int| second <= i < second + height.len() implies 48 <= #[trigger] file[i]
        <= 57 by {
        assert(file[i] == height[i - second]);
    }
    assert(file[first + width.len()] == between[0]);
    assert(file[second + height.len()] == after[0]);
    lemma_digits_end(file, first, first + width.len());
    lemma_digits_end(file, second, second + height.len());
    assert(file.subrange(first, first + width.len()) =~= width);
    assert(file.subrange(second, second + height.len()) =~= height);
    lemma_number(file, first, first + width.len());
    lemma_number(file, second, second + height.len());
}

/// A file that begins with its size is plain where it is not too long, where both sides are
/// numbers of one to seven digits but not zero, and where what follows is made of plain pieces.
pub proof fn law_sizes_are_accepted(width: Seq<u8>, height: Seq<u8>, rest: Seq<u8>)
    requires
        all_digits(width),
        all_digits(height),
    ensures
        ({
            let head = encode_utf8("<svg xmlns=\"http://www.w3.org/2000/svg\" width=\""@) + width
                + encode_utf8("\" height=\""@) + height + encode_utf8("\">"@);
            is_plain(head + rest) <==> {
                &&& head.len() + rest.len() <= 65_536
                &&& 1 <= width.len() <= 7 && decimal(width) > 0
                &&& 1 <= height.len() <= 7 && decimal(height) > 0
                &&& all_pieces(head + rest, head.len() as int)
            }
        }),
{
    law_files_declare_their_size(width, height, rest);
    reveal_strlit("\" height=\"");
    reveal_strlit("\">");
    is_ascii_chars_encode_utf8("\" height=\""@);
    is_ascii_chars_encode_utf8("\">"@);
    let (opening, between, after) = (
        encode_utf8(OPENING@),
        encode_utf8(BETWEEN_SIDES@),
        encode_utf8(AFTER_SIDES@),
    );
    assert(BETWEEN_SIDES@[0] == '"' && AFTER_SIDES@[0] == '"');
    let file = opening + width + between + height + after + rest;
    let first = opening.len() as int;
    let second = first + width.len() + between.len();
    assert forall|i: int| first <= i < first + width.len() implies 48 <= #[trigger] file[i] <= 57 by {
        assert(file[i] == width[i - first]);
    }
    assert forall|i: int| second <= i < second + height.len() implies 48 <= #[trigger] file[i]
        <= 57 by {
        assert(file[i] == height[i - second]);
    }
    assert(file[first + width.len()] == between[0]);
    assert(file[second + height.len()] == after[0]);
    lemma_digits_end(file, first, first + width.len());
    lemma_digits_end(file, second, second + height.len());
    assert(file.subrange(0, first) =~= opening);
    assert(file.subrange(first + width.len(), second) =~= between);
    assert(file.subrange(
        second + height.len(),
        second + height.len() + after.len(),
    ) =~= after);
}

/// A drawing goes on behind a blank, and behind a word that begins or ends a shape, as it would
/// without it.
pub proof fn law_pieces_follow_each_other(file: Seq<u8>, at: int)
    requires
        0 <= at < file.len(),
    ensures
        file[at] == 32 || file[at] == 10 ==> (all_pieces(file, at) <==> all_pieces(file, at + 1)),
        word_at(file, at, "<rect"@) ==> (all_pieces(file, at) <==> all_pieces(file, at + 5)),
        word_at(file, at, "/>"@) ==> (all_pieces(file, at) <==> all_pieces(file, at + 2)),
        word_at(file, at, "<path"@) ==> (all_pieces(file, at) <==> all_pieces(file, at + 5)),
        word_at(file, at, "<polygon"@) ==> (all_pieces(file, at) <==> all_pieces(file, at + 8)),
        word_at(file, at, "</svg>"@) ==> (all_pieces(file, at) <==> all_pieces(file, at + 6)),
{
    reveal_strlit("<rect");
    reveal_strlit("<polygon");
    reveal_strlit("<path");
    reveal_strlit("/>");
    reveal_strlit("</svg>");
    is_ascii_chars_encode_utf8("<rect"@);
    is_ascii_chars_encode_utf8("<polygon"@);
    is_ascii_chars_encode_utf8("<path"@);
    is_ascii_chars_encode_utf8("/>"@);
    is_ascii_chars_encode_utf8("</svg>"@);
    reveal_with_fuel(first_end, 6);
    lemma_word_bytes(file, at, "<rect"@);
    lemma_word_bytes(file, at, "<polygon"@);
    lemma_word_bytes(file, at, "<path"@);
    lemma_word_bytes(file, at, "/>"@);
    lemma_word_bytes(file, at, "</svg>"@);
    assert(marks()[0] == "<rect" && marks()[1] == "<polygon" && marks()[2] == "<path" && marks()[3]
        == "/>" && marks()[4] == "</svg>" && marks().len() == 5);
}

/// The bytes of an ASCII word that stands in the file.
proof fn lemma_word_bytes(file: Seq<u8>, at: int, word: Seq<char>)
    requires
        word.len() > 1,
        encode_utf8(word).len() == word.len(),
        word[0] as u8 == encode_utf8(word)[0],
        word[1] as u8 == encode_utf8(word)[1],
    ensures
        word_at(file, at, word) ==> at + word.len() <= file.len() && file[at] == word[0] as u8 && file[at
            + 1] == word[1] as u8,
        word_at(file, at, word) && word.len() > 2 && word[2] as u8 == encode_utf8(word)[2]
            ==> file[at + 2] == word[2] as u8,
{
    if word_at(file, at, word) {
        let part = file.subrange(at, at + encode_utf8(word).len());
        assert(part[0] == file[at] && part[1] == file[at + 1]);
        if word.len() > 2 {
            assert(part[2] == file[at + 2]);
        }
    }
}

} // verus!
