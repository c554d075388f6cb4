//! Verified operations on text.

use vstd::prelude::*;
use vstd::string::*;
use vstd::utf8::{encode_utf8, encode_utf8_decode_utf8};

verus! {

/// `std::string::String::push` appends the given character to the end of the string.
pub assume_specification[ String::push ](text: &mut String, c: char)
    ensures
        final(text)@ == old(text)@.push(c),
;

/// `text` begins with `prefix`.
pub open spec fn has_prefix(text: Seq<char>, prefix: Seq<char>) -> bool {
    prefix.len() <= text.len() && text.take(prefix.len() as int) == prefix
}

/// `text` ends with `suffix`.
pub open spec fn has_suffix(text: Seq<char>, suffix: Seq<char>) -> bool {
    suffix.len() <= text.len() && text.skip(text.len() - suffix.len()) == suffix
}

/// `text` with every `from` replaced by `to`.
pub open spec fn replaced(text: Seq<char>, from: char, to: Seq<char>) -> Seq<char>
    decreases text.len(),
{
    if text.len() == 0 {
        Seq::empty()
    } else {
        replaced(text.drop_last(), from, to) + if text.last() == from {
            to
        } else {
            seq![text.last()]
        }
    }
}

/// The texts of a list of strings.
pub open spec fn texts(list: Seq<String>) -> Seq<Seq<char>> {
    list.map_values(|text: String| text@)
}

/// Two strings are equal when their UTF-8 encodings are.
pub(crate) proof fn lemma_encoding_injective(a: Seq<char>, b: Seq<char>)
    ensures
        encode_utf8(a) == encode_utf8(b) <==> a == b,
{
    encode_utf8_decode_utf8(a);
    encode_utf8_decode_utf8(b);
}

/// Whether two strings are the same.
pub fn same(a: &str, b: &str) -> (equal: bool)
    ensures
        equal == (a@ == b@),
{
    let x: &[u8] = a.as_bytes();
    let y: &[u8] = b.as_bytes();
    proof {
        lemma_encoding_injective(a@, b@);
    }
    if x.len() != y.len() {
        return false;
    }
    let mut i: usize = 0;
    while i < x.len()
        invariant
            i <= x@.len(),
            x@.len() == y@.len(),
            x@ == encode_utf8(a@),
            y@ == encode_utf8(b@),
            encode_utf8(a@) == encode_utf8(b@) <==> a@ == b@,
            forall|j: int| 0 <= j < i ==> x@[j] == y@[j],
        decreases x@.len() - i,
    {
        if x[i] != y[i] {
            return false;
        }
        i += 1;
    }
    assert(x@ =~= y@);
    true
}

/// Whether any string of the list is `text`.
pub fn contains(list: &Vec<String>, text: &str) -> (found: bool)
    ensures
        found == texts(list@).contains(text@),
{
    let mut i: usize = 0;
    while i < list.len()
        invariant
            i <= list@.len(),
            forall|j: int| 0 <= j < i ==> list@[j]@ != text@,
        decreases list@.len() - i,
    {
        if same(list[i].as_str(), text) {
            assert(texts(list@)[i as int] == text@);
            return true;
        }
        i += 1;
    }
    false
}

/// The characters of a string.
pub fn characters(text: &str) -> (chars: Vec<char>)
    ensures
        chars@ == text@,
{
    let mut chars: Vec<char> = Vec::new();
    for c in iter: text.chars()
        invariant
            chars@ == text@.take(iter.index() as int),
            iter.seq() == text@,
    {
        chars.push(c);
    }
    chars
}

/// Whether `text` begins with `prefix`.
pub fn starts_with(text: &str, prefix: &str) -> (yes: bool)
    ensures
        yes == has_prefix(text@, prefix@),
{
    let length: usize = prefix.unicode_len();
    if text.unicode_len() < length {
        return false;
    }
    same(text.substring_char(0, length), prefix)
}

/// Whether `text` ends with `suffix`.
pub fn ends_with(text: &str, suffix: &str) -> (yes: bool)
    ensures
        yes == has_suffix(text@, suffix@),
{
    let length: usize = suffix.unicode_len();
    let total: usize = text.unicode_len();
    if total < length {
        return false;
    }
    same(text.substring_char(total - length, total), suffix)
}

/// `text` with every `from` replaced by `to`.
pub fn replace(text: &str, from: char, to: &str) -> (result: String)
    ensures
        result@ == replaced(text@, from, to@),
{
    let chars: Vec<char> = characters(text);
    let mut result: String = String::new();
    let mut i: usize = 0;
    while i < chars.len()
        invariant
            i <= chars@.len(),
            chars@ == text@,
            result@ == replaced(text@.take(i as int), from, to@),
        decreases chars@.len() - i,
    {
        assert(text@.take(i + 1).drop_last() =~= text@.take(i as int));
        if chars[i] == from {
            result.append(to);
        } else {
            result.push(chars[i]);
        }
        i += 1;
        assert(result@ =~= replaced(text@.take(i as int), from, to@));
    }
    assert(text@.take(i as int) =~= text@);
    result
}

/// A string that holds the given characters.
pub fn from_characters(chars: &[char]) -> (text: String)
    ensures
        text@ == chars@,
{
    let mut text: String = String::new();
    let mut i: usize = 0;
    while i < chars.len()
        invariant
            i <= chars@.len(),
            text@ == chars@.take(i as int),
        decreases chars@.len() - i,
    {
        text.push(chars[i]);
        i += 1;
        assert(text@ =~= chars@.take(i as int));
    }
    assert(chars@.take(i as int) =~= chars@);
    text
}

/// A text begins with what it is made of ahead, and ends with what it is made of behind; and one
/// that begins or ends with something is made of it and a rest.
pub proof fn law_prefixes_and_suffixes(ahead: Seq<char>, behind: Seq<char>, text: Seq<char>)
    ensures
        has_prefix(ahead + behind, ahead),
        has_suffix(ahead + behind, behind),
        has_prefix(text, ahead) ==> exists|rest: Seq<char>| text == #[trigger] (ahead + rest),
        has_suffix(text, behind) ==> exists|rest: Seq<char>| text == #[trigger] (rest + behind),
{
    let whole = ahead + behind;
    assert(whole.take(ahead.len() as int) =~= ahead);
    assert(whole.skip(whole.len() - behind.len()) =~= behind);
    if has_prefix(text, ahead) {
        assert(text =~= ahead + text.skip(ahead.len() as int));
    }
    if has_suffix(text, behind) {
        assert(text =~= text.take(text.len() - behind.len()) + behind);
    }
}

/// Replacing goes character by character and in order: the one that is looked for becomes the
/// new text, every other one stays.
pub proof fn law_replacing_goes_by_character(
    first: Seq<char>,
    second: Seq<char>,
    c: char,
    from: char,
    to: Seq<char>,
)
    ensures
        replaced(first + second, from, to) == replaced(first, from, to) + replaced(second, from, to),
        replaced(seq![c], from, to) == if c == from {
            to
        } else {
            seq![c]
        },
        replaced(Seq::empty(), from, to) == Seq::<char>::empty(),
    decreases second.len(),
{
    reveal_with_fuel(replaced, 2);
    assert(seq![c].drop_last() =~= Seq::empty());
    assert(replaced(seq![c], from, to) =~= if c == from {
        to
    } else {
        seq![c]
    });
    if second.len() == 0 {
        assert(first + second =~= first);
        assert(replaced(first, from, to) + replaced(second, from, to) =~= replaced(
            first,
            from,
            to,
        ));
    } else {
        law_replacing_goes_by_character(first, second.drop_last(), c, from, to);
        assert((first + second).drop_last() =~= first + second.drop_last());
        assert(replaced(first + second, from, to) =~= replaced(first, from, to) + replaced(
            second,
            from,
            to,
        ));
    }
}

/// The texts of a list are those of its strings, one for each and in order.
pub proof fn law_texts_are_in_order(list: Seq<String>, i: int)
    ensures
        texts(list).len() == list.len(),
        0 <= i < list.len() ==> texts(list)[i] == list[i]@,
{
}

} // verus!
