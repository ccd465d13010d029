//! Detecting whether a text is mostly Chinese or mostly ASCII.
use vstd::prelude::*;

use crate::text::chars_of;

verus! {

/// Whether `ch` lies in one of the CJK ideograph blocks.
pub open spec fn chinese_char(ch: char) -> bool {
    let u = ch as u32;
    ||| 0x4E00 <= u <= 0x9FFF
    ||| 0x3400 <= u <= 0x4DBF
    ||| 0x20000 <= u <= 0x2A6DF
    ||| 0x2A700 <= u <= 0x2B73F
    ||| 0x2B740 <= u <= 0x2B81F
    ||| 0x2B820 <= u <= 0x2CEAF
    ||| 0xF900 <= u <= 0xFAFF
    ||| 0x2F800 <= u <= 0x2FA1F
}

/// Whether `ch` is an ASCII character.
pub open spec fn ascii_char(ch: char) -> bool {
    (ch as u32) < 0x80
}

/// Whether the character is a CJK ideograph.
pub fn is_chinese(ch: char) -> (r: bool)
    ensures
        r == chinese_char(ch),
{
    let u = ch as u32;
    (0x4E00 <= u && u <= 0x9FFF) || (0x3400 <= u && u <= 0x4DBF) || (0x20000 <= u && u <= 0x2A6DF)
        || (0x2A700 <= u && u <= 0x2B73F) || (0x2B740 <= u && u <= 0x2B81F) || (0x2B820 <= u && u
        <= 0x2CEAF) || (0xF900 <= u && u <= 0xFAFF) || (0x2F800 <= u && u <= 0x2FA1F)
}

/// Number of CJK ideographs in `s`.
pub open spec fn chinese_count(s: Seq<char>) -> nat
    decreases s.len(),
{
    if s.len() == 0 {
        0
    } else {
        chinese_count(s.drop_last()) + if !ascii_char(s.last()) && chinese_char(s.last()) {
            1nat
        } else {
            0nat
        }
    }
}

/// Number of ASCII characters in `s`.
pub open spec fn ascii_count(s: Seq<char>) -> nat
    decreases s.len(),
{
    if s.len() == 0 {
        0
    } else {
        ascii_count(s.drop_last()) + if ascii_char(s.last()) {
            1nat
        } else {
            0nat
        }
    }
}

proof fn lemma_counts_bounded(s: Seq<char>)
    ensures
        chinese_count(s) + ascii_count(s) <= s.len(),
    decreases s.len(),
{
    if s.len() > 0 {
        lemma_counts_bounded(s.drop_last());
    }
}

/// Counts the Chinese characters and the ASCII characters of `text`:
/// the result is `(chinese, ascii)`.
pub fn count_languages(text: &str) -> (r: (usize, usize))
    ensures
        r.0 == chinese_count(text@),
        r.1 == ascii_count(text@),
        r.0 + r.1 <= text@.len(),
{
    let v = chars_of(text);
    let mut chinese: usize = 0;
    let mut english: usize = 0;
    let mut i: usize = 0;
    while i < v.len()
        invariant
            v@ == text@,
            i <= v.len(),
            chinese == chinese_count(v@.take(i as int)),
            english == ascii_count(v@.take(i as int)),
            chinese + english <= i,
        decreases v.len() - i,
    {
        let ch = v[i];
        assert(v@.take(i + 1).drop_last() =~= v@.take(i as int));
        if (ch as u32) < 0x80 {
            english = english + 1;
        } else if is_chinese(ch) {
            chinese = chinese + 1;
        }
        i = i + 1;
    }
    assert(v@.take(v.len() as int) =~= v@);
    proof {
        lemma_counts_bounded(text@);
    }
    (chinese, english)
}

/// The language to translate into: English when the text holds more Chinese
/// characters than ASCII ones, Chinese otherwise.
pub open spec fn target_for(text: Seq<char>) -> Seq<char> {
    if chinese_count(text) > ascii_count(text) {
        "en"@
    } else {
        "zh"@
    }
}

/// Picks the target language code for `text` (`"en"` or `"zh"`).
pub fn target_language(text: &str) -> (r: &'static str)
    ensures
        r@ == target_for(text@),
{
    let (chinese, english) = count_languages(text);
    if chinese > english {
        "en"
    } else {
        "zh"
    }
}

} // verus!
