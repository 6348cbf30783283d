//! The text form in which a frame's vector goes to the store: its values in
//! square brackets, separated by commas and nothing else.

use vstd::prelude::*;

verus! {

/// A character that may stand in a value: printable, no blank, and none of
/// the characters that frame a vector or a row.
pub open spec fn is_value_char(c: char) -> bool {
    '!' <= c <= '~' && c != '[' && c != ']' && c != ',' && c != '|'
}

/// `text` is a vector: an opening bracket, values of at least one character
/// each with a comma between any two, and a closing bracket.
pub open spec fn is_vector_text(text: Seq<char>) -> bool {
    &&& text.len() >= 2
    &&& text[0] == '['
    &&& text[text.len() - 1] == ']'
    &&& forall|i: int|
        0 < i < text.len() - 1 ==> is_value_char(#[trigger] text[i]) || text[i] == ','
    &&& forall|i: int|
        0 < i < text.len() - 1 && #[trigger] text[i] == ',' ==> is_value_char(text[i - 1])
            && is_value_char(text[i + 1])
}

/// Number of commas among the first `k` characters of `text`.
pub open spec fn commas_upto(text: Seq<char>, k: nat) -> nat
    decreases k,
{
    if k == 0 || k > text.len() {
        0
    } else {
        commas_upto(text, (k - 1) as nat) + if text[k - 1] == ',' {
            1nat
        } else {
            0nat
        }
    }
}

/// Number of values in the vector that `text` is, or nothing where it is none.
pub open spec fn vector_dimension(text: Seq<char>) -> Option<nat> {
    if !is_vector_text(text) {
        None
    } else if text.len() == 2 {
        Some(0)
    } else {
        Some(commas_upto(text, text.len()) + 1)
    }
}

fn is_value_byte(b: u8) -> (r: bool)
    ensures
        r == is_value_char(b as char),
{
    0x21 <= b && b <= 0x7e && b != 0x5b && b != 0x5d && b != 0x2c && b != 0x7c
}

/// Counts the values of the vector that `text` is; nothing where it is none.
pub fn count_values(text: &str) -> (r: Option<usize>)
    ensures
        match r {
            Some(n) => vector_dimension(text@) == Some(n as nat),
            None => vector_dimension(text@) is None,
        },
{
    broadcast use vstd::string::is_ascii_spec_bytes;

    if !text.is_ascii() {
        proof {
            let chars = text@;
            let at = choose|at: int|
                0 <= at < chars.len() && !('\0' <= #[trigger] chars[at] <= '\u{7f}');
            assert(!is_value_char(chars[at]) && chars[at] != ',' && chars[at] != '[' && chars[at]
                != ']');
        }
        return None;
    }
    let bytes = text.as_bytes();
    let n: usize = bytes.len();
    assert(n == text@.len());
    assert(forall|i: int| 0 <= i < n ==> bytes@[i] == #[trigger] text@[i] as u8);
    assert(forall|i: int| 0 <= i < n ==> #[trigger] text@[i] == bytes@[i] as char);
    if n < 2 || bytes[0] != 0x5b || bytes[n - 1] != 0x5d {
        return None;
    }
    assert(commas_upto(text@, 1) == 0) by {
        assert(commas_upto(text@, 0) == 0);
        assert(text@[0] != ',');
    }
    let mut commas: usize = 0;
    let mut i: usize = 1;
    while i < n - 1
        invariant
            n == text@.len(),
            n == bytes@.len(),
            n >= 2,
            1 <= i <= n - 1,
            forall|j: int| 0 <= j < n ==> #[trigger] text@[j] == bytes@[j] as char,
            text@[0] == '[',
            text@[n - 1] == ']',
            commas == commas_upto(text@, i as nat),
            commas <= i,
            forall|j: int| 0 < j < i ==> is_value_char(#[trigger] text@[j]) || text@[j] == ',',
            forall|j: int|
                0 < j < i && #[trigger] text@[j] == ',' ==> is_value_char(text@[j - 1])
                    && is_value_char(text@[j + 1]),
        decreases n - i,
    {
        let b: u8 = bytes[i];
        assert(text@[i as int] == b as char);
        if b == 0x2c {
            if !is_value_byte(bytes[i - 1]) || !is_value_byte(bytes[i + 1]) {
                assert(text@[i as int] == ',');
                return None;
            }
            commas += 1;
        } else if !is_value_byte(b) {
            assert(!is_value_char(text@[i as int]) && text@[i as int] != ',');
            return None;
        }
        i += 1;
    }
    assert(text@[0] != ',' && text@[n - 1] != ',');
    assert(commas_upto(text@, n as nat) == commas_upto(text@, (n - 1) as nat));
    if n == 2 {
        Some(0)
    } else {
        Some(commas + 1)
    }
}

} // verus!
