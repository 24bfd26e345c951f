use vstd::prelude::*;

verus! {

/// Number of letters in the machine's alphabet.
pub const ALPHABET_LEN: usize = 26;

/// Whether `c` is one of the capital letters 'A'..='Z'.
pub open spec fn is_letter(c: char) -> bool {
    65 <= (c as u32) <= 90
}

/// Zero-based position of a letter in the alphabet.
pub open spec fn index_of(c: char) -> int {
    (c as u32) - 65
}

/// The letter at `i` modulo 26.
pub open spec fn letter_at(i: int) -> char {
    ((65 + i % 26) as u32) as char
}

pub proof fn lemma_letter_at(i: int)
    ensures
        is_letter(letter_at(i)),
        index_of(letter_at(i)) == i % 26,
{
    let u = (65 + i % 26) as u32;
    assert(((u as char) as u32) == u);
}

pub proof fn lemma_index_of(c: char)
    requires
        is_letter(c),
    ensures
        0 <= index_of(c) < 26,
        letter_at(index_of(c)) == c,
{
    vstd::utf8::char_u32_cast(c, c as u32);
}

/// Position of `letter` in the alphabet.
pub fn alphabetical_index(letter: &char) -> (r: usize)
    requires
        is_letter(*letter),
    ensures
        r == index_of(*letter),
        r < 26,
{
    (*letter as u32 - 65) as usize
}

/// Letter at position `index` modulo 26.
pub fn alphabetical_letter(index: usize) -> (r: char)
    ensures
        r == letter_at(index as int),
        is_letter(r),
{
    let k: u8 = (index % ALPHABET_LEN) as u8;
    proof {
        lemma_letter_at(index as int);
    }
    (k + 65) as char
}

} // verus!
