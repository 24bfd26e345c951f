use vstd::prelude::*;
use crate::alphabet::is_letter;
use crate::machine::{EnigmaMachine, MachineView};

verus! {

/// Whether `c` is an ASCII letter, of either case.
pub open spec fn is_ascii_letter(c: char) -> bool {
    is_letter(c) || 97 <= (c as u32) <= 122
}

/// The capital form of an ASCII letter; other characters stay as they are.
pub open spec fn ascii_upper(c: char) -> char {
    if 97 <= (c as u32) <= 122 {
        ((c as u32) - 32) as char
    } else {
        c
    }
}

impl MachineView {
    /// What typing `text` gives: each ASCII letter, made a capital, takes one keystroke; every
    /// other character is passed on as it is, with no keystroke.
    pub open spec fn cipher_text(self, text: Seq<char>) -> Seq<char>
        decreases text.len(),
    {
        if text.len() == 0 {
            seq![]
        } else if is_ascii_letter(text[0]) {
            seq![self.output(ascii_upper(text[0]))] + self.advanced().cipher_text(text.drop_first())
        } else {
            seq![text[0]] + self.cipher_text(text.drop_first())
        }
    }

    /// The machine after typing `text`.
    pub open spec fn after_text(self, text: Seq<char>) -> MachineView
        decreases text.len(),
    {
        if text.len() == 0 {
            self
        } else if is_ascii_letter(text[0]) {
            self.advanced().after_text(text.drop_first())
        } else {
            self.after_text(text.drop_first())
        }
    }
}

proof fn lemma_ascii_upper(c: char)
    requires
        is_ascii_letter(c),
    ensures
        is_letter(ascii_upper(c)),
{
    if 97 <= (c as u32) <= 122 {
        let u = ((c as u32) - 32) as u32;
        vstd::utf8::char_u32_cast(u as char, u);
        assert(((u as char) as u32) == u);
    }
}

proof fn lemma_cipher_text_step(m: MachineView, text: Seq<char>, i: int)
    requires
        0 <= i < text.len(),
    ensures
        m.cipher_text(text.take(i + 1)) == m.cipher_text(text.take(i)) + m.after_text(
            text.take(i),
        ).cipher_text(seq![text[i]]),
        m.after_text(text.take(i + 1)) == m.after_text(text.take(i)).after_text(seq![text[i]]),
    decreases i,
{
    if i > 0 {
        let rest = text.drop_first();
        lemma_cipher_text_step(m.advanced(), rest, i - 1);
        lemma_cipher_text_step(m, rest, i - 1);
        assert(text.take(i + 1).drop_first() =~= rest.take(i));
        assert(text.take(i).drop_first() =~= rest.take(i - 1));
        assert(text.take(i + 1)[0] == text[0]);
        assert(text.take(i)[0] == text[0]);
        assert(rest[i - 1] == text[i]);
        if is_ascii_letter(text[0]) {
            assert(m.cipher_text(text.take(i + 1)) =~= seq![m.output(ascii_upper(text[0]))]
                + m.advanced().cipher_text(rest.take(i)));
            assert(m.cipher_text(text.take(i)) =~= seq![m.output(ascii_upper(text[0]))]
                + m.advanced().cipher_text(rest.take(i - 1)));
        } else {
            assert(m.cipher_text(text.take(i + 1)) =~= seq![text[0]] + m.cipher_text(rest.take(i)));
            assert(m.cipher_text(text.take(i)) =~= seq![text[0]] + m.cipher_text(rest.take(i - 1)));
        }
    } else {
        assert(text.take(1).drop_first() =~= seq![]);
        assert(text.take(1) =~= seq![text[0]]);
        assert(text.take(0) =~= seq![]);
        assert(m.cipher_text(seq![]) =~= seq![]);
    }
}

proof fn lemma_text_step(m: MachineView, text: Seq<char>, i: int)
    requires
        0 <= i < text.len(),
    ensures
        ({
            let here = m.after_text(text.take(i));
            if is_ascii_letter(text[i]) {
                &&& m.cipher_text(text.take(i + 1)) == m.cipher_text(text.take(i)).push(
                    here.output(ascii_upper(text[i])),
                )
                &&& m.after_text(text.take(i + 1)) == here.advanced()
            } else {
                &&& m.cipher_text(text.take(i + 1)) == m.cipher_text(text.take(i)).push(text[i])
                &&& m.after_text(text.take(i + 1)) == here
            }
        }),
{
    lemma_cipher_text_step(m, text, i);
    let here = m.after_text(text.take(i));
    let one = seq![text[i]];
    assert(one.drop_first() =~= seq![]);
    assert(here.cipher_text(seq![]) =~= seq![]);
    assert(here.advanced().cipher_text(seq![]) =~= seq![]);
    assert(here.after_text(seq![]) == here);
    assert(here.advanced().after_text(seq![]) == here.advanced());
    let before = m.cipher_text(text.take(i));
    if is_ascii_letter(text[i]) {
        let out = here.output(ascii_upper(text[i]));
        assert(here.cipher_text(one) =~= seq![out]);
        assert(before + seq![out] =~= before.push(out));
        assert(here.after_text(one) == here.advanced());
    } else {
        assert(here.cipher_text(one) =~= seq![text[i]]);
        assert(before + seq![text[i]] =~= before.push(text[i]));
        assert(here.after_text(one) == here);
    }
}

/// Whether `c` is an ASCII letter.
fn is_ascii_alphabetic(c: char) -> (r: bool)
    ensures
        r == is_ascii_letter(c),
{
    ('A' <= c && c <= 'Z') || ('a' <= c && c <= 'z')
}

/// The capital form of the ASCII letter `c`.
fn to_ascii_uppercase(c: char) -> (r: char)
    requires
        is_ascii_letter(c),
    ensures
        r == ascii_upper(c),
        is_letter(r),
{
    proof {
        lemma_ascii_upper(c);
    }
    if 'a' <= c && c <= 'z' {
        let r = (c as u32 - 32) as u8 as char;
        proof {
            let u = ((c as u32) - 32) as u32;
            vstd::utf8::char_u32_cast(u as char, u);
        }
        r
    } else {
        c
    }
}

/// Types `plain_text` on `machine`: ASCII letters are made capitals and encoded, one keystroke
/// each; every other character is passed through unchanged.
pub fn encode_text(machine: &mut EnigmaMachine, plain_text: &Vec<char>) -> (r: Vec<char>)
    requires
        old(machine)@.wf(),
    ensures
        r@ == old(machine)@.cipher_text(plain_text@),
        final(machine)@ == old(machine)@.after_text(plain_text@),
        final(machine)@.wf(),
{
    let ghost start = machine@;
    let mut cipher_text: Vec<char> = Vec::new();
    let mut i: usize = 0;
    while i < plain_text.len()
        invariant
            i <= plain_text@.len(),
            machine@.wf(),
            cipher_text@ == start.cipher_text(plain_text@.take(i as int)),
            machine@ == start.after_text(plain_text@.take(i as int)),
        decreases plain_text@.len() - i,
    {
        let c = plain_text[i];
        proof {
            lemma_text_step(start, plain_text@, i as int);
        }
        if is_ascii_alphabetic(c) {
            let upper = to_ascii_uppercase(c);
            let out = machine.encode(upper);
            cipher_text.push(out);
        } else {
            cipher_text.push(c);
        }
        i = i + 1;
    }
    assert(plain_text@.take(i as int) =~= plain_text@);
    cipher_text
}

} // verus!
