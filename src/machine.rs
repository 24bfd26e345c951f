use vstd::prelude::*;
use crate::alphabet::{
    alphabetical_index, alphabetical_letter, index_of, is_letter, lemma_index_of, lemma_letter_at,
    letter_at,
};
use crate::config::{Config, ConfigError};
use crate::plugboard::{lemma_plug_involution, lemma_plug_letter, pairs_of_letters, pairs_valid, plug, Plugboard};
use crate::rotor::{lemma_rotor_round_trip, rotor_from, Rotor, RotorPosition, RotorView};
use crate::tables::{reflector, reflector_b};
use crate::wiring::lemma_reflector;

verus! {

/// Emulates an enigma machine
///
/// Pass a `Config` to `new()` to build the machine. Then encode letters with `encode()`.
pub struct EnigmaMachine {
    right_rotor: Rotor,
    middle_rotor: Rotor,
    left_rotor: Rotor,
    plugboard: Plugboard,
}

/// What a machine is, as plain values: its three rotors and its plugboard pairs.
pub struct MachineView {
    pub left: RotorView,
    pub middle: RotorView,
    pub right: RotorView,
    pub pairs: Seq<[char; 2]>,
}

impl View for EnigmaMachine {
    type V = MachineView;

    closed spec fn view(&self) -> MachineView {
        MachineView {
            left: self.left_rotor@,
            middle: self.middle_rotor@,
            right: self.right_rotor@,
            pairs: self.plugboard.wire_pairs@,
        }
    }
}

/// Position that the reflector sends `p` to.
pub open spec fn reflect_position(p: int) -> int {
    index_of(reflector()[p])
}

/// The three rotors, forward, the reflector, and the three rotors backward, from position `p`.
pub open spec fn rotor_path(m: MachineView, p: int) -> int {
    let p1 = m.right.forward(p);
    let p2 = m.middle.forward(p1);
    let p3 = m.left.forward(p2);
    let p4 = reflect_position(p3);
    let p5 = m.left.backward(p4);
    let p6 = m.middle.backward(p5);
    m.right.backward(p6)
}

/// The machine that `config` describes.
pub open spec fn machine_from(config: Config) -> MachineView {
    MachineView {
        left: rotor_from(config.left_rotor),
        middle: rotor_from(config.middle_rotor),
        right: rotor_from(config.right_rotor),
        pairs: config.plugboard@,
    }
}

impl MachineView {
    /// All three rotors are well formed and the plugboard pairs are disjoint letters.
    pub open spec fn wf(self) -> bool {
        &&& self.left.wf()
        &&& self.middle.wf()
        &&& self.right.wf()
        &&& pairs_valid(self.pairs)
    }

    /// The machine after the stepping of one keystroke. The right rotor always turns; the middle
    /// one when it or the right one stood on a notch; the left one when the middle one did.
    pub open spec fn advanced(self) -> MachineView {
        let right_on_notch = self.right.on_notch();
        let middle_on_notch = self.middle.on_notch();
        MachineView {
            right: self.right.rotated(),
            middle: if middle_on_notch || right_on_notch {
                self.middle.rotated()
            } else {
                self.middle
            },
            left: if middle_on_notch {
                self.left.rotated()
            } else {
                self.left
            },
            pairs: self.pairs,
        }
    }

    /// The signal path for `c` with the rotors standing as they are: plugboard, rotors from right
    /// to left, reflector, rotors from left to right, plugboard.
    pub open spec fn substitute(self, c: char) -> char {
        plug(self.pairs, letter_at(rotor_path(self, index_of(plug(self.pairs, c)))))
    }

    /// The letter that one keystroke of `c` lights up: the rotors step first.
    pub open spec fn output(self, c: char) -> char {
        self.advanced().substitute(c)
    }

    /// The letters that typing `text` lights up, one keystroke per letter.
    pub open spec fn cipher(self, text: Seq<char>) -> Seq<char>
        decreases text.len(),
    {
        if text.len() == 0 {
            seq![]
        } else {
            seq![self.output(text[0])] + self.advanced().cipher(text.drop_first())
        }
    }
}

/// Stepping keeps a machine well formed.
pub proof fn lemma_advanced_wf(m: MachineView)
    requires
        m.wf(),
    ensures
        m.advanced().wf(),
{
}

/// The reflector sends a position to another position, and back.
pub proof fn lemma_reflect_twice(p: int)
    requires
        0 <= p < 26,
    ensures
        0 <= reflect_position(p) < 26,
        reflect_position(p) != p,
        reflect_position(reflect_position(p)) == p,
{
    lemma_reflector();
    assert(index_of(reflector()[p]) == reflect_position(p));
}

proof fn lemma_rotor_path(m: MachineView, p: int)
    requires
        m.wf(),
        0 <= p < 26,
    ensures
        0 <= rotor_path(m, p) < 26,
        rotor_path(m, rotor_path(m, p)) == p,
{
    lemma_rotor_round_trip(m.right, p);
    let p1 = m.right.forward(p);
    lemma_rotor_round_trip(m.middle, p1);
    let p2 = m.middle.forward(p1);
    lemma_rotor_round_trip(m.left, p2);
    let p3 = m.left.forward(p2);
    lemma_reflect_twice(p3);
    let p4 = reflect_position(p3);
    lemma_rotor_round_trip(m.left, p4);
    let p5 = m.left.backward(p4);
    lemma_rotor_round_trip(m.middle, p5);
    let p6 = m.middle.backward(p5);
    lemma_rotor_round_trip(m.right, p6);
    let q = m.right.backward(p6);
    assert(m.right.forward(q) == p6);
    assert(m.middle.forward(p6) == p5);
    assert(m.left.forward(p5) == p4);
    assert(reflect_position(p4) == p3);
    assert(m.left.backward(p3) == p2);
    assert(m.middle.backward(p2) == p1);
    assert(m.right.backward(p1) == p);
}

proof fn lemma_substitute_from_path(m: MachineView, c: char)
    requires
        pairs_valid(m.pairs),
        is_letter(c),
        forall|p: int|
            0 <= p < 26 ==> 0 <= #[trigger] rotor_path(m, p) < 26 && rotor_path(m, rotor_path(m, p))
                == p,
    ensures
        is_letter(m.substitute(c)),
        m.substitute(m.substitute(c)) == c,
{
    let x = plug(m.pairs, c);
    lemma_plug_letter(m.pairs, c);
    lemma_index_of(x);
    let p0 = index_of(x);
    let p7 = rotor_path(m, p0);
    assert(0 <= p7 < 26 && rotor_path(m, p7) == p0);
    let d = letter_at(p7);
    lemma_letter_at(p7);
    lemma_plug_letter(m.pairs, d);
    let out = plug(m.pairs, d);
    assert(out == m.substitute(c));
    lemma_plug_involution(m.pairs, d);
    assert(index_of(plug(m.pairs, out)) == p7);
    lemma_plug_involution(m.pairs, c);
}

/// With the rotors standing still, the signal path is its own inverse, and it sends a letter to
/// a letter.
pub proof fn lemma_substitute_involution(m: MachineView, c: char)
    requires
        m.wf(),
        is_letter(c),
    ensures
        is_letter(m.substitute(c)),
        m.substitute(m.substitute(c)) == c,
{
    assert forall|p: int| 0 <= p < 26 implies 0 <= #[trigger] rotor_path(m, p) < 26 && rotor_path(
        m,
        rotor_path(m, p),
    ) == p by {
        lemma_rotor_path(m, p);
    }
    lemma_substitute_from_path(m, c);
}

/// A machine set back to a starting state turns the letters it produced from that state into
/// the original letters: enciphering twice from the same state gives back the text.
pub proof fn lemma_cipher_round_trip(m: MachineView, text: Seq<char>)
    requires
        m.wf(),
        forall|i: int| 0 <= i < text.len() ==> is_letter(#[trigger] text[i]),
    ensures
        m.cipher(m.cipher(text)) == text,
        forall|i: int| 0 <= i < text.len() ==> is_letter(#[trigger] m.cipher(text)[i]),
        m.cipher(text).len() == text.len(),
    decreases text.len(),
{
    if text.len() > 0 {
        let a = m.advanced();
        let rest = text.drop_first();
        lemma_advanced_wf(m);
        lemma_cipher_round_trip(a, rest);
        lemma_substitute_involution(a, text[0]);
        let once = m.cipher(text);
        assert(once[0] == m.output(text[0]));
        assert(once.drop_first() =~= a.cipher(rest));
        assert(m.cipher(once) =~= text);
    }
}

/// Two machines built from configurations with the same settings produce the same letters for
/// the same text, and stand alike afterwards.
pub proof fn lemma_same_config_same_cipher(
    first_config: Config,
    second_config: Config,
    text: Seq<char>,
)
    requires
        first_config.left_rotor == second_config.left_rotor,
        first_config.middle_rotor == second_config.middle_rotor,
        first_config.right_rotor == second_config.right_rotor,
        first_config.plugboard@ == second_config.plugboard@,
    ensures
        machine_from(first_config).cipher(text) == machine_from(second_config).cipher(text),
        machine_from(first_config).advanced() == machine_from(second_config).advanced(),
{
    assert(machine_from(first_config) == machine_from(second_config));
}

/// The double step: when the middle rotor stands on its notch and the right rotor one position
/// before its own, a keystroke turns all three rotors, and the next one turns the right and
/// middle rotors again, and the left one only if the middle one has come onto a notch again.
pub proof fn lemma_double_step(m: MachineView)
    requires
        m.wf(),
        m.middle.on_notch(),
        m.right.rotated().on_notch(),
    ensures
        m.advanced().left == m.left.rotated(),
        m.advanced().middle == m.middle.rotated(),
        m.advanced().right == m.right.rotated(),
        m.advanced().advanced().left == if m.middle.rotated().on_notch() {
            m.left.rotated().rotated()
        } else {
            m.left.rotated()
        },
        m.advanced().advanced().middle == m.middle.rotated().rotated(),
        m.advanced().advanced().right == m.right.rotated().rotated(),
{
}

impl EnigmaMachine {
    /// Builds the machine that `config` describes, or reports every problem of `config`.
    pub fn new(config: Config) -> (r: Result<Self, Vec<ConfigError>>)
        requires
            pairs_of_letters(config.plugboard@),
        ensures
            r is Ok <==> config.is_valid(),
            match r {
                Ok(machine) => machine@ == machine_from(config) && machine@.wf(),
                Err(errors) => errors@ == config.errors(),
            },
    {
        match config.verify() {
            Ok(()) => {},
            Err(errors) => {
                return Err(errors);
            },
        }
        Ok(
            EnigmaMachine {
                right_rotor: Rotor::new(config.right_rotor),
                middle_rotor: Rotor::new(config.middle_rotor),
                left_rotor: Rotor::new(config.left_rotor),
                plugboard: Plugboard { wire_pairs: config.plugboard },
            },
        )
    }

    /// Encodes a single letter in the range 'A'..='Z'
    pub fn encode(&mut self, input: char) -> (r: char)
        requires
            old(self)@.wf(),
            is_letter(input),
        ensures
            final(self)@ == old(self)@.advanced(),
            r == old(self)@.output(input),
            final(self)@.wf(),
            is_letter(r),
    {
        self.advance_rotors();
        let ghost m = self@;
        let plugged = self.plugboard.encode(input);
        proof {
            lemma_plug_letter(m.pairs, input);
        }
        let plugboard_output = alphabetical_index(&plugged);
        let rotor1_output = self.right_rotor.encode(plugboard_output);
        let rotor2_output = self.middle_rotor.encode(rotor1_output);
        let rotor3_output = self.left_rotor.encode(rotor2_output);
        let reflector_output = self.reflect(rotor3_output);
        let rotor3_backwards_output = self.left_rotor.encode_backwards(reflector_output);
        let rotor2_backwards_output = self.middle_rotor.encode_backwards(rotor3_backwards_output);
        let rotor1_backwards_output = self.right_rotor.encode_backwards(rotor2_backwards_output);
        let letter = alphabetical_letter(rotor1_backwards_output);
        proof {
            lemma_plug_letter(m.pairs, letter);
        }
        self.plugboard.encode(letter)
    }

    /// Rotates all necessary rotors
    fn advance_rotors(&mut self)
        requires
            old(self)@.wf(),
        ensures
            final(self)@ == old(self)@.advanced(),
            final(self)@.wf(),
    {
        let right_rotor_is_on_notch = self.right_rotor.is_on_notch();
        let middle_rotor_is_on_notch = self.middle_rotor.is_on_notch();

        self.right_rotor.rotate();
        if middle_rotor_is_on_notch || right_rotor_is_on_notch {
            self.middle_rotor.rotate();
        }
        if middle_rotor_is_on_notch {
            self.left_rotor.rotate();
        }
    }

    /// Passes a position through reflector B
    fn reflect(&self, input: RotorPosition) -> (r: RotorPosition)
        requires
            input < 26,
        ensures
            r == reflect_position(input as int),
            r < 26,
    {
        proof {
            lemma_reflector();
        }
        let table = reflector_b();
        alphabetical_index(&table[input])
    }

    /// The letters showing in the windows of the left, middle and right rotors.
    pub fn window_letters(&self) -> (r: (char, char, char))
        ensures
            r == (letter_at(self@.left.offset), letter_at(self@.middle.offset), letter_at(
                self@.right.offset,
            )),
    {
        (
            alphabetical_letter(self.left_rotor.offset),
            alphabetical_letter(self.middle_rotor.offset),
            alphabetical_letter(self.right_rotor.offset),
        )
    }
}

} // verus!
