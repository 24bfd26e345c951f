use vstd::prelude::*;
use crate::alphabet::{
    alphabetical_index, alphabetical_letter, index_of, is_letter, lemma_index_of, lemma_letter_at,
    letter_at,
};
use crate::config::RotorConfig;
use crate::tables::{rotor_constants, rotor_notches, rotor_wiring};
use crate::wiring::{holds_position, is_wiring, lemma_rotor_wiring};

verus! {

/// Every contact on a rotor can be in one of 26 positions.
///
/// A rotor's input and output are considered in terms of these static positions rather than
/// letters, which change position as the rotor rotates.
pub type RotorPosition = usize;

/// A rotor sitting in a slot
pub struct Rotor {
    /// The letters, in order, that A, B, C etc are wired to. Accounts for ring setting
    pub wiring: Vec<char>,
    /// The letters with notches next to them
    pub notches: [char; 2],
    /// How far the rotor has rotated in its slot. An offset of 0 indicates that 'A' is showing in
    /// the display window
    pub offset: usize,
}

/// The wiring `base` as it stands once the ring is turned by `setting`: the table is rotated by
/// `setting` places and each letter moved on by `setting` letters.
pub open spec fn ring_wiring(base: Seq<char>, setting: int) -> Seq<char> {
    Seq::new(26, |j: int| letter_at(index_of(base[(j - setting) % 26]) + setting))
}

/// The place of `c` in `w`.
pub open spec fn slot_of(w: Seq<char>, c: char) -> int {
    choose|i: int| 0 <= i < w.len() && w[i] == c
}

/// What a rotor is, as plain values.
pub struct RotorView {
    pub wiring: Seq<char>,
    pub notches: Seq<char>,
    pub offset: int,
}

impl View for Rotor {
    type V = RotorView;

    open spec fn view(&self) -> RotorView {
        RotorView { wiring: self.wiring@, notches: self.notches@, offset: self.offset as int }
    }
}

impl RotorView {
    /// The wiring is a permutation of the alphabet and the offset is a position.
    pub open spec fn wf(self) -> bool {
        is_wiring(self.wiring) && 0 <= self.offset < 26
    }

    /// Position reached from `p` on the pass from right to left.
    pub open spec fn forward(self, p: int) -> int {
        (index_of(self.wiring[(p + self.offset) % 26]) - self.offset) % 26
    }

    /// Position reached from `p` on the pass from left to right.
    pub open spec fn backward(self, p: int) -> int {
        (slot_of(self.wiring, letter_at(p + self.offset)) - self.offset) % 26
    }

    /// The letter in the window carries a notch.
    pub open spec fn on_notch(self) -> bool {
        self.notches.contains(letter_at(self.offset))
    }

    /// The same rotor turned on by one position.
    pub open spec fn rotated(self) -> RotorView {
        RotorView { offset: (self.offset + 1) % 26, ..self }
    }

    /// The rotor after `n` turns.
    pub open spec fn rotated_times(self, n: nat) -> RotorView
        decreases n,
    {
        if n == 0 {
            self
        } else {
            self.rotated_times((n - 1) as nat).rotated()
        }
    }
}

/// The rotor that `config` describes.
pub open spec fn rotor_from(config: RotorConfig) -> RotorView {
    RotorView {
        wiring: ring_wiring(rotor_wiring(config.number as int), config.setting as int),
        notches: rotor_notches(config.number as int),
        offset: index_of(config.window_letter),
    }
}

proof fn lemma_unshift(x: int, offset: int)
    requires
        0 <= x < 26,
        0 <= offset < 26,
    ensures
        (x + 26 - offset) % 26 == (x - offset) % 26,
        0 <= (x - offset) % 26 < 26,
{
}

proof fn lemma_shift_back(j: int, setting: int)
    requires
        0 <= j < 26,
        0 <= setting < 26,
    ensures
        (j - setting) % 26 == if j >= setting { j - setting } else { j - setting + 26 },
{
}

proof fn lemma_ring_letter(base: Seq<char>, setting: int, j: int)
    requires
        is_wiring(base),
        0 <= setting < 26,
        0 <= j < 26,
    ensures
        is_letter(ring_wiring(base, setting)[j]),
        index_of(ring_wiring(base, setting)[j]) == (index_of(base[(j - setting) % 26]) + setting)
            % 26,
        0 <= (j - setting) % 26 < 26,
{
    lemma_shift_back(j, setting);
    lemma_letter_at(index_of(base[(j - setting) % 26]) + setting);
}

/// Turning the ring keeps a wiring a permutation of the alphabet.
#[verifier::spinoff_prover]
pub proof fn lemma_ring_wiring(base: Seq<char>, setting: int)
    requires
        is_wiring(base),
        0 <= setting < 26,
    ensures
        is_wiring(ring_wiring(base, setting)),
{
    let w = ring_wiring(base, setting);
    assert forall|j: int| 0 <= j < 26 implies is_letter(#[trigger] w[j]) by {
        lemma_ring_letter(base, setting, j);
    }
    assert forall|i: int, j: int| 0 <= i < 26 && 0 <= j < 26 && i != j implies w[i] != w[j] by {
        lemma_ring_letter(base, setting, i);
        lemma_ring_letter(base, setting, j);
        lemma_shift_back(i, setting);
        lemma_shift_back(j, setting);
        let bi = base[(i - setting) % 26];
        let bj = base[(j - setting) % 26];
        assert(bi != bj);
        lemma_index_of(bi);
        lemma_index_of(bj);
    }
    assert forall|k: int| 0 <= k < 26 implies #[trigger] holds_position(w, k) by {
        assert(holds_position(base, (k - setting) % 26));
        let i = choose|i: int| 0 <= i < 26 && #[trigger] index_of(base[i]) == (k - setting) % 26;
        let j = (i + setting) % 26;
        lemma_shift_back(j, setting);
        assert((j - setting) % 26 == i);
        lemma_ring_letter(base, setting, j);
        assert(index_of(w[j]) == k);
    }
}

/// Through one rotor state, the pass from left to right undoes the pass from right to left,
/// and the other way round.
pub proof fn lemma_rotor_round_trip(r: RotorView, p: int)
    requires
        r.wf(),
        0 <= p < 26,
    ensures
        0 <= r.forward(p) < 26,
        0 <= r.backward(p) < 26,
        r.backward(r.forward(p)) == p,
        r.forward(r.backward(p)) == p,
{
    let w = r.wiring;
    let o = r.offset;
    // forward, then backward
    let i = (p + o) % 26;
    let c = w[i];
    lemma_index_of(c);
    let q = r.forward(p);
    lemma_letter_at(q + o);
    assert(letter_at(q + o) == c) by {
        lemma_index_of(letter_at(q + o));
    }
    assert(0 <= slot_of(w, c) < 26 && w[slot_of(w, c)] == c);
    assert(slot_of(w, c) == i);
    // backward, then forward
    let d = letter_at(p + o);
    lemma_letter_at(p + o);
    assert(holds_position(w, index_of(d)));
    let k = choose|k: int| 0 <= k < 26 && #[trigger] index_of(w[k]) == index_of(d);
    lemma_index_of(w[k]);
    lemma_index_of(d);
    assert(w[k] == d);
    let s = slot_of(w, d);
    assert(0 <= s < 26 && w[s] == d);
    assert((r.backward(p) + o) % 26 == s);
}

/// After 26 turns a rotor is back where it started.
pub proof fn lemma_rotor_full_turn(r: RotorView)
    requires
        r.wf(),
    ensures
        r.rotated_times(26) == r,
{
    lemma_rotated_times(r, 26);
}

proof fn lemma_rotated_times(r: RotorView, n: nat)
    requires
        r.wf(),
    ensures
        r.rotated_times(n) == (RotorView { offset: (r.offset + n) % 26, ..r }),
    decreases n,
{
    if n > 0 {
        lemma_rotated_times(r, (n - 1) as nat);
    }
}

impl Rotor {
    /// Builds the rotor that `config` describes.
    pub fn new(config: RotorConfig) -> (r: Self)
        requires
            config.is_valid(),
        ensures
            r@ == rotor_from(config),
            r@.wf(),
    {
        let constants = rotor_constants(config.number);
        let base = constants.wiring;
        proof {
            lemma_rotor_wiring(config.number as int);
            lemma_ring_wiring(base@, config.setting as int);
        }
        let ghost target = ring_wiring(base@, config.setting as int);
        let mut wiring: Vec<char> = Vec::new();
        let mut j: usize = 0;
        while j < 26
            invariant
                j <= 26,
                config.is_valid(),
                target == ring_wiring(base@, config.setting as int),
                base@ == rotor_wiring(config.number as int),
                is_wiring(base@),
                wiring@.len() == j,
                forall|k: int| 0 <= k < j ==> wiring@[k] == target[k],
            decreases 26 - j,
        {
            let letter = base[(j + 26 - config.setting) % 26];
            proof {
                lemma_shift_back(j as int, config.setting as int);
                lemma_ring_letter(base@, config.setting as int, j as int);
            }
            wiring.push(alphabetical_letter(alphabetical_index(&letter) + config.setting));
            j = j + 1;
        }
        assert(wiring@ =~= target);
        Rotor { wiring, notches: constants.notches, offset: alphabetical_index(&config.window_letter) }
    }

    /// Rotate the rotor around 1 position
    pub fn rotate(&mut self)
        requires
            old(self)@.wf(),
        ensures
            final(self)@ == old(self)@.rotated(),
            final(self)@.wf(),
    {
        self.offset = (self.offset + 1) % 26;
    }

    /// Encode a signal through the rotor from right to left
    pub fn encode(&self, input: RotorPosition) -> (r: RotorPosition)
        requires
            self@.wf(),
            input < 26,
        ensures
            r == self@.forward(input as int),
            r < 26,
    {
        let slot = (input + self.offset) % 26;
        let output_letter = self.wiring[slot];
        proof {
            assert(is_letter(self@.wiring[slot as int]));
        }
        let x = alphabetical_index(&output_letter);
        proof {
            lemma_unshift(x as int, self.offset as int);
        }
        (x + 26 - self.offset) % 26
    }

    /// Encode a signal through the rotor from left to right
    pub fn encode_backwards(&self, input: RotorPosition) -> (r: RotorPosition)
        requires
            self@.wf(),
            input < 26,
        ensures
            r == self@.backward(input as int),
            r < 26,
    {
        let input_letter = alphabetical_letter((input + self.offset) % 26);
        let ghost w = self@.wiring;
        proof {
            lemma_letter_at(input + self.offset);
            assert(holds_position(w, index_of(input_letter)));
        }
        let mut i: usize = 0;
        while i < 26
            invariant
                i <= 26,
                self@.wf(),
                w == self@.wiring,
                input < 26,
                input_letter == letter_at(input + self.offset),
                is_letter(input_letter),
                forall|k: int| 0 <= k < i ==> w[k] != input_letter,
            decreases 26 - i,
        {
            if self.wiring[i] == input_letter {
                proof {
                    let s = slot_of(w, input_letter);
                    assert(w[i as int] == input_letter);
                    assert(0 <= s < 26 && w[s] == input_letter);
                    assert(s == i);
                }
                return (i + 26 - self.offset) % 26;
            }
            i = i + 1;
        }
        proof {
            let k = choose|k: int| 0 <= k < 26 && #[trigger] index_of(w[k]) == index_of(input_letter);
            lemma_index_of(w[k]);
            lemma_index_of(input_letter);
            assert(w[k] == input_letter);
        }
        0
    }

    /// Whether a keystroke will engage one of this rotor's notches
    pub fn is_on_notch(&self) -> (r: bool)
        requires
            self@.wf(),
        ensures
            r == self@.on_notch(),
    {
        let letter = alphabetical_letter(self.offset);
        let r = self.notches[0] == letter || self.notches[1] == letter;
        proof {
            if r {
                if self.notches[0] == letter {
                    assert(self@.notches[0] == letter);
                } else {
                    assert(self@.notches[1] == letter);
                }
            }
        }
        r
    }
}

} // verus!
