use vstd::prelude::*;
use itertools::Itertools;
use crate::alphabet::is_letter;
use crate::plugboard::pair_letters;

verus! {

/// Choice and setting of the rotor in one slot.
#[derive(Clone, Copy, Debug, PartialEq, Eq, Structural)]
pub struct RotorConfig {
    /// Which rotor, denoted by its number, from 1 to 8 inclusive
    pub number: usize,
    /// Ring setting, 0 to 25 inclusive
    pub setting: usize,
    /// Initial orientation of the rotor, denoted by the letter visible in the window
    pub window_letter: char,
}

/// Settings of a whole machine: three rotors and the plugboard's letter pairs.
pub struct Config {
    pub left_rotor: RotorConfig,
    pub middle_rotor: RotorConfig,
    pub right_rotor: RotorConfig,
    pub plugboard: Vec<[char; 2]>,
}

/// Where a rotor stands in the machine.
#[derive(Clone, Copy, Debug, PartialEq, Eq, Structural)]
pub enum Slot {
    Left,
    Middle,
    Right,
}

/// One problem found in a configuration.
#[derive(Clone, Copy, Debug, PartialEq, Eq, Structural)]
pub enum ConfigError {
    RotorNumberOutsideRange(Slot, usize),
    TwoRotorsWithSameNumber(Slot, Slot, usize),
    RingSettingOutOfBounds(Slot, usize),
    InvalidWindowLetter(Slot, char),
    PlugboardDuplicateLetter(char),
    TooManyPlugs(usize),
}

impl RotorConfig {
    /// The rotor number, ring setting and window letter are all in range.
    pub open spec fn is_valid(self) -> bool {
        &&& 1 <= self.number <= 8
        &&& self.setting <= 25
        &&& is_letter(self.window_letter)
    }
}

/// An optional problem as a list of zero or one problems.
pub open spec fn listed(problem: Option<ConfigError>) -> Seq<ConfigError> {
    match problem {
        Some(e) => seq![e],
        None => seq![],
    }
}

/// The problem, if any, of a rotor number outside 1 to 8.
pub open spec fn number_problem(rotor: RotorConfig, slot: Slot) -> Option<ConfigError> {
    if !(1 <= rotor.number <= 8) {
        Some(ConfigError::RotorNumberOutsideRange(slot, rotor.number))
    } else {
        None
    }
}

/// The problem, if any, of a ring setting above 25.
pub open spec fn setting_problem(rotor: RotorConfig, slot: Slot) -> Option<ConfigError> {
    if rotor.setting > 25 {
        Some(ConfigError::RingSettingOutOfBounds(slot, rotor.setting))
    } else {
        None
    }
}

/// The problem, if any, of a window letter outside 'A' to 'Z'.
pub open spec fn window_problem(rotor: RotorConfig, slot: Slot) -> Option<ConfigError> {
    if !is_letter(rotor.window_letter) {
        Some(ConfigError::InvalidWindowLetter(slot, rotor.window_letter))
    } else {
        None
    }
}

/// The problem, if any, of two slots holding the same rotor.
pub open spec fn same_number_problem(
    rotor1: RotorConfig,
    slot1: Slot,
    rotor2: RotorConfig,
    slot2: Slot,
) -> Option<ConfigError> {
    if rotor1.number == rotor2.number {
        Some(ConfigError::TwoRotorsWithSameNumber(slot1, slot2, rotor1.number))
    } else {
        None
    }
}

/// The problems of one rotor's own settings: number, then ring setting, then window letter.
pub open spec fn rotor_errors(rotor: RotorConfig, slot: Slot) -> Seq<ConfigError> {
    listed(number_problem(rotor, slot)) + listed(setting_problem(rotor, slot)) + listed(
        window_problem(rotor, slot),
    )
}

/// The problems of the three rotors: each rotor's own, then each pair of slots that share a rotor.
pub open spec fn all_rotor_errors(left: RotorConfig, middle: RotorConfig, right: RotorConfig) -> Seq<
    ConfigError,
> {
    rotor_errors(left, Slot::Left) + rotor_errors(middle, Slot::Middle) + rotor_errors(
        right,
        Slot::Right,
    ) + listed(same_number_problem(left, Slot::Left, middle, Slot::Middle)) + listed(
        same_number_problem(left, Slot::Left, right, Slot::Right),
    ) + listed(same_number_problem(middle, Slot::Middle, right, Slot::Right))
}

/// Each letter of `s` that occurs again, once per repeat, in the order of the repeats.
pub open spec fn repeated_letters(s: Seq<char>) -> Seq<char>
    decreases s.len(),
{
    if s.len() == 0 {
        seq![]
    } else {
        let pre = s.drop_last();
        if pre.contains(s.last()) {
            repeated_letters(pre).push(s.last())
        } else {
            repeated_letters(pre)
        }
    }
}

/// The first occurrence of each item of `s`, in order.
pub open spec fn first_occurrences(s: Seq<char>) -> Seq<char>
    decreases s.len(),
{
    if s.len() == 0 {
        seq![]
    } else {
        let pre = s.drop_last();
        if pre.contains(s.last()) {
            first_occurrences(pre)
        } else {
            first_occurrences(pre).push(s.last())
        }
    }
}

/// The problem of `c` being used more than once on the plugboard.
pub open spec fn duplicate_error(c: char) -> ConfigError {
    ConfigError::PlugboardDuplicateLetter(c)
}

/// One problem for each letter of `letters` used more than once.
pub open spec fn duplicate_errors(letters: Seq<char>) -> Seq<ConfigError> {
    letters.map_values(|c: char| duplicate_error(c))
}

/// The problems of the plugboard: each letter used more than once, then too many pairs.
pub open spec fn plugboard_errors(pairs: Seq<[char; 2]>) -> Seq<ConfigError> {
    duplicate_errors(first_occurrences(repeated_letters(pair_letters(pairs)))) + (if pairs.len() > 10 {
        seq![ConfigError::TooManyPlugs(pairs.len() as usize)]
    } else {
        seq![]
    })
}

impl Config {
    /// Every problem of the configuration, in the order in which they are reported.
    pub open spec fn errors(&self) -> Seq<ConfigError> {
        all_rotor_errors(self.left_rotor, self.middle_rotor, self.right_rotor) + plugboard_errors(
            self.plugboard@,
        )
    }

    /// The configuration describes a machine.
    pub open spec fn is_valid(&self) -> bool {
        &&& self.left_rotor.is_valid()
        &&& self.middle_rotor.is_valid()
        &&& self.right_rotor.is_valid()
        &&& self.left_rotor.number != self.middle_rotor.number
        &&& self.left_rotor.number != self.right_rotor.number
        &&& self.middle_rotor.number != self.right_rotor.number
        &&& pair_letters(self.plugboard@).no_duplicates()
        &&& self.plugboard@.len() <= 10
    }
}

proof fn lemma_first_occurrences_empty(s: Seq<char>)
    ensures
        first_occurrences(s).len() == 0 <==> s.len() == 0,
    decreases s.len(),
{
    if s.len() > 0 {
        let pre = s.drop_last();
        lemma_first_occurrences_empty(pre);
        if pre.contains(s.last()) {
            assert(pre.len() > 0);
        }
    }
}

proof fn lemma_repeated_letters_empty(s: Seq<char>)
    ensures
        repeated_letters(s).len() == 0 <==> s.no_duplicates(),
    decreases s.len(),
{
    if s.len() > 0 {
        let pre = s.drop_last();
        lemma_repeated_letters_empty(pre);
        assert(s =~= pre.push(s.last()));
        if s.no_duplicates() {
            assert(pre.no_duplicates()) by {
                assert forall|i: int, j: int| 0 <= i < pre.len() && 0 <= j < pre.len() && i != j implies pre[i] != pre[j] by {
                    assert(s[i] == pre[i] && s[j] == pre[j]);
                }
            }
            if pre.contains(s.last()) {
                let i = choose|i: int| 0 <= i < pre.len() && pre[i] == s.last();
                assert(s[i] == s[s.len() - 1]);
            }
        } else if pre.no_duplicates() && !pre.contains(s.last()) {
            assert forall|i: int, j: int| 0 <= i < s.len() && 0 <= j < s.len() && i != j implies s[i] != s[j] by {
                if i < pre.len() && j < pre.len() {
                    assert(s[i] == pre[i] && s[j] == pre[j]);
                } else if i < pre.len() {
                    assert(s[i] == pre[i]);
                } else if j < pre.len() {
                    assert(s[j] == pre[j]);
                }
            }
        }
    }
}

proof fn lemma_plugboard_errors_empty(pairs: Seq<[char; 2]>)
    ensures
        plugboard_errors(pairs).len() == 0 <==> (pair_letters(pairs).no_duplicates() && pairs.len()
            <= 10),
{
    let letters = pair_letters(pairs);
    lemma_repeated_letters_empty(letters);
    lemma_first_occurrences_empty(repeated_letters(letters));
    let firsts = first_occurrences(repeated_letters(letters));
    assert(duplicate_errors(firsts).len() == firsts.len());
}

proof fn lemma_rotor_errors_empty(rotor: RotorConfig, slot: Slot)
    ensures
        rotor_errors(rotor, slot).len() == 0 <==> rotor.is_valid(),
{
}

/// A configuration shows no problem exactly when it describes a machine.
pub proof fn lemma_no_errors_iff_valid(config: &Config)
    ensures
        config.errors().len() == 0 <==> config.is_valid(),
{
    lemma_plugboard_errors_empty(config.plugboard@);
    lemma_rotor_errors_empty(config.left_rotor, Slot::Left);
    lemma_rotor_errors_empty(config.middle_rotor, Slot::Middle);
    lemma_rotor_errors_empty(config.right_rotor, Slot::Right);
}

/// `errors` reports each problem of the settings of `rotor` in `slot`.
pub open spec fn reports_rotor(errors: Seq<ConfigError>, rotor: RotorConfig, slot: Slot) -> bool {
    &&& !(1 <= rotor.number <= 8) ==> errors.contains(
        ConfigError::RotorNumberOutsideRange(slot, rotor.number),
    )
    &&& rotor.setting > 25 ==> errors.contains(ConfigError::RingSettingOutOfBounds(slot, rotor.setting))
    &&& !is_letter(rotor.window_letter) ==> errors.contains(
        ConfigError::InvalidWindowLetter(slot, rotor.window_letter),
    )
}

proof fn lemma_contains_either(a: Seq<ConfigError>, b: Seq<ConfigError>, x: ConfigError)
    requires
        a.contains(x) || b.contains(x),
    ensures
        (a + b).contains(x),
{
    if a.contains(x) {
        let k = choose|k: int| 0 <= k < a.len() && a[k] == x;
        assert((a + b)[k] == x);
    } else {
        let k = choose|k: int| 0 <= k < b.len() && b[k] == x;
        assert((a + b)[a.len() + k] == x);
    }
}

proof fn lemma_listed_contains(problem: Option<ConfigError>)
    ensures
        problem matches Some(e) ==> listed(problem).contains(e),
{
    if let Some(e) = problem {
        assert(listed(problem)[0] == e);
    }
}

proof fn lemma_rotor_errors_reported(rotor: RotorConfig, slot: Slot)
    ensures
        reports_rotor(rotor_errors(rotor, slot), rotor, slot),
{
    let a = listed(number_problem(rotor, slot));
    let b = listed(setting_problem(rotor, slot));
    let c = listed(window_problem(rotor, slot));
    lemma_listed_contains(number_problem(rotor, slot));
    lemma_listed_contains(setting_problem(rotor, slot));
    lemma_listed_contains(window_problem(rotor, slot));
    if !(1 <= rotor.number <= 8) {
        let x = ConfigError::RotorNumberOutsideRange(slot, rotor.number);
        lemma_contains_either(a, b, x);
        lemma_contains_either(a + b, c, x);
    }
    if rotor.setting > 25 {
        let x = ConfigError::RingSettingOutOfBounds(slot, rotor.setting);
        lemma_contains_either(a, b, x);
        lemma_contains_either(a + b, c, x);
    }
    if !is_letter(rotor.window_letter) {
        let x = ConfigError::InvalidWindowLetter(slot, rotor.window_letter);
        lemma_contains_either(a + b, c, x);
    }
}

proof fn lemma_reports_rotor_grows(a: Seq<ConfigError>, b: Seq<ConfigError>, rotor: RotorConfig, slot: Slot)
    requires
        reports_rotor(a, rotor, slot) || reports_rotor(b, rotor, slot),
    ensures
        reports_rotor(a + b, rotor, slot),
{
    let n = ConfigError::RotorNumberOutsideRange(slot, rotor.number);
    let s = ConfigError::RingSettingOutOfBounds(slot, rotor.setting);
    let w = ConfigError::InvalidWindowLetter(slot, rotor.window_letter);
    if !(1 <= rotor.number <= 8) {
        lemma_contains_either(a, b, n);
    }
    if rotor.setting > 25 {
        lemma_contains_either(a, b, s);
    }
    if !is_letter(rotor.window_letter) {
        lemma_contains_either(a, b, w);
    }
}

proof fn lemma_first_occurrences_contains(s: Seq<char>, c: char)
    requires
        s.contains(c),
    ensures
        first_occurrences(s).contains(c),
    decreases s.len(),
{
    let pre = s.drop_last();
    let f = first_occurrences(pre);
    if pre.contains(c) {
        lemma_first_occurrences_contains(pre, c);
        if !pre.contains(s.last()) {
            let k = choose|k: int| 0 <= k < f.len() && f[k] == c;
            assert(f.push(s.last())[k] == c);
        }
    } else {
        let k = choose|k: int| 0 <= k < s.len() && s[k] == c;
        if k < pre.len() {
            assert(pre[k] == c);
        }
        assert(s.last() == c);
        assert(f.push(c)[f.len() as int] == c);
    }
}

proof fn lemma_repeated_letters_contains(s: Seq<char>, i: int, j: int)
    requires
        0 <= i < j < s.len(),
        s[i] == s[j],
    ensures
        repeated_letters(s).contains(s[j]),
    decreases s.len(),
{
    let pre = s.drop_last();
    let r = repeated_letters(pre);
    if j == s.len() - 1 {
        assert(pre[i] == s.last());
        assert(r.push(s.last())[r.len() as int] == s[j]);
    } else {
        assert(pre[i] == pre[j]);
        lemma_repeated_letters_contains(pre, i, j);
        if pre.contains(s.last()) {
            let k = choose|k: int| 0 <= k < r.len() && r[k] == s[j];
            assert(r.push(s.last())[k] == s[j]);
        }
    }
}

/// Nothing wrong goes unreported: every rotor setting out of range, every pair of slots that
/// share a rotor, every letter used twice on the plugboard, and too many pairs each have their
/// entry among the problems.
pub proof fn lemma_every_problem_reported(config: &Config)
    ensures
        reports_rotor(config.errors(), config.left_rotor, Slot::Left),
        reports_rotor(config.errors(), config.middle_rotor, Slot::Middle),
        reports_rotor(config.errors(), config.right_rotor, Slot::Right),
        config.left_rotor.number == config.middle_rotor.number ==> config.errors().contains(
            ConfigError::TwoRotorsWithSameNumber(Slot::Left, Slot::Middle, config.left_rotor.number),
        ),
        config.left_rotor.number == config.right_rotor.number ==> config.errors().contains(
            ConfigError::TwoRotorsWithSameNumber(Slot::Left, Slot::Right, config.left_rotor.number),
        ),
        config.middle_rotor.number == config.right_rotor.number ==> config.errors().contains(
            ConfigError::TwoRotorsWithSameNumber(
                Slot::Middle,
                Slot::Right,
                config.middle_rotor.number,
            ),
        ),
        forall|i: int, j: int|
            0 <= i < j < pair_letters(config.plugboard@).len() && pair_letters(config.plugboard@)[i]
                == pair_letters(config.plugboard@)[j] ==> config.errors().contains(
                ConfigError::PlugboardDuplicateLetter(pair_letters(config.plugboard@)[i]),
            ),
        config.plugboard@.len() > 10 ==> config.errors().contains(
            ConfigError::TooManyPlugs(config.plugboard@.len() as usize),
        ),
{
    let l = config.left_rotor;
    let m = config.middle_rotor;
    let r = config.right_rotor;
    let rl = rotor_errors(l, Slot::Left);
    let rm = rotor_errors(m, Slot::Middle);
    let rr = rotor_errors(r, Slot::Right);
    let d1 = listed(same_number_problem(l, Slot::Left, m, Slot::Middle));
    let d2 = listed(same_number_problem(l, Slot::Left, r, Slot::Right));
    let d3 = listed(same_number_problem(m, Slot::Middle, r, Slot::Right));
    let own = rl + rm + rr;
    let rotors = own + d1 + d2 + d3;
    let plugs = plugboard_errors(config.plugboard@);
    assert(rotors == all_rotor_errors(l, m, r));
    assert(config.errors() == rotors + plugs);
    // each rotor's own problems
    lemma_rotor_errors_reported(l, Slot::Left);
    lemma_rotor_errors_reported(m, Slot::Middle);
    lemma_rotor_errors_reported(r, Slot::Right);
    lemma_reports_rotor_grows(rl, rm, l, Slot::Left);
    lemma_reports_rotor_grows(rl + rm, rr, l, Slot::Left);
    lemma_reports_rotor_grows(rl, rm, m, Slot::Middle);
    lemma_reports_rotor_grows(rl + rm, rr, m, Slot::Middle);
    lemma_reports_rotor_grows(rl + rm, rr, r, Slot::Right);
    lemma_reports_rotor_grows(own, d1, l, Slot::Left);
    lemma_reports_rotor_grows(own, d1, m, Slot::Middle);
    lemma_reports_rotor_grows(own, d1, r, Slot::Right);
    lemma_reports_rotor_grows(own + d1, d2, l, Slot::Left);
    lemma_reports_rotor_grows(own + d1, d2, m, Slot::Middle);
    lemma_reports_rotor_grows(own + d1, d2, r, Slot::Right);
    lemma_reports_rotor_grows(own + d1 + d2, d3, l, Slot::Left);
    lemma_reports_rotor_grows(own + d1 + d2, d3, m, Slot::Middle);
    lemma_reports_rotor_grows(own + d1 + d2, d3, r, Slot::Right);
    lemma_reports_rotor_grows(rotors, plugs, l, Slot::Left);
    lemma_reports_rotor_grows(rotors, plugs, m, Slot::Middle);
    lemma_reports_rotor_grows(rotors, plugs, r, Slot::Right);
    // shared rotors
    lemma_listed_contains(same_number_problem(l, Slot::Left, m, Slot::Middle));
    lemma_listed_contains(same_number_problem(l, Slot::Left, r, Slot::Right));
    lemma_listed_contains(same_number_problem(m, Slot::Middle, r, Slot::Right));
    if l.number == m.number {
        let x = ConfigError::TwoRotorsWithSameNumber(Slot::Left, Slot::Middle, l.number);
        lemma_contains_either(own, d1, x);
        lemma_contains_either(own + d1, d2, x);
        lemma_contains_either(own + d1 + d2, d3, x);
        lemma_contains_either(rotors, plugs, x);
    }
    if l.number == r.number {
        let x = ConfigError::TwoRotorsWithSameNumber(Slot::Left, Slot::Right, l.number);
        lemma_contains_either(own + d1, d2, x);
        lemma_contains_either(own + d1 + d2, d3, x);
        lemma_contains_either(rotors, plugs, x);
    }
    if m.number == r.number {
        let x = ConfigError::TwoRotorsWithSameNumber(Slot::Middle, Slot::Right, m.number);
        lemma_contains_either(own + d1 + d2, d3, x);
        lemma_contains_either(rotors, plugs, x);
    }
    // the plugboard
    let letters = pair_letters(config.plugboard@);
    let firsts = first_occurrences(repeated_letters(letters));
    let dups = duplicate_errors(firsts);
    let many = if config.plugboard@.len() > 10 {
        seq![ConfigError::TooManyPlugs(config.plugboard@.len() as usize)]
    } else {
        seq![]
    };
    assert(plugs == dups + many);
    assert forall|i: int, j: int|
        0 <= i < j < letters.len() && letters[i] == letters[j] implies config.errors().contains(
        ConfigError::PlugboardDuplicateLetter(letters[i]),
    ) by {
        lemma_repeated_letters_contains(letters, i, j);
        lemma_first_occurrences_contains(repeated_letters(letters), letters[j]);
        let k = choose|k: int| 0 <= k < firsts.len() && firsts[k] == letters[j];
        assert(dups[k] == duplicate_error(letters[i]));
        lemma_contains_either(dups, many, ConfigError::PlugboardDuplicateLetter(letters[i]));
        lemma_contains_either(rotors, plugs, ConfigError::PlugboardDuplicateLetter(letters[i]));
    }
    if config.plugboard@.len() > 10 {
        let x = ConfigError::TooManyPlugs(config.plugboard@.len() as usize);
        assert(many[0] == x);
        lemma_contains_either(dups, many, x);
        lemma_contains_either(rotors, plugs, x);
    }
}

/// Relies on itertools::Itertools::unique: it yields each distinct item once, at its first
/// occurrence, in the order of the input.
#[verifier::external_body]
fn unique_letters(letters: &Vec<char>) -> (r: Vec<char>)
    ensures
        r@ == first_occurrences(letters@),
{
    letters.iter().unique().copied().collect()
}

/// Whether `letters` holds `c`.
fn holds_letter(letters: &Vec<char>, c: char) -> (r: bool)
    ensures
        r == letters@.contains(c),
{
    let mut i: usize = 0;
    while i < letters.len()
        invariant
            i <= letters@.len(),
            forall|k: int| 0 <= k < i ==> letters@[k] != c,
        decreases letters@.len() - i,
    {
        if letters[i] == c {
            return true;
        }
        i = i + 1;
    }
    false
}

/// Appends `problem` to `errors` when there is one.
fn note_problem(errors: &mut Vec<ConfigError>, problem: Option<ConfigError>)
    ensures
        final(errors)@ == old(errors)@ + listed(problem),
{
    match problem {
        Some(e) => {
            errors.push(e);
            assert(final(errors)@ =~= old(errors)@ + listed(problem));
        },
        None => {
            assert(old(errors)@ + listed(problem) =~= old(errors)@);
        },
    }
}

/// Records `letter` as seen, or as repeated when it was seen before.
fn note_letter(seen: &mut Vec<char>, repeated: &mut Vec<char>, letter: char)
    ensures
        forall|c: char| final(seen)@.contains(c) <==> (old(seen)@.contains(c) || c == letter),
        final(repeated)@ == if old(seen)@.contains(letter) {
            old(repeated)@.push(letter)
        } else {
            old(repeated)@
        },
{
    if holds_letter(seen, letter) {
        repeated.push(letter);
    } else {
        seen.push(letter);
        assert forall|c: char| final(seen)@.contains(c) <==> (old(seen)@.contains(c) || c == letter) by {
            if old(seen)@.contains(c) {
                let k = choose|k: int| 0 <= k < old(seen)@.len() && old(seen)@[k] == c;
                assert(final(seen)@[k] == c);
            }
            if c == letter {
                assert(final(seen)@[old(seen)@.len() as int] == c);
            }
            if final(seen)@.contains(c) {
                let k = choose|k: int| 0 <= k < final(seen)@.len() && final(seen)@[k] == c;
                if k < old(seen)@.len() {
                    assert(old(seen)@[k] == c);
                }
            }
        }
    }
}

proof fn lemma_letters_step(letters: Seq<char>, k: int, seen: Seq<char>, repeated: Seq<char>)
    requires
        0 <= k < letters.len(),
        forall|c: char| seen.contains(c) <==> letters.take(k).contains(c),
        repeated == repeated_letters(letters.take(k)),
    ensures
        seen.contains(letters[k]) <==> letters.take(k).contains(letters[k]),
        repeated_letters(letters.take(k + 1)) == if seen.contains(letters[k]) {
            repeated.push(letters[k])
        } else {
            repeated
        },
        forall|c: char| (seen.contains(c) || c == letters[k]) <==> letters.take(k + 1).contains(c),
{
    let next = letters.take(k + 1);
    assert(next.drop_last() =~= letters.take(k));
    assert(next.last() == letters[k]);
    assert forall|c: char| (seen.contains(c) || c == letters[k]) <==> next.contains(c) by {
        if next.contains(c) {
            let i = choose|i: int| 0 <= i < next.len() && next[i] == c;
            if i < k {
                assert(letters.take(k)[i] == c);
            }
        }
        if seen.contains(c) {
            let i = choose|i: int| 0 <= i < k && letters.take(k)[i] == c;
            assert(next[i] == c);
        }
        if c == letters[k] {
            assert(next[k] == c);
        }
    }
}

impl Config {
    /// Checks the whole configuration, and reports every problem found.
    pub fn verify(&self) -> (r: Result<(), Vec<ConfigError>>)
        ensures
            r is Ok <==> self.is_valid(),
            match r {
                Ok(()) => self.errors().len() == 0,
                Err(errors) => errors@ == self.errors(),
            },
    {
        let mut errors = self.verify_rotors();
        let mut plugboard_errors = self.verify_plugboard();
        errors.append(&mut plugboard_errors);
        proof {
            lemma_no_errors_iff_valid(self);
        }
        if errors.len() != 0 {
            Err(errors)
        } else {
            Ok(())
        }
    }

    fn verify_rotors(&self) -> (r: Vec<ConfigError>)
        ensures
            r@ == all_rotor_errors(self.left_rotor, self.middle_rotor, self.right_rotor),
    {
        let left = self.left_rotor;
        let middle = self.middle_rotor;
        let right = self.right_rotor;
        let mut errors = Self::verify_rotor(&left, Slot::Left);
        let mut more = Self::verify_rotor(&middle, Slot::Middle);
        errors.append(&mut more);
        let mut more = Self::verify_rotor(&right, Slot::Right);
        errors.append(&mut more);
        note_problem(
            &mut errors,
            Self::verify_rotor_numbers_are_unique(&left, Slot::Left, &middle, Slot::Middle),
        );
        note_problem(
            &mut errors,
            Self::verify_rotor_numbers_are_unique(&left, Slot::Left, &right, Slot::Right),
        );
        note_problem(
            &mut errors,
            Self::verify_rotor_numbers_are_unique(&middle, Slot::Middle, &right, Slot::Right),
        );
        assert(errors@ =~= all_rotor_errors(left, middle, right));
        errors
    }

    /// The problems of one rotor's own settings.
    fn verify_rotor(rotor: &RotorConfig, slot: Slot) -> (r: Vec<ConfigError>)
        ensures
            r@ == rotor_errors(*rotor, slot),
    {
        let mut errors: Vec<ConfigError> = Vec::new();
        note_problem(&mut errors, Self::verify_rotor_number_in_range(rotor, slot));
        note_problem(&mut errors, Self::verify_ring_settings(rotor, slot));
        note_problem(&mut errors, Self::verify_window_letters(rotor, slot));
        assert(errors@ =~= rotor_errors(*rotor, slot));
        errors
    }

    fn verify_rotor_numbers_are_unique(
        rotor1: &RotorConfig,
        slot1: Slot,
        rotor2: &RotorConfig,
        slot2: Slot,
    ) -> (r: Option<ConfigError>)
        ensures
            r == same_number_problem(*rotor1, slot1, *rotor2, slot2),
    {
        if rotor1.number == rotor2.number {
            Some(ConfigError::TwoRotorsWithSameNumber(slot1, slot2, rotor1.number))
        } else {
            None
        }
    }

    fn verify_rotor_number_in_range(rotor: &RotorConfig, slot: Slot) -> (r: Option<ConfigError>)
        ensures
            r == number_problem(*rotor, slot),
    {
        if !(1 <= rotor.number && rotor.number <= 8) {
            Some(ConfigError::RotorNumberOutsideRange(slot, rotor.number))
        } else {
            None
        }
    }

    fn verify_ring_settings(rotor: &RotorConfig, slot: Slot) -> (r: Option<ConfigError>)
        ensures
            r == setting_problem(*rotor, slot),
    {
        if rotor.setting > 25 {
            Some(ConfigError::RingSettingOutOfBounds(slot, rotor.setting))
        } else {
            None
        }
    }

    fn verify_window_letters(rotor: &RotorConfig, slot: Slot) -> (r: Option<ConfigError>)
        ensures
            r == window_problem(*rotor, slot),
    {
        if !('A' <= rotor.window_letter && rotor.window_letter <= 'Z') {
            Some(ConfigError::InvalidWindowLetter(slot, rotor.window_letter))
        } else {
            None
        }
    }

    fn verify_plugboard(&self) -> (r: Vec<ConfigError>)
        ensures
            r@ == plugboard_errors(self.plugboard@),
    {
        let ghost letters = pair_letters(self.plugboard@);
        let mut seen: Vec<char> = Vec::new();
        let mut repeated: Vec<char> = Vec::new();
        let mut i: usize = 0;
        while i < self.plugboard.len()
            invariant
                i <= self.plugboard@.len(),
                letters == pair_letters(self.plugboard@),
                forall|c: char| seen@.contains(c) <==> letters.take(2 * i).contains(c),
                repeated@ == repeated_letters(letters.take(2 * i)),
            decreases self.plugboard@.len() - i,
        {
            let pair = self.plugboard[i];
            assert(letters[2 * i] == pair[0] && letters[2 * i + 1] == pair[1]) by {
                assert((2 * i) / 2 == i && (2 * i) % 2 == 0);
                assert((2 * i + 1) / 2 == i && (2 * i + 1) % 2 == 1);
            }
            proof {
                lemma_letters_step(letters, 2 * i, seen@, repeated@);
            }
            note_letter(&mut seen, &mut repeated, pair[0]);
            proof {
                lemma_letters_step(letters, 2 * i + 1, seen@, repeated@);
            }
            note_letter(&mut seen, &mut repeated, pair[1]);
            i = i + 1;
        }
        assert(letters.take(2 * i) =~= letters);
        let duplicated = unique_letters(&repeated);
        let mut errors: Vec<ConfigError> = Vec::new();
        let mut k: usize = 0;
        while k < duplicated.len()
            invariant
                k <= duplicated@.len(),
                errors@ == duplicate_errors(duplicated@).take(k as int),
            decreases duplicated@.len() - k,
        {
            errors.push(ConfigError::PlugboardDuplicateLetter(duplicated[k]));
            assert(duplicate_errors(duplicated@)[k as int] == duplicate_error(duplicated@[k as int]));
            assert(errors@ =~= duplicate_errors(duplicated@).take(k + 1));
            k = k + 1;
        }
        assert(errors@ =~= duplicate_errors(duplicated@));
        if self.plugboard.len() > 10 {
            errors.push(ConfigError::TooManyPlugs(self.plugboard.len()));
        }
        assert(errors@ =~= plugboard_errors(self.plugboard@));
        errors
    }
}

} // verus!
