use enigma_machine::{
    alphabetical_index, alphabetical_letter, encode_text, Config, ConfigError, EnigmaMachine,
    Plugboard, Rotor, RotorConfig, Slot,
};

fn rotor(number: usize, setting: usize, window_letter: char) -> RotorConfig {
    RotorConfig { number, setting, window_letter }
}

fn config(rotors: [RotorConfig; 3], plugboard: Vec<[char; 2]>) -> Config {
    Config { left_rotor: rotors[0], middle_rotor: rotors[1], right_rotor: rotors[2], plugboard }
}

fn standard_config() -> Config {
    config([rotor(1, 0, 'A'), rotor(2, 0, 'A'), rotor(3, 0, 'A')], vec![])
}

fn run(machine: &mut EnigmaMachine, text: &str) -> String {
    text.chars().map(|c| machine.encode(c)).collect()
}

#[test]
fn index_and_letter_of_alphabet() {
    assert_eq!(alphabetical_index(&'A'), 0);
    assert_eq!(alphabetical_index(&'M'), 12);
    assert_eq!(alphabetical_index(&'Z'), 25);
    assert_eq!(alphabetical_letter(0), 'A');
    assert_eq!(alphabetical_letter(25), 'Z');
    assert_eq!(alphabetical_letter(27), 'B');
    for i in 0..26 {
        assert_eq!(alphabetical_index(&alphabetical_letter(i)), i);
    }
}

#[test]
fn rotor_without_ring_setting_keeps_table() {
    let r = Rotor::new(rotor(1, 0, 'C'));
    let wiring: String = r.wiring.iter().collect();
    assert_eq!(wiring, "EKMFLGDQVZNTOWYHXUSPAIBRCJ");
    assert_eq!(r.offset, 2);
    assert_eq!(r.notches, ['Q', '_']);
}

#[test]
fn rotor_ring_setting_shifts_wiring() {
    let r = Rotor::new(rotor(1, 1, 'A'));
    let wiring: String = r.wiring.iter().collect();
    assert_eq!(wiring, "KFLNGMHERWAOUPXZIYVTQBJCSD");
    let r = Rotor::new(rotor(3, 25, 'A'));
    let wiring: String = r.wiring.iter().collect();
    assert_eq!(wiring, "CEGIKBOQSWUYMXDHVFZJLTRPNA");
}

#[test]
fn rotor_encode_values() {
    let r = Rotor::new(rotor(1, 0, 'A'));
    assert_eq!(r.encode(0), 4);
    assert_eq!(r.encode_backwards(4), 0);
    let r = Rotor::new(rotor(1, 0, 'B'));
    // contact 0 meets wiring slot 1 ('K' = 10), seen from a rotor turned by one: 9
    assert_eq!(r.encode(0), 9);
    assert_eq!(r.encode_backwards(9), 0);
}

#[test]
fn rotor_backward_pass_undoes_forward_pass() {
    for number in 1..=8 {
        for window in ['A', 'G', 'Z'] {
            let r = Rotor::new(rotor(number, 7, window));
            for p in 0..26 {
                assert_eq!(r.encode_backwards(r.encode(p)), p);
                assert_eq!(r.encode(r.encode_backwards(p)), p);
            }
        }
    }
}

#[test]
fn rotor_full_turn_restores_state() {
    let mut r = Rotor::new(rotor(5, 3, 'K'));
    let before: Vec<usize> = (0..26).map(|p| r.encode(p)).collect();
    let offset = r.offset;
    for _ in 0..26 {
        r.rotate();
    }
    assert_eq!(r.offset, offset);
    let after: Vec<usize> = (0..26).map(|p| r.encode(p)).collect();
    assert_eq!(before, after);
}

#[test]
fn rotor_rotate_wraps() {
    let mut r = Rotor::new(rotor(2, 0, 'Z'));
    assert_eq!(r.offset, 25);
    r.rotate();
    assert_eq!(r.offset, 0);
}

#[test]
fn rotor_notch_detection() {
    let r = Rotor::new(rotor(1, 0, 'Q'));
    assert!(r.is_on_notch());
    let r = Rotor::new(rotor(1, 0, 'R'));
    assert!(!r.is_on_notch());
    let r = Rotor::new(rotor(6, 0, 'M'));
    assert!(r.is_on_notch());
    let r = Rotor::new(rotor(6, 0, 'Z'));
    assert!(r.is_on_notch());
}

#[test]
fn plugboard_swaps_and_is_reciprocal() {
    let p = Plugboard { wire_pairs: vec![['A', 'B'], ['C', 'D'], ['X', 'Q']] };
    assert_eq!(p.encode('A'), 'B');
    assert_eq!(p.encode('B'), 'A');
    assert_eq!(p.encode('Q'), 'X');
    assert_eq!(p.encode('E'), 'E');
    for i in 0..26 {
        let c = alphabetical_letter(i);
        assert_eq!(p.encode(p.encode(c)), c);
    }
    let empty = Plugboard { wire_pairs: vec![] };
    assert_eq!(empty.encode('K'), 'K');
}

#[test]
fn verify_accepts_valid_config() {
    let c = config([rotor(1, 0, 'A'), rotor(2, 25, 'Z'), rotor(8, 13, 'M')], vec![['A', 'B'], ['C', 'D']]);
    assert!(c.verify().is_ok());
}

#[test]
fn verify_reports_every_problem() {
    let plugs: Vec<[char; 2]> = vec![
        ['A', 'B'], ['C', 'D'], ['E', 'F'], ['G', 'H'], ['I', 'J'], ['K', 'L'], ['M', 'N'],
        ['O', 'P'], ['Q', 'R'], ['S', 'T'], ['A', 'U'],
    ];
    let c = config([rotor(9, 0, 'A'), rotor(2, 30, '1'), rotor(2, 0, 'A')], plugs);
    let errors = c.verify().unwrap_err();
    assert_eq!(
        errors,
        vec![
            ConfigError::RotorNumberOutsideRange(Slot::Left, 9),
            ConfigError::RingSettingOutOfBounds(Slot::Middle, 30),
            ConfigError::InvalidWindowLetter(Slot::Middle, '1'),
            ConfigError::TwoRotorsWithSameNumber(Slot::Middle, Slot::Right, 2),
            ConfigError::PlugboardDuplicateLetter('A'),
            ConfigError::TooManyPlugs(11),
        ]
    );
}

#[test]
fn verify_reports_each_duplicate_letter_once() {
    let c = config(
        [rotor(1, 0, 'A'), rotor(2, 0, 'A'), rotor(3, 0, 'A')],
        vec![['A', 'B'], ['B', 'A'], ['C', 'A'], ['D', 'D']],
    );
    assert_eq!(
        c.verify().unwrap_err(),
        vec![
            ConfigError::PlugboardDuplicateLetter('B'),
            ConfigError::PlugboardDuplicateLetter('A'),
            ConfigError::PlugboardDuplicateLetter('D'),
        ]
    );
}

#[test]
fn verify_reports_all_duplicate_slots() {
    let c = config([rotor(4, 0, 'A'), rotor(4, 0, 'A'), rotor(4, 0, 'A')], vec![]);
    assert_eq!(
        c.verify().unwrap_err(),
        vec![
            ConfigError::TwoRotorsWithSameNumber(Slot::Left, Slot::Middle, 4),
            ConfigError::TwoRotorsWithSameNumber(Slot::Left, Slot::Right, 4),
            ConfigError::TwoRotorsWithSameNumber(Slot::Middle, Slot::Right, 4),
        ]
    );
}

#[test]
fn new_rejects_invalid_config() {
    let c = config([rotor(0, 0, 'A'), rotor(2, 0, 'A'), rotor(3, 0, 'a')], vec![]);
    let errors = EnigmaMachine::new(c).err().unwrap();
    assert_eq!(
        errors,
        vec![
            ConfigError::RotorNumberOutsideRange(Slot::Left, 0),
            ConfigError::InvalidWindowLetter(Slot::Right, 'a'),
        ]
    );
}

#[test]
fn reference_output_at_aaa() {
    let mut m = EnigmaMachine::new(standard_config()).ok().unwrap();
    assert_eq!(m.encode('A'), 'B');
    let mut m = EnigmaMachine::new(standard_config()).ok().unwrap();
    assert_eq!(run(&mut m, "AAAAA"), "BDZGO");
}

#[test]
fn reference_output_with_ring_settings() {
    let c = config([rotor(1, 1, 'A'), rotor(2, 1, 'A'), rotor(3, 1, 'A')], vec![]);
    let mut m = EnigmaMachine::new(c).ok().unwrap();
    assert_eq!(run(&mut m, "AAAAA"), "EWTYX");
}

#[test]
fn output_never_equals_input() {
    let c = config([rotor(4, 5, 'Q'), rotor(7, 2, 'E'), rotor(1, 9, 'V')], vec![['A', 'Z'], ['M', 'K']]);
    let mut m = EnigmaMachine::new(c).ok().unwrap();
    for i in 0..200 {
        let c = alphabetical_letter(i);
        assert_ne!(m.encode(c), c);
    }
}

#[test]
fn double_step_of_middle_rotor() {
    // right rotor III one before its notch 'V', middle rotor II on its notch 'E'
    let c = config([rotor(1, 0, 'A'), rotor(2, 0, 'E'), rotor(3, 0, 'U')], vec![]);
    let mut m = EnigmaMachine::new(c).ok().unwrap();
    m.encode('A');
    assert_eq!(m.window_letters(), ('B', 'F', 'V'));
    m.encode('A');
    assert_eq!(m.window_letters(), ('B', 'G', 'W'));
    m.encode('A');
    assert_eq!(m.window_letters(), ('B', 'G', 'X'));
}

#[test]
fn double_step_from_adu() {
    let c = config([rotor(1, 0, 'A'), rotor(2, 0, 'D'), rotor(3, 0, 'U')], vec![]);
    let mut m = EnigmaMachine::new(c).ok().unwrap();
    let mut windows = vec![];
    for _ in 0..3 {
        m.encode('A');
        windows.push(m.window_letters());
    }
    assert_eq!(windows, vec![('A', 'D', 'V'), ('A', 'E', 'W'), ('B', 'F', 'X')]);
}

#[test]
fn same_config_same_ciphertext() {
    let make = || {
        config([rotor(2, 4, 'R'), rotor(5, 11, 'B'), rotor(3, 20, 'Y')], vec![['Q', 'W'], ['E', 'R'], ['T', 'Y']])
    };
    let mut first = EnigmaMachine::new(make()).ok().unwrap();
    let mut second = EnigmaMachine::new(make()).ok().unwrap();
    let text = "THEQUICKBROWNFOXJUMPSOVERTHELAZYDOG";
    assert_eq!(run(&mut first, text), run(&mut second, text));
}

#[test]
fn reset_machine_deciphers_message() {
    let make = || {
        config([rotor(6, 3, 'M'), rotor(7, 0, 'Z'), rotor(8, 25, 'L')], vec![['A', 'P'], ['B', 'Z'], ['H', 'N']])
    };
    let text = "ATTACKATDAWNWITHALLAVAILABLEFORCES";
    let mut machine = EnigmaMachine::new(make()).ok().unwrap();
    let cipher = run(&mut machine, text);
    assert_ne!(cipher, text);
    let mut reset = EnigmaMachine::new(make()).ok().unwrap();
    assert_eq!(run(&mut reset, &cipher), text);
    assert_ne!(run(&mut machine, &cipher), text);
}

#[test]
fn text_encoding_passes_other_characters_through() {
    let mut m = EnigmaMachine::new(standard_config()).ok().unwrap();
    let text: Vec<char> = "aa, A-aa!\n".chars().collect();
    let out: String = encode_text(&mut m, &text).into_iter().collect();
    assert_eq!(out, "BD, Z-GO!\n");
    assert_eq!(m.window_letters(), ('A', 'A', 'F'));
}

#[test]
fn text_encoding_of_empty_text() {
    let mut m = EnigmaMachine::new(standard_config()).ok().unwrap();
    let out = encode_text(&mut m, &vec![]);
    assert!(out.is_empty());
    assert_eq!(m.window_letters(), ('A', 'A', 'A'));
}
