use vstd::prelude::*;

verus! {

/// Fixed data of one rotor type: its wiring at ring setting zero, and the letters at which its
/// notches sit ('_' marks an unused notch).
pub struct RotorConstants {
    pub wiring: [char; 26],
    pub notches: [char; 2],
}

/// Wiring of rotor `number` (1 to 8) at ring setting zero.
pub open spec fn rotor_wiring(number: int) -> Seq<char> {
    if number == 1 {
        seq![
            'E', 'K', 'M', 'F', 'L', 'G', 'D', 'Q', 'V', 'Z', 'N', 'T', 'O',
            'W', 'Y', 'H', 'X', 'U', 'S', 'P', 'A', 'I', 'B', 'R', 'C', 'J',
        ]
    } else if number == 2 {
        seq![
            'A', 'J', 'D', 'K', 'S', 'I', 'R', 'U', 'X', 'B', 'L', 'H', 'W',
            'T', 'M', 'C', 'Q', 'G', 'Z', 'N', 'P', 'Y', 'F', 'V', 'O', 'E',
        ]
    } else if number == 3 {
        seq![
            'B', 'D', 'F', 'H', 'J', 'L', 'C', 'P', 'R', 'T', 'X', 'V', 'Z',
            'N', 'Y', 'E', 'I', 'W', 'G', 'A', 'K', 'M', 'U', 'S', 'Q', 'O',
        ]
    } else if number == 4 {
        seq![
            'E', 'S', 'O', 'V', 'P', 'Z', 'J', 'A', 'Y', 'Q', 'U', 'I', 'R',
            'H', 'X', 'L', 'N', 'F', 'T', 'G', 'K', 'D', 'C', 'M', 'W', 'B',
        ]
    } else if number == 5 {
        seq![
            'V', 'Z', 'B', 'R', 'G', 'I', 'T', 'Y', 'U', 'P', 'S', 'D', 'N',
            'H', 'L', 'X', 'A', 'W', 'M', 'J', 'Q', 'O', 'F', 'E', 'C', 'K',
        ]
    } else if number == 6 {
        seq![
            'J', 'P', 'G', 'V', 'O', 'U', 'M', 'F', 'Y', 'Q', 'B', 'E', 'N',
            'H', 'Z', 'R', 'D', 'K', 'A', 'S', 'X', 'L', 'I', 'C', 'T', 'W',
        ]
    } else if number == 7 {
        seq![
            'N', 'Z', 'J', 'H', 'G', 'R', 'C', 'X', 'M', 'Y', 'S', 'W', 'B',
            'O', 'U', 'F', 'A', 'I', 'V', 'L', 'P', 'E', 'K', 'Q', 'D', 'T',
        ]
    } else {
        seq![
            'F', 'K', 'Q', 'H', 'T', 'L', 'X', 'O', 'C', 'B', 'J', 'S', 'P',
            'D', 'Z', 'R', 'A', 'M', 'E', 'W', 'N', 'I', 'U', 'Y', 'G', 'V',
        ]
    }
}

/// Notch letters of rotor `number` (1 to 8).
pub open spec fn rotor_notches(number: int) -> Seq<char> {
    if number == 1 {
        seq!['Q', '_']
    } else if number == 2 {
        seq!['E', '_']
    } else if number == 3 {
        seq!['V', '_']
    } else if number == 4 {
        seq!['J', '_']
    } else if number == 5 {
        seq!['Z', '_']
    } else if number == 6 {
        seq!['M', 'Z']
    } else if number == 7 {
        seq!['M', 'Z']
    } else {
        seq!['M', 'Z']
    }
}

/// Reflector B: an involution of the alphabet without fixed points.
pub open spec fn reflector() -> Seq<char> {
    seq![
        'Y', 'R', 'U', 'H', 'Q', 'S', 'L', 'D', 'P', 'X', 'N', 'G', 'O',
        'K', 'M', 'I', 'E', 'B', 'F', 'Z', 'C', 'W', 'V', 'J', 'A', 'T',
    ]
}

/// The constants of rotor `number`.
pub fn rotor_constants(number: usize) -> (r: RotorConstants)
    requires
        1 <= number <= 8,
    ensures
        r.wiring@ == rotor_wiring(number as int),
        r.notches@ == rotor_notches(number as int),
{
    if number == 1 {
        let r = RotorConstants {
            wiring: [
                'E', 'K', 'M', 'F', 'L', 'G', 'D', 'Q', 'V', 'Z', 'N', 'T', 'O',
                'W', 'Y', 'H', 'X', 'U', 'S', 'P', 'A', 'I', 'B', 'R', 'C', 'J',
            ],
            notches: ['Q', '_'],
        };
        assert(r.wiring@ =~= rotor_wiring(number as int));
        assert(r.notches@ =~= rotor_notches(number as int));
        r
    } else if number == 2 {
        let r = RotorConstants {
            wiring: [
                'A', 'J', 'D', 'K', 'S', 'I', 'R', 'U', 'X', 'B', 'L', 'H', 'W',
                'T', 'M', 'C', 'Q', 'G', 'Z', 'N', 'P', 'Y', 'F', 'V', 'O', 'E',
            ],
            notches: ['E', '_'],
        };
        assert(r.wiring@ =~= rotor_wiring(number as int));
        assert(r.notches@ =~= rotor_notches(number as int));
        r
    } else if number == 3 {
        let r = RotorConstants {
            wiring: [
                'B', 'D', 'F', 'H', 'J', 'L', 'C', 'P', 'R', 'T', 'X', 'V', 'Z',
                'N', 'Y', 'E', 'I', 'W', 'G', 'A', 'K', 'M', 'U', 'S', 'Q', 'O',
            ],
            notches: ['V', '_'],
        };
        assert(r.wiring@ =~= rotor_wiring(number as int));
        assert(r.notches@ =~= rotor_notches(number as int));
        r
    } else if number == 4 {
        let r = RotorConstants {
            wiring: [
                'E', 'S', 'O', 'V', 'P', 'Z', 'J', 'A', 'Y', 'Q', 'U', 'I', 'R',
                'H', 'X', 'L', 'N', 'F', 'T', 'G', 'K', 'D', 'C', 'M', 'W', 'B',
            ],
            notches: ['J', '_'],
        };
        assert(r.wiring@ =~= rotor_wiring(number as int));
        assert(r.notches@ =~= rotor_notches(number as int));
        r
    } else if number == 5 {
        let r = RotorConstants {
            wiring: [
                'V', 'Z', 'B', 'R', 'G', 'I', 'T', 'Y', 'U', 'P', 'S', 'D', 'N',
                'H', 'L', 'X', 'A', 'W', 'M', 'J', 'Q', 'O', 'F', 'E', 'C', 'K',
            ],
            notches: ['Z', '_'],
        };
        assert(r.wiring@ =~= rotor_wiring(number as int));
        assert(r.notches@ =~= rotor_notches(number as int));
        r
    } else if number == 6 {
        let r = RotorConstants {
            wiring: [
                'J', 'P', 'G', 'V', 'O', 'U', 'M', 'F', 'Y', 'Q', 'B', 'E', 'N',
                'H', 'Z', 'R', 'D', 'K', 'A', 'S', 'X', 'L', 'I', 'C', 'T', 'W',
            ],
            notches: ['M', 'Z'],
        };
        assert(r.wiring@ =~= rotor_wiring(number as int));
        assert(r.notches@ =~= rotor_notches(number as int));
        r
    } else if number == 7 {
        let r = RotorConstants {
            wiring: [
                'N', 'Z', 'J', 'H', 'G', 'R', 'C', 'X', 'M', 'Y', 'S', 'W', 'B',
                'O', 'U', 'F', 'A', 'I', 'V', 'L', 'P', 'E', 'K', 'Q', 'D', 'T',
            ],
            notches: ['M', 'Z'],
        };
        assert(r.wiring@ =~= rotor_wiring(number as int));
        assert(r.notches@ =~= rotor_notches(number as int));
        r
    } else {
        let r = RotorConstants {
            wiring: [
                'F', 'K', 'Q', 'H', 'T', 'L', 'X', 'O', 'C', 'B', 'J', 'S', 'P',
                'D', 'Z', 'R', 'A', 'M', 'E', 'W', 'N', 'I', 'U', 'Y', 'G', 'V',
            ],
            notches: ['M', 'Z'],
        };
        assert(r.wiring@ =~= rotor_wiring(number as int));
        assert(r.notches@ =~= rotor_notches(number as int));
        r
    }
}

/// Reflector B, letter by position.
pub fn reflector_b() -> (r: [char; 26])
    ensures
        r@ == reflector(),
{
    let r = [
        'Y', 'R', 'U', 'H', 'Q', 'S', 'L', 'D', 'P', 'X', 'N', 'G', 'O',
        'K', 'M', 'I', 'E', 'B', 'F', 'Z', 'C', 'W', 'V', 'J', 'A', 'T',
    ];
    assert(r@ =~= reflector());
    r
}

} // verus!
