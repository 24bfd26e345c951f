use vstd::prelude::*;
use crate::alphabet::is_letter;

verus! {

/// Wires that swap pairs of letters before and after the rotors.
pub struct Plugboard {
    pub wire_pairs: Vec<[char; 2]>,
}

/// The letters of `pairs`, pair by pair, in order.
pub open spec fn pair_letters(pairs: Seq<[char; 2]>) -> Seq<char> {
    Seq::new(2 * pairs.len(), |k: int| pairs[k / 2][k % 2])
}

/// Every character of `pairs` is a letter of the alphabet.
pub open spec fn pairs_of_letters(pairs: Seq<[char; 2]>) -> bool {
    forall|k: int| 0 <= k < pair_letters(pairs).len() ==> is_letter(#[trigger] pair_letters(pairs)[k])
}

/// No letter stands in two places of `pairs`, and all of them are letters of the alphabet.
pub open spec fn pairs_valid(pairs: Seq<[char; 2]>) -> bool {
    &&& pair_letters(pairs).no_duplicates()
    &&& pairs_of_letters(pairs)
}

/// What the plugboard makes of `c`: the other end of the first pair that holds it, or `c` itself
/// when no pair does.
pub open spec fn plug(pairs: Seq<[char; 2]>, c: char) -> char
    decreases pairs.len(),
{
    if pairs.len() == 0 {
        c
    } else if pairs[0][0] == c {
        pairs[0][1]
    } else if pairs[0][1] == c {
        pairs[0][0]
    } else {
        plug(pairs.drop_first(), c)
    }
}

proof fn lemma_pair_letters_rest(pairs: Seq<[char; 2]>)
    requires
        pairs.len() > 0,
    ensures
        pair_letters(pairs.drop_first()) =~= pair_letters(pairs).subrange(2, 2 * pairs.len() as int),
        pair_letters(pairs)[0] == pairs[0][0],
        pair_letters(pairs)[1] == pairs[0][1],
{
    let rest = pairs.drop_first();
    assert forall|k: int| 0 <= k < 2 * rest.len() implies #[trigger] pair_letters(rest)[k]
        == pair_letters(pairs)[k + 2] by {
        assert((k + 2) / 2 == k / 2 + 1);
        assert((k + 2) % 2 == k % 2);
    }
}

/// The plugboard leaves `c` alone, or sends it to one of the letters of `pairs`.
proof fn lemma_plug_lands(pairs: Seq<[char; 2]>, c: char)
    ensures
        plug(pairs, c) == c || pair_letters(pairs).contains(plug(pairs, c)),
    decreases pairs.len(),
{
    if pairs.len() > 0 {
        lemma_pair_letters_rest(pairs);
        lemma_plug_lands(pairs.drop_first(), c);
        let r = plug(pairs, c);
        if pairs[0][0] == c {
            assert(pair_letters(pairs)[1] == r);
        } else if pairs[0][1] == c {
            assert(pair_letters(pairs)[0] == r);
        } else if r != c {
            let rest = pair_letters(pairs.drop_first());
            let k = choose|k: int| 0 <= k < rest.len() && rest[k] == r;
            assert(pair_letters(pairs)[k + 2] == r);
        }
    }
}

/// Through the plugboard twice: for disjoint pairs, every character comes back as itself.
pub proof fn lemma_plug_involution(pairs: Seq<[char; 2]>, c: char)
    requires
        pair_letters(pairs).no_duplicates(),
    ensures
        plug(pairs, plug(pairs, c)) == c,
    decreases pairs.len(),
{
    if pairs.len() > 0 {
        let rest = pairs.drop_first();
        let letters = pair_letters(pairs);
        lemma_pair_letters_rest(pairs);
        assert(letters[0] != letters[1]);
        assert(pair_letters(rest).no_duplicates());
        if pairs[0][0] != c && pairs[0][1] != c {
            let r = plug(rest, c);
            lemma_plug_lands(rest, c);
            if r != c {
                let k = choose|k: int|
                    0 <= k < pair_letters(rest).len() && pair_letters(rest)[k] == r;
                assert(letters[k + 2] == r);
                assert(letters[0] != r);
                assert(letters[1] != r);
            }
            lemma_plug_involution(rest, c);
        }
    }
}

/// With valid pairs, the plugboard sends a letter to a letter.
pub proof fn lemma_plug_letter(pairs: Seq<[char; 2]>, c: char)
    requires
        pairs_valid(pairs),
        is_letter(c),
    ensures
        is_letter(plug(pairs, c)),
{
    lemma_plug_lands(pairs, c);
}

impl Plugboard {
    /// Pass a letter through the plugboard
    pub fn encode(&self, input: char) -> (r: char)
        ensures
            r == plug(self.wire_pairs@, input),
    {
        let mut i: usize = 0;
        assert(self.wire_pairs@.subrange(0, self.wire_pairs@.len() as int) =~= self.wire_pairs@);
        while i < self.wire_pairs.len()
            invariant
                i <= self.wire_pairs@.len(),
                plug(self.wire_pairs@, input) == plug(
                    self.wire_pairs@.subrange(i as int, self.wire_pairs@.len() as int),
                    input,
                ),
            decreases self.wire_pairs@.len() - i,
        {
            let pair = self.wire_pairs[i];
            let ghost rest = self.wire_pairs@.subrange(i as int, self.wire_pairs@.len() as int);
            assert(rest.drop_first() =~= self.wire_pairs@.subrange(i + 1, self.wire_pairs@.len() as int));
            if pair[0] == input {
                return pair[1];
            }
            if pair[1] == input {
                return pair[0];
            }
            i = i + 1;
        }
        input
    }
}

} // verus!
