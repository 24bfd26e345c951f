use vstd::prelude::*;
use crate::alphabet::{index_of, is_letter, lemma_index_of};
use crate::tables::{reflector, rotor_wiring};

verus! {

/// A wiring: 26 letters, each letter of the alphabet exactly once.
pub open spec fn is_wiring(w: Seq<char>) -> bool {
    &&& w.len() == 26
    &&& forall|i: int| 0 <= i < 26 ==> is_letter(#[trigger] w[i])
    &&& forall|i: int, j: int| 0 <= i < 26 && 0 <= j < 26 && i != j ==> w[i] != w[j]
    &&& forall|k: int| 0 <= k < 26 ==> #[trigger] holds_position(w, k)
}

/// Some entry of the 26 of `w` has alphabet position `k`.
pub open spec fn holds_position(w: Seq<char>, k: int) -> bool {
    exists|i: int| 0 <= i < 26 && #[trigger] index_of(w[i]) == k
}

/// Some letter among the first `n` of `w` has alphabet position `k`.
pub open spec fn occurs_within(w: Seq<char>, k: int, n: nat) -> bool
    decreases n,
{
    if n == 0 {
        false
    } else {
        index_of(w[n - 1]) == k || occurs_within(w, k, (n - 1) as nat)
    }
}

/// The first `n` entries of `w` are letters, no two alike.
pub open spec fn distinct_letters(w: Seq<char>, n: nat) -> bool
    decreases n,
{
    if n == 0 {
        true
    } else {
        is_letter(w[n - 1]) && !occurs_within(w, index_of(w[n - 1]), (n - 1) as nat)
            && distinct_letters(w, (n - 1) as nat)
    }
}

proof fn lemma_occurs_within(w: Seq<char>, k: int, n: nat)
    requires
        n <= w.len(),
    ensures
        occurs_within(w, k, n) <==> exists|i: int| 0 <= i < n && index_of(w[i]) == k,
    decreases n,
{
    if n > 0 {
        lemma_occurs_within(w, k, (n - 1) as nat);
        if occurs_within(w, k, n) && index_of(w[n - 1]) != k {
            let i = choose|i: int| 0 <= i < n - 1 && index_of(w[i]) == k;
            assert(0 <= i < n && index_of(w[i]) == k);
        }
    }
}

proof fn lemma_distinct_letters(w: Seq<char>, n: nat)
    requires
        n <= w.len(),
        distinct_letters(w, n),
    ensures
        forall|i: int| 0 <= i < n ==> is_letter(#[trigger] w[i]),
        forall|i: int, j: int| 0 <= i < n && 0 <= j < n && i != j ==> w[i] != w[j],
    decreases n,
{
    if n > 0 {
        lemma_distinct_letters(w, (n - 1) as nat);
        lemma_occurs_within(w, index_of(w[n - 1]), (n - 1) as nat);
    }
}

/// Distinct letters at 26 places take up every position of the alphabet.
proof fn lemma_distinct_letters_cover(w: Seq<char>)
    requires
        w.len() == 26,
        forall|i: int| 0 <= i < 26 ==> is_letter(#[trigger] w[i]),
        forall|i: int, j: int| 0 <= i < 26 && 0 <= j < 26 && i != j ==> w[i] != w[j],
    ensures
        forall|k: int| 0 <= k < 26 ==> #[trigger] holds_position(w, k),
{
    let ks = Seq::new(26, |i: int| index_of(w[i]));
    assert forall|i: int, j: int| 0 <= i < ks.len() && 0 <= j < ks.len() && i != j implies ks[i]
        != ks[j] by {
        lemma_index_of(w[i]);
        lemma_index_of(w[j]);
    }
    assert(ks.no_duplicates());
    ks.unique_seq_to_set();
    let range = vstd::set_lib::set_int_range(0, 26);
    vstd::set_lib::lemma_int_range(0, 26);
    assert forall|k: int| ks.to_set().contains(k) implies range.contains(k) by {
        let i = choose|i: int| 0 <= i < ks.len() && ks[i] == k;
        lemma_index_of(w[i]);
    }
    vstd::set_lib::lemma_len_subset(ks.to_set(), range);
    vstd::set_lib::lemma_subset_equality(ks.to_set(), range);
    assert forall|k: int| 0 <= k < 26 implies #[trigger] holds_position(w, k) by {
        assert(range.contains(k));
        assert(ks.to_set().contains(k));
        let i = choose|i: int| 0 <= i < ks.len() && ks[i] == k;
        assert(index_of(w[i]) == k);
    }
}

/// The table of rotor `number` holds 26 distinct letters.
#[verifier::spinoff_prover]
proof fn lemma_rotor_table_distinct(number: int)
    requires
        1 <= number <= 8,
    ensures
        distinct_letters(rotor_wiring(number), 26),
{
    if number == 1 {
        assert(distinct_letters(rotor_wiring(1), 26)) by {
            reveal_with_fuel(distinct_letters, 27);
            reveal_with_fuel(occurs_within, 27);
        }
    } else if number == 2 {
        assert(distinct_letters(rotor_wiring(2), 26)) by {
            reveal_with_fuel(distinct_letters, 27);
            reveal_with_fuel(occurs_within, 27);
        }
    } else if number == 3 {
        assert(distinct_letters(rotor_wiring(3), 26)) by {
            reveal_with_fuel(distinct_letters, 27);
            reveal_with_fuel(occurs_within, 27);
        }
    } else if number == 4 {
        assert(distinct_letters(rotor_wiring(4), 26)) by {
            reveal_with_fuel(distinct_letters, 27);
            reveal_with_fuel(occurs_within, 27);
        }
    } else if number == 5 {
        assert(distinct_letters(rotor_wiring(5), 26)) by {
            reveal_with_fuel(distinct_letters, 27);
            reveal_with_fuel(occurs_within, 27);
        }
    } else if number == 6 {
        assert(distinct_letters(rotor_wiring(6), 26)) by {
            reveal_with_fuel(distinct_letters, 27);
            reveal_with_fuel(occurs_within, 27);
        }
    } else if number == 7 {
        assert(distinct_letters(rotor_wiring(7), 26)) by {
            reveal_with_fuel(distinct_letters, 27);
            reveal_with_fuel(occurs_within, 27);
        }
    } else {
        assert(distinct_letters(rotor_wiring(8), 26)) by {
            reveal_with_fuel(distinct_letters, 27);
            reveal_with_fuel(occurs_within, 27);
        }
    }
}

/// Every rotor type is wired as a permutation of the alphabet.
pub proof fn lemma_rotor_wiring(number: int)
    requires
        1 <= number <= 8,
    ensures
        is_wiring(rotor_wiring(number)),
{
    let w = rotor_wiring(number);
    lemma_rotor_table_distinct(number);
    lemma_distinct_letters(w, 26);
    lemma_distinct_letters_cover(w);
}

/// The first `n` positions of `w` are each sent elsewhere, and sent back by a second pass.
pub open spec fn swaps_within(w: Seq<char>, n: nat) -> bool
    decreases n,
{
    if n == 0 {
        true
    } else {
        let k = index_of(w[n - 1]);
        k != n - 1 && 0 <= k < 26 && index_of(w[k]) == n - 1 && swaps_within(w, (n - 1) as nat)
    }
}

proof fn lemma_swaps_within(w: Seq<char>, n: nat)
    requires
        n <= w.len(),
        swaps_within(w, n),
    ensures
        forall|p: int|
            0 <= p < n ==> {
                let k = #[trigger] index_of(w[p]);
                k != p && 0 <= k < 26 && index_of(w[k]) == p
            },
    decreases n,
{
    if n > 0 {
        lemma_swaps_within(w, (n - 1) as nat);
    }
}

/// The reflector is a permutation that pairs each position with another one.
#[verifier::spinoff_prover]
pub proof fn lemma_reflector()
    ensures
        is_wiring(reflector()),
        forall|p: int|
            0 <= p < 26 ==> {
                let k = #[trigger] index_of(reflector()[p]);
                k != p && 0 <= k < 26 && index_of(reflector()[k]) == p
            },
{
    reveal_with_fuel(distinct_letters, 27);
    reveal_with_fuel(occurs_within, 27);
    reveal_with_fuel(swaps_within, 27);
    let w = reflector();
    assert(distinct_letters(w, 26));
    assert(swaps_within(w, 26));
    lemma_distinct_letters(w, 26);
    lemma_distinct_letters_cover(w);
    lemma_swaps_within(w, 26);
}

} // verus!
