use vstd::prelude::*;

verus! {

/// Largest number of entries that one run samples.
pub const SAMPLE_LIMIT: usize = 100;

/// `picks` names distinct slots below `n`.
pub open spec fn valid_picks(picks: Seq<usize>, n: nat) -> bool {
    &&& picks.no_duplicates()
    &&& forall|i: int| 0 <= i < picks.len() ==> picks[i] < n
}

/// `chosen` holds, in order, the ids found at the slots `picks` of `ids`.
pub open spec fn is_selection(chosen: Seq<String>, ids: Seq<String>, picks: Seq<usize>) -> bool {
    &&& chosen.len() == picks.len()
    &&& forall|i: int| 0 <= i < picks.len() ==> #[trigger] chosen[i] == ids[picks[i] as int]
}

/// The size of the sample drawn from `n` candidates.
pub open spec fn sample_size(n: nat) -> nat {
    if n < SAMPLE_LIMIT {
        n
    } else {
        SAMPLE_LIMIT as nat
    }
}

/// Ids drawn at distinct slots form a sub-multiset of the candidates: an id
/// occurs in the selection at most as often as among the candidates.
pub proof fn lemma_selection_within_candidates(
    chosen: Seq<String>,
    ids: Seq<String>,
    picks: Seq<usize>,
)
    requires
        valid_picks(picks, ids.len()),
        is_selection(chosen, ids, picks),
    ensures
        chosen.to_multiset().subset_of(ids.to_multiset()),
    decreases picks.len(),
{
    broadcast use vstd::seq_lib::group_to_multiset_ensures, vstd::multiset::group_multiset_axioms;

    if picks.len() == 0 {
        assert(chosen =~= Seq::<String>::empty());
    } else {
        let last = picks.len() - 1;
        let p = picks[last] as int;
        let x = chosen[last];
        let rest = ids.remove(p);
        let earlier = chosen.drop_last();
        let shifted = picks.drop_last().map_values(
            |q: usize|
                if q as int > p {
                    (q - 1) as usize
                } else {
                    q
                },
        );
        assert forall|i: int| 0 <= i < shifted.len() implies shifted[i] < rest.len() by {
            assert(picks[i] != picks[last]);
        }
        assert forall|i: int, j: int|
            0 <= i < shifted.len() && 0 <= j < shifted.len() && i != j implies shifted[i]
            != shifted[j] by {
            assert(picks[i] != picks[j]);
            assert(picks[i] != picks[last]);
            assert(picks[j] != picks[last]);
        }
        assert forall|i: int| 0 <= i < shifted.len() implies #[trigger] earlier[i]
            == rest[shifted[i] as int] by {
            assert(picks[i] != picks[last]);
            assert(chosen[i] == ids[picks[i] as int]);
        }
        lemma_selection_within_candidates(earlier, rest, shifted);
        assert(chosen =~= earlier.push(x));
        assert(x == ids[p]);
        assert(ids.to_multiset().count(x) > 0);
        assert(chosen.to_multiset() =~= earlier.to_multiset().insert(x));
        assert(rest.to_multiset() == ids.to_multiset().remove(x));
    }
}

/// Relies on rand::seq::index::sample with the thread-local generator: exactly
/// `amount` distinct indices below `length`, in random order; it panics when
/// `amount > length`. Nothing is assumed of which indices come out.
#[verifier::external_body]
fn draw_distinct_indices(length: usize, amount: usize) -> (picks: Vec<usize>)
    requires
        amount <= length,
    ensures
        picks@.len() == amount,
        valid_picks(picks@, length as nat),
{
    rand::seq::index::sample(&mut rand::thread_rng(), length, amount).into_vec()
}

/// The ids at the slots `picks` of `ids`, in the order of `picks`.
pub fn pick_by_indices(ids: &Vec<String>, picks: &Vec<usize>) -> (chosen: Vec<String>)
    requires
        forall|i: int| 0 <= i < picks@.len() ==> picks@[i] < ids@.len(),
    ensures
        is_selection(chosen@, ids@, picks@),
{
    let mut chosen: Vec<String> = Vec::new();
    let mut k: usize = 0;
    while k < picks.len()
        invariant
            k <= picks@.len(),
            forall|i: int| 0 <= i < picks@.len() ==> picks@[i] < ids@.len(),
            chosen@.len() == k,
            forall|i: int| 0 <= i < k ==> #[trigger] chosen@[i] == ids@[picks@[i] as int],
        decreases picks@.len() - k,
    {
        chosen.push(ids[picks[k]].clone());
        k = k + 1;
    }
    chosen
}

/// A uniform sample without replacement of `min(SAMPLE_LIMIT, ids.len())`
/// slots of `ids`. Equal ids at different slots are distinct candidates, so an
/// id that occurs often is more likely to be drawn.
pub fn sample_entry_ids(ids: &Vec<String>) -> (chosen: Vec<String>)
    ensures
        chosen@.len() == sample_size(ids@.len()),
        chosen@.to_multiset().subset_of(ids@.to_multiset()),
        exists|picks: Seq<usize>|
            valid_picks(picks, ids@.len()) && #[trigger] is_selection(chosen@, ids@, picks),
{
    let amount: usize = if ids.len() < SAMPLE_LIMIT {
        ids.len()
    } else {
        SAMPLE_LIMIT
    };
    let picks = draw_distinct_indices(ids.len(), amount);
    let chosen = pick_by_indices(ids, &picks);
    assert(is_selection(chosen@, ids@, picks@));
    proof {
        lemma_selection_within_candidates(chosen@, ids@, picks@);
    }
    chosen
}

} // verus!
