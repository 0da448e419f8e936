//! The sequential Phragmén election of the `sp_npos_elections` crate, as the
//! elections of the councils call it.
use vstd::prelude::*;

verus! {

/// The winners, with their backing stake, that sequential Phragmén elects for
/// `to_elect` seats among `candidates` under `voters` (each an account, a weight
/// and the accounts it backs); `None` when the computation fails.
pub uninterp spec fn phragmen_winners(
    to_elect: usize,
    candidates: Seq<u64>,
    voters: Seq<(u64, u64, Seq<u64>)>,
) -> Option<Seq<(u64, u128)>>;

/// The accounts of election winners.
pub open spec fn win_ids(w: Seq<(u64, u128)>) -> Seq<u64> {
    w.map_values(|p: (u64, u128)| p.0)
}

/// Voter inputs as mathematical values.
pub open spec fn voter_inputs_view(v: Seq<(u64, u64, Vec<u64>)>) -> Seq<(u64, u64, Seq<u64>)> {
    v.map_values(|t: (u64, u64, Vec<u64>)| (t.0, t.1, t.2@))
}

/// `sp_npos_elections::seq_phragmen` with no balancing rounds and `Perbill`
/// ratios, keeping the winners; `None` in place of its error, which the
/// elections only report as failed. Its result is named, not restated. Beside the
/// name, what the source shows: the winners are elected candidates, taken at
/// most `to_elect` times, so each is a candidate and, when the candidates are
/// distinct, so are the winners.
#[verifier::external_body]
pub(crate) fn seq_phragmen(to_elect: usize, candidates: Vec<u64>, voters: Vec<(u64, u64, Vec<u64>)>) -> (r:
    Option<Vec<(u64, u128)>>)
    ensures
        match r {
            Some(w) => phragmen_winners(to_elect, candidates@, voter_inputs_view(voters@)) == Some(
                w@,
            ),
            None => phragmen_winners(to_elect, candidates@, voter_inputs_view(voters@)) is None,
        },
        r is Some ==> r->Some_0@.len() <= to_elect,
        r is Some ==> forall|i: int|
            0 <= i < r->Some_0@.len() ==> #[trigger] candidates@.contains(r->Some_0@[i].0),
        r is Some && candidates@.no_duplicates() ==> win_ids(r->Some_0@).no_duplicates(),
{
    match sp_npos_elections::seq_phragmen::<u64, sp_runtime::Perbill>(
        to_elect,
        candidates,
        voters,
        None,
    ) {
        Ok(result) => Some(result.winners),
        Err(_) => None,
    }
}

} // verus!
