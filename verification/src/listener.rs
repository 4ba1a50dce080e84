//! The choice of a listener's filter chain for a connection: criterion by
//! criterion (destination port, destination IP, server name, source IP,
//! source port), only the chains that match best stay; exactly one chain
//! may be left.

use vstd::prelude::*;

verus! {

/// The number of criteria a connection is matched by.
pub const CRITERIA: usize = 5;

/// A failed match of a criterion; better matches rank higher.
pub const FAILED_MATCH: u32 = 0;

/// Why no filter chain can be chosen.
#[derive(Debug, Clone, Copy, PartialEq, Eq, Structural)]
pub enum FilterChainError {
    /// More than one filter chain matches the connection.
    MultipleMatches,
}

/// The best rank of criterion `c` among the chains still possible (a
/// failed match when none is).
pub open spec fn best_rank(ranks: Seq<Seq<u32>>, possible: Seq<bool>, c: int, n: int) -> u32
    decreases n,
{
    if n <= 0 {
        FAILED_MATCH
    } else {
        let b = best_rank(ranks, possible, c, n - 1);
        if possible[n - 1] && ranks[n - 1][c] > b {
            ranks[n - 1][c]
        } else {
            b
        }
    }
}

/// Which chains are still possible after the first `c` criteria: for each
/// criterion, a chain stays when its rank is the best of the chains still
/// possible and is not a failed match.
pub open spec fn possible_after(ranks: Seq<Seq<u32>>, c: int) -> Seq<bool>
    decreases c,
{
    if c <= 0 {
        Seq::new(ranks.len(), |i: int| true)
    } else {
        let p = possible_after(ranks, c - 1);
        let best = best_rank(ranks, p, c - 1, ranks.len() as int);
        Seq::new(ranks.len(), |i: int| p[i] && ranks[i][c - 1] == best && ranks[i][c - 1] != FAILED_MATCH)
    }
}

/// How many chains are possible among the first `n`.
pub open spec fn count_possible(p: Seq<bool>, n: int) -> nat
    decreases n,
{
    if n <= 0 {
        0
    } else {
        count_possible(p, n - 1) + if p[n - 1] {
            1nat
        } else {
            0nat
        }
    }
}

/// Keeps the chains whose rank of criterion `c` is the best among those
/// still possible. The ranks are the chains' recorded match results for
/// the criterion: a chain that is no longer possible never comes back, and
/// a failed match never stays.
fn match_subitem(ranks: &Vec<Vec<u32>>, c: usize, possible: &mut Vec<bool>)
    requires
        c < CRITERIA,
        old(possible)@.len() == ranks@.len(),
        forall|i: int| 0 <= i < ranks@.len() ==> (#[trigger] ranks@[i])@.len() == CRITERIA,
    ensures
        final(possible)@ == Seq::new(
            ranks@.len(),
            |i: int| {
                let rv = ranks@.map_values(|r: Vec<u32>| r@);
                old(possible)@[i] && rv[i][c as int] == best_rank(rv, old(possible)@, c as int, rv.len() as int)
                    && rv[i][c as int] != FAILED_MATCH
            },
        ),
{
    let ghost rv = ranks@.map_values(|r: Vec<u32>| r@);
    let ghost p0 = possible@;
    let mut best: u32 = FAILED_MATCH;
    let mut i: usize = 0;
    while i < ranks.len()
        invariant
            i <= ranks@.len(),
            possible@ == p0,
            p0.len() == ranks@.len(),
            c < CRITERIA,
            rv == ranks@.map_values(|r: Vec<u32>| r@),
            forall|k: int| 0 <= k < ranks@.len() ==> (#[trigger] ranks@[k])@.len() == CRITERIA,
            best == best_rank(rv, p0, c as int, i as int),
        decreases ranks@.len() - i,
    {
        assert(rv[i as int] == ranks@[i as int]@);
        if possible[i] && ranks[i][c] > best {
            best = ranks[i][c];
        }
        i += 1;
    }
    let mut j: usize = 0;
    while j < possible.len()
        invariant
            j <= possible@.len(),
            possible@.len() == p0.len(),
            p0.len() == ranks@.len(),
            c < CRITERIA,
            rv == ranks@.map_values(|r: Vec<u32>| r@),
            forall|k: int| 0 <= k < ranks@.len() ==> (#[trigger] ranks@[k])@.len() == CRITERIA,
            best == best_rank(rv, p0, c as int, rv.len() as int),
            forall|k: int| 0 <= k < j ==> #[trigger] possible@[k] == (p0[k] && rv[k][c as int] == best && rv[k][c as int] != FAILED_MATCH),
            forall|k: int| j <= k < possible@.len() ==> #[trigger] possible@[k] == p0[k],
        decreases possible@.len() - j,
    {
        assert(rv[j as int] == ranks@[j as int]@);
        assert(possible@[j as int] == p0[j as int]);
        let ghost before = possible@;
        let rank = ranks[j][c];
        assert(rank == rv[j as int][c as int]);
        let keep = possible[j] && rank == best && rank != FAILED_MATCH;
        possible.set(j, keep);
        assert(possible@ == before.update(j as int, keep));
        j += 1;
    }
    assert(possible@ =~= Seq::new(
        ranks@.len(),
        |i: int| p0[i] && rv[i][c as int] == best_rank(rv, p0, c as int, rv.len() as int) && rv[i][c as int] != FAILED_MATCH,
    ));
}

/// The filter chain for a connection, given each chain's ranks for the
/// five criteria: the only chain left possible, none when no chain is,
/// and an error when several are.
pub fn select_filterchain(ranks: &Vec<Vec<u32>>) -> (r: Result<Option<usize>, FilterChainError>)
    requires
        forall|i: int| 0 <= i < ranks@.len() ==> (#[trigger] ranks@[i])@.len() == CRITERIA,
    ensures
        ({
            let p = possible_after(ranks@.map_values(|r: Vec<u32>| r@), CRITERIA as int);
            match r {
                Ok(Some(i)) => i < ranks@.len() && p[i as int] && count_possible(p, ranks@.len() as int) == 1,
                Ok(None) => count_possible(p, ranks@.len() as int) == 0,
                Err(_) => count_possible(p, ranks@.len() as int) >= 2,
            }
        }),
{
    let ghost rv = ranks@.map_values(|r: Vec<u32>| r@);
    let mut possible: Vec<bool> = Vec::new();
    let mut i: usize = 0;
    while i < ranks.len()
        invariant
            i <= ranks@.len(),
            possible@ == Seq::new(i as nat, |k: int| true),
        decreases ranks@.len() - i,
    {
        possible.push(true);
        assert(possible@ =~= Seq::new((i + 1) as nat, |k: int| true));
        i += 1;
    }
    assert(possible@ =~= possible_after(rv, 0));
    let mut c: usize = 0;
    while c < CRITERIA
        invariant
            c <= CRITERIA,
            rv == ranks@.map_values(|r: Vec<u32>| r@),
            rv.len() == ranks@.len(),
            forall|k: int| 0 <= k < ranks@.len() ==> (#[trigger] ranks@[k])@.len() == CRITERIA,
            possible@ == possible_after(rv, c as int),
            possible@.len() == ranks@.len(),
        decreases CRITERIA - c,
    {
        match_subitem(ranks, c, &mut possible);
        assert(possible@ =~= possible_after(rv, c + 1));
        c += 1;
    }
    let ghost p = possible@;
    let mut first: Option<usize> = None;
    let mut k: usize = 0;
    while k < possible.len()
        invariant
            k <= possible@.len(),
            p == possible@,
            p.len() == ranks@.len(),
            rv == ranks@.map_values(|r: Vec<u32>| r@),
            p == possible_after(rv, CRITERIA as int),
            match first {
                Some(f) => f < k && p[f as int] && count_possible(p, k as int) == 1,
                None => count_possible(p, k as int) == 0,
            },
        decreases possible@.len() - k,
    {
        if possible[k] {
            if first.is_some() {
                proof {
                    assert(count_possible(p, k as int + 1) == 2);
                    lemma_count_grows(p, k as int + 1, p.len() as int);
                }
                return Err(FilterChainError::MultipleMatches);
            }
            first = Some(k);
        }
        k += 1;
    }
    Ok(first)
}

proof fn lemma_count_grows(p: Seq<bool>, a: int, b: int)
    requires
        0 <= a <= b,
    ensures
        count_possible(p, b) >= count_possible(p, a),
    decreases b - a,
{
    if a < b {
        lemma_count_grows(p, a, b - 1);
    }
}


/// The filter chains that a route update concerns: those whose HTTP
/// connection manager takes its routes dynamically under the updated id.
/// Each chain is given by the id of its dynamic route, if it has one.
pub open spec fn targets_of(route_ids: Seq<Option<String>>, id: Seq<char>) -> Seq<usize>
    decreases route_ids.len(),
{
    if route_ids.len() == 0 {
        Seq::empty()
    } else {
        let rest = targets_of(route_ids.drop_last(), id);
        match route_ids.last() {
            Some(r) => if r@ == id {
                rest.push((route_ids.len() - 1) as usize)
            } else {
                rest
            },
            None => rest,
        }
    }
}

/// The positions of the filter chains whose routes a route update (an
/// addition or a removal under `id`) replaces, in order.
pub fn route_update_targets(route_ids: &Vec<Option<String>>, id: &str) -> (r: Vec<usize>)
    ensures
        r@ == targets_of(route_ids@, id@),
{
    let key = id.to_owned();
    let mut out: Vec<usize> = Vec::new();
    let mut i: usize = 0;
    while i < route_ids.len()
        invariant
            i <= route_ids@.len(),
            key@ == id@,
            out@ == targets_of(route_ids@.subrange(0, i as int), id@),
        decreases route_ids@.len() - i,
    {
        assert(route_ids@.subrange(0, i + 1).drop_last() =~= route_ids@.subrange(0, i as int));
        match &route_ids[i] {
            Some(r) => {
                if *r == key {
                    out.push(i);
                }
            },
            None => {},
        }
        i += 1;
    }
    assert(route_ids@.subrange(0, i as int) =~= route_ids@);
    out
}

/// What becomes of an accepted connection.
#[derive(Debug, Clone, Copy, PartialEq, Eq, Structural)]
pub enum ConnectionOutcome {
    /// The chain at this position serves it.
    Serve(usize),
    /// The chain at this position refuses it by its access rules.
    DeniedByRbac(usize),
    /// No chain matches it.
    NoMatch,
    /// Several chains match it: an error.
    Ambiguous,
}

/// What becomes of a connection, given the chain selected for it and
/// whether the chain's access rules let it through.
pub fn connection_outcome(selected: Result<Option<usize>, FilterChainError>, rbac_allows: bool) -> (r: ConnectionOutcome)
    ensures
        r == match selected {
            Err(_) => ConnectionOutcome::Ambiguous,
            Ok(None) => ConnectionOutcome::NoMatch,
            Ok(Some(i)) => if rbac_allows {
                ConnectionOutcome::Serve(i)
            } else {
                ConnectionOutcome::DeniedByRbac(i)
            },
        },
{
    match selected {
        Err(_) => ConnectionOutcome::Ambiguous,
        Ok(None) => ConnectionOutcome::NoMatch,
        Ok(Some(i)) => if rbac_allows {
            ConnectionOutcome::Serve(i)
        } else {
            ConnectionOutcome::DeniedByRbac(i)
        },
    }
}

} // verus!
