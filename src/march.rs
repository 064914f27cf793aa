//! Sphere tracing: the bounded walk along a ray that stops at the first
//! position found inside the surface.
//!
//! The walk is generic over the position type. A probe closure evaluates the
//! distance field at a position and either reports that the position lies
//! inside the surface or names the next position along the ray; the loop here
//! owns the step budget and the stopping rule.
use vstd::prelude::*;

verus! {

/// The number of probes a ray gets before it is given up as a miss.
pub const MAX_STEPS: u32 = 128;

/// What a probe of the distance field reports about one position.
pub enum Probe<P> {
    /// The position lies inside the surface: the ray hits there.
    Inside,
    /// The position lies outside; the walk goes on from the given position.
    Advance(P),
}

/// `path` starts at `origin`, and the probe sends each of its positions but the
/// last on to the next one.
pub open spec fn is_walk<P, F: Fn(P) -> Probe<P>>(probe: F, origin: P, path: Seq<P>) -> bool {
    &&& path.len() >= 1
    &&& path[0] == origin
    &&& forall|t: int|
        #![trigger path[t]]
        0 < t < path.len() ==> probe.ensures((path[t - 1],), Probe::Advance(path[t]))
}

/// The probe answers each position in one way only.
pub open spec fn is_function<P, F: Fn(P) -> Probe<P>>(probe: F) -> bool {
    forall|p: P, a: Probe<P>, b: Probe<P>|
        #![trigger probe.ensures((p,), a), probe.ensures((p,), b)]
        probe.ensures((p,), a) && probe.ensures((p,), b) ==> a == b
}

/// `r` is an outcome of walking from `origin` with at most `max_steps` probes:
/// a hit at a position that the probe reports inside, reached by advancing
/// through fewer than `max_steps` earlier positions; or a miss after
/// `max_steps` probes that each said to advance.
pub open spec fn march_outcome<P, F: Fn(P) -> Probe<P>>(
    probe: F,
    origin: P,
    max_steps: nat,
    r: Option<P>,
) -> bool {
    match r {
        Some(hit) => exists|path: Seq<P>|
            #[trigger] is_walk(probe, origin, path) && path.len() <= max_steps && path.last()
                == hit && probe.ensures((hit,), Probe::Inside),
        None => exists|path: Seq<P>|
            #[trigger] is_walk(probe, origin, path) && path.len() == max_steps + 1,
    }
}

/// Walks from `origin` for at most `max_steps` probes. Returns the first
/// position that the probe reports inside, or `None` when every one of the
/// `max_steps` probes said to advance.
pub fn march<P: Copy, F: Fn(P) -> Probe<P>>(origin: P, max_steps: u32, probe: F) -> (r: Option<P>)
    requires
        forall|p: P| probe.requires((p,)),
    ensures
        march_outcome(probe, origin, max_steps as nat, r),
{
    let mut pos = origin;
    let ghost mut path: Seq<P> = seq![origin];
    let mut step: u32 = 0;
    while step < max_steps
        invariant
            forall|p: P| probe.requires((p,)),
            step <= max_steps,
            is_walk(probe, origin, path),
            path.len() == step + 1,
            path.last() == pos,
        decreases max_steps - step,
    {
        match probe(pos) {
            Probe::Inside => {
                return Some(pos);
            },
            Probe::Advance(next) => {
                proof {
                    let old_path = path;
                    path = path.push(next);
                    assert forall|t: int| 0 < t < path.len() implies probe.ensures(
                        (path[t - 1],),
                        Probe::Advance(#[trigger] path[t]),
                    ) by {
                        if t < old_path.len() {
                            assert(old_path[t] == path[t]);
                        }
                    }
                }
                pos = next;
            },
        }
        step = step + 1;
    }
    None
}

/// Two walks from the same origin under a functional probe agree wherever both
/// are defined.
proof fn lemma_walks_agree<P, F: Fn(P) -> Probe<P>>(
    probe: F,
    origin: P,
    a: Seq<P>,
    b: Seq<P>,
    t: int,
)
    requires
        is_function(probe),
        is_walk(probe, origin, a),
        is_walk(probe, origin, b),
        0 <= t < a.len(),
        t < b.len(),
    ensures
        a[t] == b[t],
    decreases t,
{
    if t > 0 {
        lemma_walks_agree(probe, origin, a, b, t - 1);
        assert(probe.ensures((a[t - 1],), Probe::Advance(a[t])));
        assert(probe.ensures((b[t - 1],), Probe::Advance(b[t])));
    }
}

/// The walk adds no choice of its own: under a probe that answers each position
/// in one way only, every outcome of the same walk is the same.
pub proof fn lemma_march_deterministic<P, F: Fn(P) -> Probe<P>>(
    probe: F,
    origin: P,
    max_steps: nat,
    r1: Option<P>,
    r2: Option<P>,
)
    requires
        is_function(probe),
        march_outcome(probe, origin, max_steps, r1),
        march_outcome(probe, origin, max_steps, r2),
    ensures
        r1 == r2,
{
    if r1 is Some {
        lemma_outcome_unique_one_way(probe, origin, max_steps, r1, r2);
    } else if r2 is Some {
        lemma_outcome_unique_one_way(probe, origin, max_steps, r2, r1);
    }
}

/// A hit of one outcome is the hit of every outcome.
proof fn lemma_outcome_unique_one_way<P, F: Fn(P) -> Probe<P>>(
    probe: F,
    origin: P,
    max_steps: nat,
    r1: Option<P>,
    r2: Option<P>,
)
    requires
        is_function(probe),
        march_outcome(probe, origin, max_steps, r1),
        march_outcome(probe, origin, max_steps, r2),
        r1 is Some,
    ensures
        r1 == r2,
{
    let h1 = r1->Some_0;
    let a = choose|path: Seq<P>|
        #[trigger] is_walk(probe, origin, path) && path.len() <= max_steps && path.last() == h1
            && probe.ensures((h1,), Probe::Inside);
    let n = a.len() - 1;
    match r2 {
        Some(h2) => {
            let b = choose|path: Seq<P>|
                #[trigger] is_walk(probe, origin, path) && path.len() <= max_steps && path.last()
                    == h2 && probe.ensures((h2,), Probe::Inside);
            let m = b.len() - 1;
            if n < m {
                lemma_walks_agree(probe, origin, a, b, n);
                assert(probe.ensures((b[n],), Probe::Advance(b[n + 1])));
            } else if m < n {
                lemma_walks_agree(probe, origin, a, b, m);
                assert(probe.ensures((a[m],), Probe::Advance(a[m + 1])));
            } else {
                lemma_walks_agree(probe, origin, a, b, n);
            }
        },
        None => {
            let b = choose|path: Seq<P>|
                #[trigger] is_walk(probe, origin, path) && path.len() == max_steps + 1;
            lemma_walks_agree(probe, origin, a, b, n);
            assert(probe.ensures((b[n],), Probe::Advance(b[n + 1])));
        },
    }
}

/// A walk whose origin the probe can only report inside hits at its origin,
/// given a budget of at least one probe.
pub proof fn lemma_inside_origin_hits<P, F: Fn(P) -> Probe<P>>(
    probe: F,
    origin: P,
    max_steps: nat,
    r: Option<P>,
)
    requires
        forall|a: Probe<P>| #[trigger] probe.ensures((origin,), a) ==> a == Probe::<P>::Inside,
        max_steps >= 1,
        march_outcome(probe, origin, max_steps, r),
    ensures
        r == Some(origin),
{
    match r {
        Some(hit) => {
            let path = choose|path: Seq<P>|
                #[trigger] is_walk(probe, origin, path) && path.len() <= max_steps && path.last()
                    == hit && probe.ensures((hit,), Probe::Inside);
            if path.len() > 1 {
                assert(probe.ensures((path[0],), Probe::Advance(path[1])));
            }
        },
        None => {
            let path = choose|path: Seq<P>|
                #[trigger] is_walk(probe, origin, path) && path.len() == max_steps + 1;
            assert(probe.ensures((path[0],), Probe::Advance(path[1])));
        },
    }
}

} // verus!
