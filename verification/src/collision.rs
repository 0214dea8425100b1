//! Sides of a rectangle and the choice of the earliest contact among
//! candidates.
//!
//! A time of impact is carried as an integer key: a larger key is a later
//! time, equal keys are equal times. For a positive IEEE-754 fraction the
//! bit pattern is such a key.

use vstd::prelude::*;

verus! {

/// One face of an axis-aligned rectangle.
#[derive(Clone, Copy, Debug, PartialEq, Eq, Structural)]
pub enum RectangleSide {
    North,
    East,
    South,
    West,
}

impl RectangleSide {
    /// The unit vector that points away from the rectangle through this side.
    pub open spec fn spec_normal(self) -> (int, int) {
        match self {
            RectangleSide::North => (0, 1),
            RectangleSide::East => (1, 0),
            RectangleSide::South => (0, -1),
            RectangleSide::West => (-1, 0),
        }
    }

    /// The outward normal of the side: a ball that strikes the side leaves
    /// with the matching velocity component pointing this way.
    pub fn normal(self) -> (n: (i32, i32))
        ensures
            n.0 == self.spec_normal().0,
            n.1 == self.spec_normal().1,
    {
        match self {
            RectangleSide::North => (0, 1),
            RectangleSide::East => (1, 0),
            RectangleSide::South => (0, -1),
            RectangleSide::West => (-1, 0),
        }
    }

    /// The sides in the order in which a rectangle's edges are probed.
    pub open spec fn probe_order() -> Seq<RectangleSide> {
        seq![
            RectangleSide::North,
            RectangleSide::South,
            RectangleSide::East,
            RectangleSide::West,
        ]
    }

    /// The side probed at position `k` (0 to 3).
    pub fn probed(k: usize) -> (side: RectangleSide)
        requires
            k < 4,
        ensures
            side == Self::probe_order()[k as int],
    {
        if k == 0 {
            RectangleSide::North
        } else if k == 1 {
            RectangleSide::South
        } else if k == 2 {
            RectangleSide::East
        } else {
            RectangleSide::West
        }
    }
}

/// A contact found along a ball's path: when, and on which side of the
/// rectangle that was struck.
#[derive(Clone, Copy, Debug, PartialEq, Eq, Structural)]
pub struct Hit {
    /// The order key of the time of impact.
    pub time: u32,
    /// The side that was struck.
    pub side: RectangleSide,
}

/// No candidate holds a contact.
pub open spec fn all_miss(hits: Seq<Option<Hit>>) -> bool {
    forall|j: int| 0 <= j < hits.len() ==> hits[j] is None
}

/// Candidate `i` holds the earliest contact, and is the first to hold it:
/// no candidate is earlier, and every candidate before it is later.
pub open spec fn is_earliest(hits: Seq<Option<Hit>>, i: int) -> bool {
    &&& 0 <= i < hits.len()
    &&& hits[i] is Some
    &&& forall|j: int|
        0 <= j < hits.len() && hits[j] is Some ==> hits[i]->0.time <= (#[trigger] hits[j])->0.time
    &&& forall|j: int|
        0 <= j < i && hits[j] is Some ==> hits[i]->0.time < (#[trigger] hits[j])->0.time
}

/// The position of the earliest contact, where there is one.
pub open spec fn earliest_index(hits: Seq<Option<Hit>>) -> Option<int> {
    if all_miss(hits) {
        None
    } else {
        Some(choose|i: int| is_earliest(hits, i))
    }
}

/// At most one candidate is the earliest.
pub proof fn lemma_earliest_unique(hits: Seq<Option<Hit>>, i: int, k: int)
    requires
        is_earliest(hits, i),
        is_earliest(hits, k),
    ensures
        i == k,
{
    if i < k {
    } else if k < i {
    }
}

/// Where there is a contact at all, `earliest_index` is the position of the
/// earliest.
pub proof fn lemma_earliest_exists(hits: Seq<Option<Hit>>)
    requires
        !all_miss(hits),
    ensures
        earliest_index(hits) matches Some(i) && is_earliest(hits, i),
    decreases hits.len(),
{
    let j = choose|j: int| 0 <= j < hits.len() && hits[j] is Some;
    let init = hits.drop_last();
    let last = hits.len() - 1;
    if all_miss(init) {
        assert forall|k: int| 0 <= k < last implies hits[k] is None by {
            assert(init[k] == hits[k]);
        }
        assert(is_earliest(hits, last));
    } else {
        lemma_earliest_exists(init);
        let p = choose|p: int| is_earliest(init, p);
        lemma_earliest_extends(init, p, hits[last]);
        assert(init.push(hits[last]) =~= hits);
    }
}

/// Appending a candidate moves the earliest contact to it exactly when it
/// holds a strictly earlier contact.
pub proof fn lemma_earliest_extends(hits: Seq<Option<Hit>>, best: int, next: Option<Hit>)
    requires
        is_earliest(hits, best),
    ensures
        next matches Some(h) && h.time < hits[best]->0.time ==> is_earliest(
            hits.push(next),
            hits.len() as int,
        ),
        !(next matches Some(h) && h.time < hits[best]->0.time) ==> is_earliest(
            hits.push(next),
            best,
        ),
{
    let more = hits.push(next);
    assert forall|j: int| 0 <= j < hits.len() implies more[j] == hits[j] by {}
}

/// The index of the earliest contact among the candidates; of several equal
/// earliest contacts, the first.
pub fn earliest(hits: &[Option<Hit>]) -> (r: Option<usize>)
    ensures
        r is None <==> all_miss(hits@),
        r matches Some(i) ==> is_earliest(hits@, i as int) && earliest_index(hits@) == Some(
            i as int,
        ),
{
    let mut best: Option<usize> = None;
    let mut best_time: u32 = 0;
    let mut k: usize = 0;
    while k < hits.len()
        invariant
            k <= hits@.len(),
            best is None <==> all_miss(hits@.take(k as int)),
            best matches Some(b) ==> is_earliest(hits@.take(k as int), b as int) && best_time
                == hits@[b as int]->0.time,
        decreases hits@.len() - k,
    {
        let ghost seen = hits@.take(k as int);
        match hits[k] {
            None => {
                proof {
                    if let Some(b) = best {
                        lemma_earliest_extends(seen, b as int, None);
                    }
                }
            },
            Some(h) => {
                match best {
                    None => {
                        best = Some(k);
                        best_time = h.time;
                    },
                    Some(b) => {
                        proof {
                            lemma_earliest_extends(seen, b as int, Some(h));
                        }
                        if h.time < best_time {
                            best = Some(k);
                            best_time = h.time;
                        }
                    },
                }
            },
        }
        k = k + 1;
    }
    assert(hits@.take(k as int) =~= hits@);
    proof {
        if let Some(b) = best {
            lemma_earliest_unique(hits@, b as int, choose|i: int| is_earliest(hits@, i));
        }
    }
    best
}

/// The earliest of the contacts found on the four sides of one rectangle,
/// the sides taken in probe order; of several equal earliest contacts, the
/// one on the side probed first.
pub fn pick_side(
    north: Option<u32>,
    south: Option<u32>,
    east: Option<u32>,
    west: Option<u32>,
) -> (r: Option<Hit>)
    ensures
        r == spec_pick_side(north, south, east, west),
{
    let hits = [
        on_side(north, RectangleSide::North),
        on_side(south, RectangleSide::South),
        on_side(east, RectangleSide::East),
        on_side(west, RectangleSide::West),
    ];
    match earliest(hits.as_slice()) {
        None => None,
        Some(i) => Some(hits[i].unwrap()),
    }
}

/// The contact, if any, that a time found on `side` stands for.
pub open spec fn spec_on_side(time: Option<u32>, side: RectangleSide) -> Option<Hit> {
    match time {
        None => None,
        Some(t) => Some(Hit { time: t, side }),
    }
}

/// The earliest of the four candidates of one rectangle.
pub open spec fn spec_pick_side(
    north: Option<u32>,
    south: Option<u32>,
    east: Option<u32>,
    west: Option<u32>,
) -> Option<Hit> {
    let hits = side_hits(north, south, east, west);
    match earliest_index(hits) {
        None => None,
        Some(i) => hits[i],
    }
}

/// The four candidates of one rectangle, in probe order.
pub open spec fn side_hits(
    north: Option<u32>,
    south: Option<u32>,
    east: Option<u32>,
    west: Option<u32>,
) -> Seq<Option<Hit>> {
    seq![
        spec_on_side(north, RectangleSide::North),
        spec_on_side(south, RectangleSide::South),
        spec_on_side(east, RectangleSide::East),
        spec_on_side(west, RectangleSide::West),
    ]
}

fn on_side(time: Option<u32>, side: RectangleSide) -> (r: Option<Hit>)
    ensures
        r == spec_on_side(time, side),
{
    match time {
        None => None,
        Some(t) => Some(Hit { time: t, side }),
    }
}

} // verus!
