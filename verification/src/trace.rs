//! The integrator's decisions: which object of the scene a ray is taken to
//! have hit, and whether a path bounces once more or ends in the sky.

use vstd::prelude::*;

verus! {

/// The number of bounces after which a path is ended by default.
pub const DEFAULT_MAX_DEPTH: u32 = 50;

/// Whether `i` is the first object, in the scene's order, that reports a hit.
pub open spec fn is_first_hit(hits: Seq<bool>, i: int) -> bool {
    &&& 0 <= i < hits.len()
    &&& hits[i]
    &&& forall|j: int| 0 <= j < i ==> !#[trigger] hits[j]
}

/// Whether no object of the scene reports a hit.
pub open spec fn all_miss(hits: Seq<bool>) -> bool {
    forall|j: int| 0 <= j < hits.len() ==> !#[trigger] hits[j]
}

/// The object that a ray is taken to have hit: the first in the scene's
/// order whose test succeeded, whether or not another one lies nearer.
pub open spec fn first_hit_of(hits: Seq<bool>) -> Option<int> {
    if all_miss(hits) {
        None
    } else {
        Some(choose|i: int| is_first_hit(hits, i))
    }
}

/// Among the objects of a scene at most one is the first that reports a hit,
/// and one is unless all of them miss.
pub proof fn lemma_first_hit_unique(hits: Seq<bool>, i: int, j: int)
    requires
        is_first_hit(hits, i),
        is_first_hit(hits, j),
    ensures
        i == j,
        !all_miss(hits),
{
}

/// Scans the outcomes of the objects' tests in the scene's order and returns
/// the index of the first hit.
pub fn first_hit(hits: &Vec<bool>) -> (found: Option<usize>)
    ensures
        match found {
            Some(i) => first_hit_of(hits@) == Some(i as int) && is_first_hit(hits@, i as int),
            None => first_hit_of(hits@) is None && all_miss(hits@),
        },
{
    let mut i: usize = 0;
    while i < hits.len()
        invariant
            i <= hits.len(),
            forall|j: int| 0 <= j < i ==> !#[trigger] hits@[j],
        decreases hits.len() - i,
    {
        if hits[i] {
            proof {
                let other = choose|k: int| is_first_hit(hits@, k);
                assert(is_first_hit(hits@, i as int));
                lemma_first_hit_unique(hits@, i as int, other);
            }
            return Some(i);
        }
        i += 1;
    }
    None
}

/// What the integrator does next with a path.
#[derive(Clone, Copy, Debug, PartialEq, Eq, Structural)]
pub enum Step {
    /// The ray hit the object with this index: follow the bounce ray.
    Bounce { object: usize },
    /// The path ends: its radiance is the sky's behind the last ray, halved
    /// once for each bounce taken.
    Sky { halvings: u32 },
}

/// A light path under construction: how often it has bounced, and how often
/// it may.
#[derive(Clone, Copy, Debug, PartialEq, Eq, Structural)]
pub struct Path {
    pub bounces: u32,
    pub max_depth: u32,
}

impl Path {
    /// Whether the path has bounced no more often than it may.
    pub open spec fn wf(self) -> bool {
        self.bounces <= self.max_depth
    }

    /// Whether the path may bounce once more.
    pub open spec fn may_bounce(self) -> bool {
        self.bounces < self.max_depth
    }

    /// What is done with the path for the given outcomes of the objects'
    /// tests, and the path afterwards.
    pub open spec fn next(self, hits: Seq<bool>) -> (Step, Path) {
        if self.may_bounce() && first_hit_of(hits) is Some {
            (
                Step::Bounce { object: first_hit_of(hits).unwrap() as usize },
                Path { bounces: (self.bounces + 1) as u32, max_depth: self.max_depth },
            )
        } else {
            (Step::Sky { halvings: self.bounces }, self)
        }
    }

    /// A path that has not bounced yet and may bounce `max_depth` times.
    pub fn start(max_depth: u32) -> (path: Path)
        ensures
            path == (Path { bounces: 0, max_depth }),
            path.wf(),
    {
        Path { bounces: 0, max_depth }
    }

    /// Whether the path has used up its bounces, so that it ends in the sky
    /// whatever the scene holds.
    pub fn exhausted(&self) -> (done: bool)
        ensures
            done == !self.may_bounce(),
    {
        self.bounces >= self.max_depth
    }

    /// Decides the next step from the outcomes of the objects' tests against
    /// the current ray, one per object in the scene's order.
    pub fn step(&mut self, hits: &Vec<bool>) -> (step: Step)
        ensures
            (step, *final(self)) == old(self).next(hits@),
    {
        if self.bounces < self.max_depth {
            match first_hit(hits) {
                Some(object) => {
                    self.bounces = self.bounces + 1;
                    Step::Bounce { object }
                },
                None => Step::Sky { halvings: self.bounces },
            }
        } else {
            Step::Sky { halvings: self.bounces }
        }
    }
}

/// A path that misses every object ends in the sky at once, with the
/// halvings of the bounces it has taken, and is left as it was.
pub proof fn lemma_miss_is_sky(path: Path, hits: Seq<bool>)
    requires
        all_miss(hits),
    ensures
        path.next(hits) == (Step::Sky { halvings: path.bounces }, path),
{
}

/// A path bounces only off the first object that reports a hit, each bounce
/// uses up one of those it may take, and no step takes it past its limit.
pub proof fn lemma_step_bounded(path: Path, hits: Seq<bool>)
    requires
        path.wf(),
        hits.len() <= usize::MAX,
    ensures
        path.next(hits).1.wf(),
        path.next(hits).1.max_depth == path.max_depth,
        match path.next(hits).0 {
            Step::Bounce { object } => {
                &&& is_first_hit(hits, object as int)
                &&& path.next(hits).1.bounces == path.bounces + 1
            },
            Step::Sky { halvings } => {
                &&& halvings == path.bounces
                &&& halvings <= path.max_depth
                &&& path.next(hits).1 == path
            },
        },
{
    if !all_miss(hits) {
        lemma_first_hit_exists(hits);
    }
}

/// Unless every object misses, one of them is the first that reports a hit.
pub proof fn lemma_first_hit_exists(hits: Seq<bool>)
    requires
        !all_miss(hits),
    ensures
        first_hit_of(hits) is Some,
        is_first_hit(hits, first_hit_of(hits).unwrap()),
{
    let j = choose|j: int| 0 <= j < hits.len() && hits[j];
    lemma_first_hit_below(hits, j);
}

/// Below any object that reports a hit, or at it, stands the first that does.
proof fn lemma_first_hit_below(hits: Seq<bool>, j: int)
    requires
        0 <= j < hits.len(),
        hits[j],
    ensures
        exists|i: int| is_first_hit(hits, i),
    decreases j,
{
    if forall|k: int| 0 <= k < j ==> !#[trigger] hits[k] {
        assert(is_first_hit(hits, j));
    } else {
        let k = choose|k: int| 0 <= k < j && hits[k];
        lemma_first_hit_below(hits, k);
    }
}

} // verus!
