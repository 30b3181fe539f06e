use vstd::prelude::*;
use crate::rng::range_i64;
use rltk::RandomNumberGenerator;

verus! {

/// What a room can hold.
#[derive(Clone, Copy, Debug, PartialEq, Eq, Structural)]
pub enum SpawnKind {
    Android,
    Robot,
    VoltPack,
    Buster,
    Shockwave,
    Overload,
    PowerGlove,
    ShieldPlus,
}

#[derive(Clone, Copy, Debug, PartialEq, Eq, Structural)]
pub struct RandomEntry {
    pub kind: SpawnKind,
    pub weight: i64,
}

/// A weighted choice among spawn kinds.
pub struct RandomTable {
    pub entries: Vec<RandomEntry>,
    pub total_weight: i64,
}

/// The sum of the weights of the first `k` entries.
pub open spec fn cumulative(entries: Seq<RandomEntry>, k: int) -> int
    decreases k,
{
    if k <= 0 {
        0
    } else {
        cumulative(entries, k - 1) + entries[k - 1].weight
    }
}

/// The kind that a draw `r` (from zero up) picks: the first entry whose
/// cumulative weight exceeds `r`, looking from entry `k` on.
pub open spec fn pick_from(entries: Seq<RandomEntry>, r: int, k: int) -> Option<SpawnKind>
    decreases entries.len() - k,
{
    if k < 0 || k >= entries.len() {
        None
    } else if r < cumulative(entries, k + 1) {
        Some(entries[k].kind)
    } else {
        pick_from(entries, r, k + 1)
    }
}

proof fn lemma_cumulative_monotone(entries: Seq<RandomEntry>, a: int, b: int)
    requires
        0 <= a <= b <= entries.len(),
        forall|i: int| 0 <= i < entries.len() ==> (#[trigger] entries[i]).weight > 0,
    ensures
        cumulative(entries, a) <= cumulative(entries, b),
    decreases b - a,
{
    if a < b {
        lemma_cumulative_monotone(entries, a, b - 1);
    }
}

impl RandomTable {
    /// Every weight is positive and the total is their sum.
    pub open spec fn wf(&self) -> bool {
        &&& forall|i: int| 0 <= i < self.entries@.len() ==> (#[trigger] self.entries@[i]).weight > 0
        &&& self.total_weight == cumulative(self.entries@, self.entries@.len() as int)
        &&& self.total_weight < i64::MAX
    }

    pub fn new() -> (t: RandomTable)
        ensures
            t.wf(),
            t.entries@.len() == 0,
            t.total_weight == 0,
    {
        RandomTable { entries: Vec::new(), total_weight: 0 }
    }

    /// The table with `kind` added at `weight`; a weight that is not
    /// positive adds nothing.
    pub fn add(self, kind: SpawnKind, weight: i64) -> (t: RandomTable)
        requires
            self.wf(),
            self.total_weight + weight < i64::MAX,
        ensures
            t.wf(),
            t.total_weight == if weight > 0 {
                self.total_weight + weight
            } else {
                self.total_weight as int
            },
            t.entries@ == if weight > 0 {
                self.entries@.push(RandomEntry { kind, weight })
            } else {
                self.entries@
            },
    {
        if weight > 0 {
            let mut entries = self.entries;
            let ghost before = entries@;
            entries.push(RandomEntry { kind, weight });
            assert(entries@.drop_last() =~= before);
            assert forall|k: int| 0 <= k <= before.len() implies cumulative(entries@, k) == cumulative(
                before,
                k,
            ) by {
                lemma_cumulative_prefix(before, entries@, k);
            }
            RandomTable { entries, total_weight: self.total_weight + weight }
        } else {
            self
        }
    }

    /// The kind that draw `r` picks; see `pick_from`.
    pub fn pick(&self, r: i64) -> (k: Option<SpawnKind>)
        requires
            self.wf(),
        ensures
            k == pick_from(self.entries@, r as int, 0),
    {
        let mut sum: i128 = 0;
        proof {
            lemma_cumulative_monotone(self.entries@, 0, self.entries@.len() as int);
        }
        let mut i: usize = 0;
        while i < self.entries.len()
            invariant
                self.wf(),
                i <= self.entries@.len(),
                sum == cumulative(self.entries@, i as int),
                pick_from(self.entries@, r as int, 0) == pick_from(self.entries@, r as int, i as int),
                sum <= self.total_weight,
            decreases self.entries@.len() - i,
        {
            proof {
                lemma_cumulative_monotone(self.entries@, i + 1, self.entries@.len() as int);
            }
            sum = sum + self.entries[i].weight as i128;
            if (r as i128) < sum {
                return Some(self.entries[i].kind);
            }
            i = i + 1;
        }
        None
    }

    /// A weighted draw: each kind comes with chance its weight over the
    /// total; `None` when the table is empty.
    pub fn roll(&self, rng: &mut RandomNumberGenerator) -> (k: Option<SpawnKind>)
        requires
            self.wf(),
        ensures
            self.entries@.len() == 0 <==> k.is_none(),
            k.is_some() ==> exists|r: int|
                0 <= r < self.total_weight && k == pick_from(self.entries@, r, 0),
            k.is_some() ==> exists|i: int|
                0 <= i < self.entries@.len() && k.unwrap() == (#[trigger] self.entries@[i]).kind,
    {
        if self.total_weight <= 0 {
            proof {
                if self.entries@.len() > 0 {
                    lemma_cumulative_monotone(self.entries@, 1, self.entries@.len() as int);
                    assert(cumulative(self.entries@, 1) == cumulative(self.entries@, 0) + self.entries@[0].weight);
                }
            }
            return None;
        }
        let r = range_i64(rng, 0, self.total_weight);
        let k = self.pick(r);
        proof {
            lemma_pick_found(self.entries@, r as int, 0);
            lemma_pick_is_entry(self.entries@, r as int, 0);
        }
        k
    }
}

proof fn lemma_cumulative_prefix(a: Seq<RandomEntry>, b: Seq<RandomEntry>, k: int)
    requires
        0 <= k <= a.len() <= b.len(),
        forall|i: int| 0 <= i < a.len() ==> a[i] == b[i],
    ensures
        cumulative(a, k) == cumulative(b, k),
    decreases k,
{
    if k > 0 {
        lemma_cumulative_prefix(a, b, k - 1);
    }
}

/// What a draw picks is the kind of one of the entries.
pub proof fn lemma_pick_is_entry(entries: Seq<RandomEntry>, r: int, k: int)
    ensures
        pick_from(entries, r, k).is_some() ==> exists|i: int|
            0 <= i < entries.len() && pick_from(entries, r, k).unwrap() == (#[trigger] entries[i]).kind,
    decreases entries.len() - k,
{
    if 0 <= k < entries.len() && r >= cumulative(entries, k + 1) {
        lemma_pick_is_entry(entries, r, k + 1);
    }
}

/// A draw below the total weight always picks something.
proof fn lemma_pick_found(entries: Seq<RandomEntry>, r: int, k: int)
    requires
        0 <= k <= entries.len(),
        cumulative(entries, k) <= r < cumulative(entries, entries.len() as int),
    ensures
        pick_from(entries, r, k).is_some(),
    decreases entries.len() - k,
{
    if k < entries.len() && r >= cumulative(entries, k + 1) {
        lemma_pick_found(entries, r, k + 1);
    }
}

} // verus!
