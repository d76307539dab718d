//! The index of a post's liquidation thresholds: an ordered map from a
//! supply to the forced trades that happen when the market reaches it, kept
//! as a vector of levels in increasing order of supply and searched by
//! bisection.

use vstd::prelude::*;

verus! {

/// The forced trade that closes one user's position once the supply of a
/// post reaches that user's liquidation supply.
#[derive(Debug, Clone)]
pub struct LiquidationEntry {
    /// What the forced trade costs along the curve, from the liquidation
    /// supply on.
    pub cost_unwind: i128,
    /// By how much the forced trade moves the supply: the negated size of
    /// the position.
    pub size_unwind: i128,
    pub user_id: String,
}

/// The forced trades recorded at one supply, in the order in which they are
/// carried out.
#[derive(Debug, Clone)]
struct ThresholdLevel {
    supply: i128,
    entries: Vec<LiquidationEntry>,
}

/// The index. As a map it takes each supply that has forced trades to the
/// sequence of them.
#[derive(Debug)]
pub struct ThresholdIndex {
    levels: Vec<ThresholdLevel>,
}

/// `k` is the least of `keys` above `supply`.
pub open spec fn is_first_above(keys: Set<i128>, supply: i128, k: i128) -> bool {
    &&& keys.contains(k)
    &&& k > supply
    &&& forall|j: i128| keys.contains(j) && j > supply ==> k <= j
}

/// `k` is the greatest of `keys` below `supply`.
pub open spec fn is_last_below(keys: Set<i128>, supply: i128, k: i128) -> bool {
    &&& keys.contains(k)
    &&& k < supply
    &&& forall|j: i128| keys.contains(j) && j < supply ==> k >= j
}

/// The index with one more entry under `key`, after those that are there.
pub open spec fn with_entry(
    index: Map<i128, Seq<LiquidationEntry>>,
    key: i128,
    entry: LiquidationEntry,
) -> Map<i128, Seq<LiquidationEntry>> {
    if index.contains_key(key) {
        index.insert(key, index[key].push(entry))
    } else {
        index.insert(key, Seq::empty().push(entry))
    }
}

/// The levels stand in strictly increasing order of supply.
spec fn increasing(levels: Seq<ThresholdLevel>) -> bool {
    forall|i: int, j: int| 0 <= i < j < levels.len() ==> levels[i].supply < levels[j].supply
}

/// The index of the first level at or after `from` that stands at the
/// supply `key`, or the number of levels if there is none.
spec fn level_slot(levels: Seq<ThresholdLevel>, key: i128, from: int) -> int
    decreases levels.len() - from,
{
    if from < 0 || from >= levels.len() {
        levels.len() as int
    } else if levels[from].supply == key {
        from
    } else {
        level_slot(levels, key, from + 1)
    }
}

/// The levels as a map.
spec fn levels_view(levels: Seq<ThresholdLevel>) -> Map<i128, Seq<LiquidationEntry>> {
    Map::new(
        |key: i128| level_slot(levels, key, 0) < levels.len(),
        |key: i128| levels[level_slot(levels, key, 0)].entries@,
    )
}

proof fn lemma_level_slot(levels: Seq<ThresholdLevel>, key: i128, from: int)
    requires
        0 <= from <= levels.len(),
    ensures
        from <= level_slot(levels, key, from) <= levels.len(),
        forall|j: int| from <= j < level_slot(levels, key, from) ==> levels[j].supply != key,
        level_slot(levels, key, from) < levels.len() ==> levels[level_slot(
            levels,
            key,
            from,
        )].supply == key,
    decreases levels.len() - from,
{
    if from < levels.len() && levels[from].supply != key {
        lemma_level_slot(levels, key, from + 1);
    }
}

proof fn lemma_level_slot_is(levels: Seq<ThresholdLevel>, key: i128, from: int, slot: int)
    requires
        0 <= from <= slot <= levels.len(),
        forall|j: int| from <= j < slot ==> levels[j].supply != key,
        slot < levels.len() ==> levels[slot].supply == key,
    ensures
        level_slot(levels, key, from) == slot,
    decreases slot - from,
{
    if from < slot {
        lemma_level_slot_is(levels, key, from + 1, slot);
    }
}

/// In increasing levels, each level is found at its own supply; a supply at
/// which no level stands is not found.
proof fn lemma_levels_found(levels: Seq<ThresholdLevel>)
    requires
        increasing(levels),
    ensures
        forall|i: int|
            0 <= i < levels.len() ==> level_slot(levels, #[trigger] levels[i].supply, 0) == i,
        forall|key: i128|
            (forall|i: int| 0 <= i < levels.len() ==> levels[i].supply != key) ==> #[trigger] level_slot(
                levels,
                key,
                0,
            ) == levels.len(),
{
    assert forall|i: int| 0 <= i < levels.len() implies level_slot(
        levels,
        #[trigger] levels[i].supply,
        0,
    ) == i by {
        lemma_level_slot_is(levels, levels[i].supply, 0, i);
    }
    assert forall|key: i128|
        (forall|i: int| 0 <= i < levels.len() ==> levels[i].supply != key) implies #[trigger] level_slot(
        levels,
        key,
        0,
    ) == levels.len() by {
        lemma_level_slot_is(levels, key, 0, levels.len() as int);
    }
}

/// The first level that stands at `key` or above it.
fn lower_bound(levels: &Vec<ThresholdLevel>, key: i128) -> (at: usize)
    requires
        increasing(levels@),
    ensures
        at <= levels@.len(),
        forall|i: int| 0 <= i < at ==> levels@[i].supply < key,
        forall|i: int| at <= i < levels@.len() ==> levels@[i].supply >= key,
{
    let mut lo: usize = 0;
    let mut hi: usize = levels.len();
    while lo < hi
        invariant
            lo <= hi <= levels@.len(),
            increasing(levels@),
            forall|i: int| 0 <= i < lo ==> levels@[i].supply < key,
            forall|i: int| hi <= i < levels@.len() ==> levels@[i].supply >= key,
        decreases hi - lo,
    {
        let mid: usize = lo + (hi - lo) / 2;
        if levels[mid].supply < key {
            lo = mid + 1;
        } else {
            hi = mid;
        }
    }
    lo
}

/// One more entry at a level that stands: the map has it after the others.
proof fn lemma_entry_appended(
    before: Seq<ThresholdLevel>,
    after: Seq<ThresholdLevel>,
    at: int,
    entry: LiquidationEntry,
)
    requires
        increasing(before),
        0 <= at < before.len(),
        after.len() == before.len(),
        forall|i: int| 0 <= i < before.len() ==> after[i].supply == before[i].supply,
        forall|i: int| 0 <= i < before.len() && i != at ==> after[i].entries@ == before[i].entries@,
        after[at].entries@ == before[at].entries@.push(entry),
    ensures
        increasing(after),
        levels_view(after) == with_entry(levels_view(before), before[at].supply, entry),
{
    let key = before[at].supply;
    let grown = with_entry(levels_view(before), key, entry);
    lemma_levels_found(before);
    assert forall|k: i128| #[trigger]
        levels_view(after).contains_key(k) == grown.contains_key(k) && (grown.contains_key(k)
            ==> levels_view(after)[k] == grown[k]) by {
        lemma_same_supplies(before, after, k, 0);
        lemma_level_slot(before, k, 0);
    }
    assert(levels_view(after) =~= grown);
}

/// A new level between the levels below its supply and those above it: the
/// map has its entry, and the order stands.
proof fn lemma_level_inserted(
    before: Seq<ThresholdLevel>,
    after: Seq<ThresholdLevel>,
    at: int,
    key: i128,
    entry: LiquidationEntry,
)
    requires
        increasing(before),
        0 <= at <= before.len(),
        forall|i: int| 0 <= i < at ==> before[i].supply < key,
        forall|i: int| at <= i < before.len() ==> before[i].supply > key,
        after.len() == before.len() + 1,
        forall|i: int| 0 <= i < at ==> after[i] == before[i],
        forall|i: int| at < i < after.len() ==> after[i] == before[i - 1],
        after[at].supply == key,
        after[at].entries@ == Seq::<LiquidationEntry>::empty().push(entry),
    ensures
        increasing(after),
        levels_view(after) == with_entry(levels_view(before), key, entry),
{
    let grown = with_entry(levels_view(before), key, entry);
    assert forall|i: int, j: int| 0 <= i < j < after.len() implies after[i].supply
        < after[j].supply by {
        if i < at && j > at {
            assert(after[i] == before[i] && after[j] == before[j - 1]);
        } else if i > at {
            assert(after[i] == before[i - 1] && after[j] == before[j - 1]);
        } else if j < at {
            assert(after[i] == before[i] && after[j] == before[j]);
        }
    }
    lemma_levels_found(before);
    lemma_levels_found(after);
    assert(!levels_view(before).contains_key(key)) by {
        lemma_level_slot(before, key, 0);
    }
    assert forall|k: i128| #[trigger]
        levels_view(after).contains_key(k) == grown.contains_key(k) && (grown.contains_key(k)
            ==> levels_view(after)[k] == grown[k]) by {
        lemma_level_slot(after, k, 0);
        lemma_level_slot(before, k, 0);
        let n = level_slot(after, k, 0);
        let b = level_slot(before, k, 0);
        if n < after.len() && n != at {
            if n < at {
                assert(after[n] == before[n]);
                assert(level_slot(before, before[n].supply, 0) == n);
            } else {
                assert(after[n] == before[n - 1]);
                assert(level_slot(before, before[n - 1].supply, 0) == n - 1);
            }
        }
        if b < before.len() {
            if b < at {
                assert(after[b] == before[b]);
                assert(level_slot(after, after[b].supply, 0) == b);
            } else {
                assert(after[b + 1] == before[b]);
                assert(level_slot(after, after[b + 1].supply, 0) == b + 1);
            }
        }
        if k == key {
            assert(level_slot(after, after[at].supply, 0) == at);
        }
    }
    assert(levels_view(after) =~= grown);
}

/// Records a forced trade at the supply `key`, after those recorded there.
fn add_entry(levels: &mut Vec<ThresholdLevel>, key: i128, entry: LiquidationEntry)
    requires
        increasing(old(levels)@),
    ensures
        increasing(final(levels)@),
        levels_view(final(levels)@) == with_entry(levels_view(old(levels)@), key, entry),
{
    let at = lower_bound(levels, key);
    let ghost before = levels@;
    if at < levels.len() && levels[at].supply == key {
        let mut level = levels.remove(at);
        level.entries.push(entry);
        levels.insert(at, level);
        proof {
            lemma_entry_appended(before, levels@, at as int, entry);
        }
    } else {
        let mut entries: Vec<LiquidationEntry> = Vec::new();
        entries.push(entry);
        levels.insert(at, ThresholdLevel { supply: key, entries });
        proof {
            lemma_level_inserted(before, levels@, at as int, key, entry);
        }
    }
}

/// Levels that stand at the same supplies are found at the same places.
proof fn lemma_same_supplies(
    before: Seq<ThresholdLevel>,
    after: Seq<ThresholdLevel>,
    key: i128,
    from: int,
)
    requires
        0 <= from <= before.len(),
        before.len() == after.len(),
        forall|i: int| 0 <= i < after.len() ==> after[i].supply == before[i].supply,
    ensures
        level_slot(after, key, from) == level_slot(before, key, from),
    decreases before.len() - from,
{
    if from < before.len() && before[from].supply != key {
        lemma_same_supplies(before, after, key, from + 1);
    }
}

/// A copy of the forced trades of one level.
fn copy_entries(entries: &Vec<LiquidationEntry>) -> (copy: Vec<LiquidationEntry>)
    ensures
        copy@ == entries@,
{
    let mut copy: Vec<LiquidationEntry> = Vec::new();
    let mut i: usize = 0;
    while i < entries.len()
        invariant
            i <= entries@.len(),
            copy@ == entries@.subrange(0, i as int),
        decreases entries@.len() - i,
    {
        copy.push(
            LiquidationEntry {
                cost_unwind: entries[i].cost_unwind,
                size_unwind: entries[i].size_unwind,
                user_id: entries[i].user_id.clone(),
            },
        );
        proof {
            assert(entries@.subrange(0, i as int).push(entries@[i as int]) =~= entries@.subrange(
                0,
                i + 1,
            ));
        }
        i = i + 1;
    }
    proof {
        assert(entries@.subrange(0, i as int) =~= entries@);
    }
    copy
}

/// A copy of the levels.
fn copy_levels(levels: &Vec<ThresholdLevel>) -> (copy: Vec<ThresholdLevel>)
    ensures
        copy@.len() == levels@.len(),
        forall|i: int|
            0 <= i < levels@.len() ==> copy@[i].supply == levels@[i].supply && copy@[i].entries@
                == levels@[i].entries@,
{
    let mut copy: Vec<ThresholdLevel> = Vec::new();
    let mut i: usize = 0;
    while i < levels.len()
        invariant
            i <= levels@.len(),
            copy@.len() == i,
            forall|j: int|
                0 <= j < i ==> copy@[j].supply == levels@[j].supply && copy@[j].entries@
                    == levels@[j].entries@,
        decreases levels@.len() - i,
    {
        copy.push(
            ThresholdLevel { supply: levels[i].supply, entries: copy_entries(&levels[i].entries) },
        );
        i = i + 1;
    }
    copy
}

impl Clone for ThresholdIndex {
    fn clone(&self) -> (copy: ThresholdIndex)
        ensures
            copy@ == self@,
    {
        proof {
            use_type_invariant(self);
        }
        let levels = copy_levels(&self.levels);
        proof {
            let ours = levels_view(self.levels@);
            let theirs = levels_view(levels@);
            assert forall|key: i128| #[trigger]
                theirs.contains_key(key) == ours.contains_key(key) && (ours.contains_key(key)
                    ==> ours[key] == theirs[key]) by {
                lemma_same_supplies(self.levels@, levels@, key, 0);
                lemma_level_slot(self.levels@, key, 0);
                let at = level_slot(self.levels@, key, 0);
                if at < self.levels@.len() {
                    assert(levels@[at].entries@ == self.levels@[at].entries@);
                }
            }
            assert(theirs =~= ours);
        }
        ThresholdIndex { levels }
    }
}

impl View for ThresholdIndex {
    type V = Map<i128, Seq<LiquidationEntry>>;

    closed spec fn view(&self) -> Map<i128, Seq<LiquidationEntry>> {
        levels_view(self.levels@)
    }
}

impl ThresholdIndex {
    #[verifier::type_invariant]
    spec fn ordered(self) -> bool {
        increasing(self.levels@)
    }

    /// An index without thresholds.
    pub fn new() -> (index: ThresholdIndex)
        ensures
            index@ == Map::<i128, Seq<LiquidationEntry>>::empty(),
    {
        let index = ThresholdIndex { levels: Vec::new() };
        assert(index@ =~= Map::<i128, Seq<LiquidationEntry>>::empty());
        index
    }

    /// The least threshold above `supply`, if there is one.
    pub fn first_key_above(&self, supply: i128) -> (key: Option<i128>)
        ensures
            match key {
                Some(k) => is_first_above(self@.dom(), supply, k),
                None => forall|j: i128| self@.contains_key(j) ==> j <= supply,
            },
    {
        proof {
            use_type_invariant(self);
            lemma_levels_found(self.levels@);
            assert forall|j: i128| self@.contains_key(j) implies exists|i: int|
                0 <= i < self.levels@.len() && self.levels@[i].supply == j by {
                lemma_level_slot(self.levels@, j, 0);
            }
        }
        if supply == i128::MAX {
            return None;
        }
        let at = lower_bound(&self.levels, supply + 1);
        if at < self.levels.len() {
            Some(self.levels[at].supply)
        } else {
            None
        }
    }

    /// The greatest threshold below `supply`, if there is one.
    pub fn last_key_below(&self, supply: i128) -> (key: Option<i128>)
        ensures
            match key {
                Some(k) => is_last_below(self@.dom(), supply, k),
                None => forall|j: i128| self@.contains_key(j) ==> j >= supply,
            },
    {
        proof {
            use_type_invariant(self);
            lemma_levels_found(self.levels@);
            assert forall|j: i128| self@.contains_key(j) implies exists|i: int|
                0 <= i < self.levels@.len() && self.levels@[i].supply == j by {
                lemma_level_slot(self.levels@, j, 0);
            }
        }
        let at = lower_bound(&self.levels, supply);
        if at > 0 {
            Some(self.levels[at - 1].supply)
        } else {
            None
        }
    }

    /// The forced trades recorded at a threshold.
    pub fn entries_at(&self, key: i128) -> (entries: Option<&Vec<LiquidationEntry>>)
        ensures
            match entries {
                Some(found) => self@.contains_key(key) && found@ == self@[key],
                None => !self@.contains_key(key),
            },
    {
        proof {
            use_type_invariant(self);
            lemma_levels_found(self.levels@);
            lemma_level_slot(self.levels@, key, 0);
        }
        let at = lower_bound(&self.levels, key);
        if at < self.levels.len() && self.levels[at].supply == key {
            Some(&self.levels[at].entries)
        } else {
            None
        }
    }

    /// The index with one more forced trade at the threshold `key`, after
    /// those recorded there.
    pub fn record(self, key: i128, entry: LiquidationEntry) -> (index: ThresholdIndex)
        ensures
            index@ == with_entry(self@, key, entry),
    {
        proof {
            use_type_invariant(&self);
        }
        let mut levels = self.levels;
        add_entry(&mut levels, key, entry);
        ThresholdIndex { levels }
    }

    /// The thresholds, in increasing order.
    pub fn keys(&self) -> (keys: Vec<i128>)
        ensures
            forall|i: int, j: int| 0 <= i < j < keys@.len() ==> keys@[i] < keys@[j],
            forall|key: i128| keys@.contains(key) <==> self@.contains_key(key),
    {
        proof {
            use_type_invariant(self);
            lemma_levels_found(self.levels@);
        }
        let mut keys: Vec<i128> = Vec::new();
        let mut i: usize = 0;
        while i < self.levels.len()
            invariant
                i <= self.levels@.len(),
                keys@.len() == i,
                forall|j: int| 0 <= j < i ==> keys@[j] == self.levels@[j].supply,
            decreases self.levels@.len() - i,
        {
            keys.push(self.levels[i].supply);
            i = i + 1;
        }
        proof {
            assert forall|key: i128| keys@.contains(key) <==> self@.contains_key(key) by {
                lemma_level_slot(self.levels@, key, 0);
                if self@.contains_key(key) {
                    let at = level_slot(self.levels@, key, 0);
                    assert(keys@[at] == key);
                }
                if keys@.contains(key) {
                    let at = choose|at: int| 0 <= at < keys@.len() && keys@[at] == key;
                    assert(self.levels@[at].supply == key);
                }
            }
        }
        keys
    }
}

} // verus!
