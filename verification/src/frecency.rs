//! Frecency: how often and how recently an item was launched, and the score by
//! which items are put in their default order.
//!
//! The score of an entry is `count / (1 + hours / 72)`, where `hours` is the time
//! since the last launch. With the time in seconds this is the fraction
//! `count * 259200 / (259200 + seconds)`. Scores are kept as that fraction and
//! compared exactly.

use vstd::prelude::*;

verus! {

/// The seconds in 72 hours: the age at which a score has fallen to half the count.
pub const DECAY_SECS: u64 = 259200;

/// How often an item was launched, and when last.
#[derive(Clone, Copy, Debug, Default)]
pub struct FrecencyEntry {
    /// Number of launches.
    pub count: u32,
    /// Time of the last launch, in seconds since the epoch.
    pub last: u64,
}

/// A score, as the fraction `count * DECAY_SECS / (DECAY_SECS + age)`.
#[derive(Clone, Copy, Debug)]
pub struct Score {
    /// Number of launches.
    pub count: u32,
    /// Seconds since the last launch.
    pub age: u64,
}

impl Score {
    /// Numerator of the score.
    pub open spec fn num(self) -> int {
        self.count * DECAY_SECS
    }

    /// Denominator of the score; never zero.
    pub open spec fn den(self) -> int {
        DECAY_SECS + self.age
    }

    /// Whether this score is greater than `other`: the fractions are compared by
    /// cross-multiplication.
    pub open spec fn exceeds(self, other: Score) -> bool {
        self.num() * other.den() > other.num() * self.den()
    }

    /// Whether the two scores are the same number.
    pub open spec fn same(self, other: Score) -> bool {
        self.num() * other.den() == other.num() * self.den()
    }

    /// The score of an item that was never launched.
    pub fn zero() -> (s: Score)
        ensures
            s.num() == 0,
            s == (Score { count: 0, age: 0 }),
    {
        Score { count: 0, age: 0 }
    }

    /// Whether this score is greater than `other`.
    pub fn is_greater(&self, other: &Score) -> (r: bool)
        ensures
            r == self.exceeds(*other),
    {
        let a: u128 = self.count as u128 * DECAY_SECS as u128;
        let b: u128 = other.count as u128 * DECAY_SECS as u128;
        let da: u128 = DECAY_SECS as u128 + self.age as u128;
        let db: u128 = DECAY_SECS as u128 + other.age as u128;
        assert(a * db <= 0x4_0000_0000_0000 * 0x2_0000_0000_0000_0000 && b * da <= 0x4_0000_0000_0000
            * 0x2_0000_0000_0000_0000) by (nonlinear_arith)
            requires
                0 <= a <= 0x4_0000_0000_0000,
                0 <= b <= 0x4_0000_0000_0000,
                0 <= da <= 0x2_0000_0000_0000_0000,
                0 <= db <= 0x2_0000_0000_0000_0000,
        ;
        a * db > b * da
    }
}

/// The score of `entry` at time `now`. An entry whose last launch lies after `now`
/// has age zero.
pub open spec fn score_of(entry: FrecencyEntry, now: u64) -> Score {
    Score { count: entry.count, age: if now >= entry.last { (now - entry.last) as u64 } else { 0 } }
}

/// The entry after one more launch at time `now`. The count stops at its largest
/// value.
pub open spec fn launched(entry: FrecencyEntry, now: u64) -> FrecencyEntry {
    FrecencyEntry {
        count: if entry.count < u32::MAX { (entry.count + 1) as u32 } else { entry.count },
        last: now,
    }
}

/// The score of `entry` at time `now`.
pub fn frecency_score(entry: &FrecencyEntry, now: u64) -> (s: Score)
    ensures
        s == score_of(*entry, now),
{
    Score { count: entry.count, age: if now >= entry.last { now - entry.last } else { 0 } }
}

/// At equal counts the entry that was launched later scores higher, and an entry
/// that was never launched scores below every entry that was.
pub proof fn lemma_score_decays(a: FrecencyEntry, b: FrecencyEntry, now: u64)
    requires
        a.count == b.count,
        a.count > 0,
        b.last < a.last <= now,
    ensures
        score_of(a, now).exceeds(score_of(b, now)),
        score_of(a, now).exceeds(Score { count: 0, age: 0 }),
{
    let sa = score_of(a, now);
    let sb = score_of(b, now);
    assert(sa.num() * sb.den() > sb.num() * sa.den()) by (nonlinear_arith)
        requires
            sa.num() == sb.num(),
            sa.num() > 0,
            sb.den() > sa.den(),
    ;
    let zero = Score { count: 0, age: 0 };
    assert(zero.num() == 0 && zero.den() == 259200);
    assert(sa.num() * zero.den() > zero.num() * sa.den()) by (nonlinear_arith)
        requires
            sa.num() > 0,
            zero.num() == 0,
            zero.den() == 259200,
    ;
}

/// One record of the usage map.
pub struct Record {
    /// Identity of the item.
    pub key: String,
    /// Its usage.
    pub entry: FrecencyEntry,
}

/// The map that a sequence of records stands for: where a key stands in several
/// records, the last of them counts.
pub open spec fn to_map(records: Seq<Record>) -> Map<Seq<char>, FrecencyEntry>
    decreases records.len(),
{
    if records.len() == 0 {
        Map::empty()
    } else {
        to_map(records.drop_last()).insert(records.last().key@, records.last().entry)
    }
}

/// The map from item identity to usage. It is kept as a list of records, so that
/// it can be handed over and taken back record by record.
pub struct FrecencyMap {
    pub records: Vec<Record>,
}

impl View for FrecencyMap {
    type V = Map<Seq<char>, FrecencyEntry>;

    open spec fn view(&self) -> Map<Seq<char>, FrecencyEntry> {
        to_map(self.records@)
    }
}

/// Records after position `from` that do not hold `key` do not matter to what the
/// map holds for `key`.
proof fn lemma_to_map_tail(records: Seq<Record>, from: int, key: Seq<char>)
    requires
        0 <= from <= records.len(),
        forall|j: int| from <= j < records.len() ==> records[j].key@ != key,
    ensures
        to_map(records).contains_key(key) == to_map(records.take(from)).contains_key(key),
        to_map(records).contains_key(key) ==> to_map(records)[key] == to_map(records.take(from))[key],
    decreases records.len() - from,
{
    if from == records.len() {
        assert(records.take(from) == records);
    } else {
        lemma_to_map_tail(records.drop_last(), from, key);
        assert(records.drop_last().take(from) == records.take(from));
    }
}

/// Replacing the last record that holds a key puts the new entry under that key.
proof fn lemma_to_map_update(records: Seq<Record>, at: int, r: Record)
    requires
        0 <= at < records.len(),
        records[at].key@ == r.key@,
        forall|j: int| at < j < records.len() ==> records[j].key@ != r.key@,
    ensures
        to_map(records.update(at, r)) == to_map(records).insert(r.key@, r.entry),
    decreases records.len(),
{
    if at == records.len() - 1 {
        assert(records.update(at, r).drop_last() == records.drop_last());
        assert(to_map(records.update(at, r)) =~= to_map(records).insert(r.key@, r.entry));
    } else {
        lemma_to_map_update(records.drop_last(), at, r);
        assert(records.update(at, r).drop_last() == records.drop_last().update(at, r));
        assert(to_map(records.update(at, r)) =~= to_map(records).insert(r.key@, r.entry));
    }
}

impl FrecencyMap {
    /// The empty map.
    pub fn new() -> (m: FrecencyMap)
        ensures
            m@ == Map::<Seq<char>, FrecencyEntry>::empty(),
    {
        FrecencyMap { records: Vec::new() }
    }

    /// Position of the last record that holds `key`.
    fn position(&self, key: &str) -> (at: Option<usize>)
        ensures
            match at {
                Some(i) => i < self.records@.len() && self.records@[i as int].key@ == key@ && forall|
                    j: int,
                | i < j < self.records@.len() ==> self.records@[j].key@ != key@,
                None => forall|j: int| 0 <= j < self.records@.len() ==> self.records@[j].key@ != key@,
            },
    {
        let probe = key.to_owned();
        let mut i: usize = self.records.len();
        while i > 0
            invariant
                i <= self.records@.len(),
                probe@ == key@,
                forall|j: int| i <= j < self.records@.len() ==> self.records@[j].key@ != key@,
            decreases i,
        {
            i -= 1;
            if self.records[i].key == probe {
                return Some(i);
            }
        }
        None
    }

    /// The usage recorded for `key`, if any.
    pub fn get(&self, key: &str) -> (entry: Option<FrecencyEntry>)
        ensures
            entry == (if self@.contains_key(key@) {
                Some(self@[key@])
            } else {
                None::<FrecencyEntry>
            }),
    {
        match self.position(key) {
            Some(i) => {
                proof {
                    lemma_to_map_tail(self.records@, i + 1, key@);
                    assert(self.records@.take(i + 1).drop_last() == self.records@.take(i as int));
                }
                Some(self.records[i].entry)
            },
            None => {
                proof {
                    lemma_to_map_tail(self.records@, 0, key@);
                }
                None
            },
        }
    }

    /// Puts `entry` under `key`, in place of what was recorded for the key before.
    pub fn insert(&mut self, key: String, entry: FrecencyEntry)
        ensures
            final(self)@ == old(self)@.insert(key@, entry),
    {
        match self.position(key.as_str()) {
            Some(i) => {
                let r = Record { key, entry };
                proof {
                    lemma_to_map_update(self.records@, i as int, r);
                }
                self.records.set(i, r);
            },
            None => {
                let r = Record { key, entry };
                assert(self.records@.push(r).drop_last() == self.records@);
                self.records.push(r);
            },
        }
    }

    /// The usage of `key` after one more launch at time `now`.
    pub open spec fn bumped(self, key: Seq<char>, now: u64) -> FrecencyEntry {
        launched(
            if self@.contains_key(key) {
                self@[key]
            } else {
                FrecencyEntry { count: 0, last: 0 }
            },
            now,
        )
    }

    /// Records one launch of `key` at time `now`: its count grows by one and its
    /// last launch is `now`. A key that was not recorded starts from a count of
    /// zero.
    pub fn record_launch(&mut self, key: &str, now: u64)
        ensures
            final(self)@ == old(self)@.insert(key@, old(self).bumped(key@, now)),
    {
        let seen = match self.get(key) {
            Some(e) => e,
            None => FrecencyEntry { count: 0, last: 0 },
        };
        let count: u32 = if seen.count < u32::MAX { seen.count + 1 } else { seen.count };
        self.insert(key.to_owned(), FrecencyEntry { count, last: now });
    }
}

} // verus!
