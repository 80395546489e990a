//! The processes that the daemon has frozen, and those it has checkpointed.
use crate::order::{lemma_arrangement_covers, stable_order, stands_before, Key};
use crate::table::{ascending, lists_ascending, PidMap};
use crate::types::{Kb, Pid};
use vstd::prelude::*;

verus! {

/// What is remembered of a frozen process.
#[derive(Debug)]
pub struct FrozenEntry {
    pub name: String,
    /// When it was frozen, in seconds since the Unix epoch.
    pub frozen_at: u64,
    /// Its start time, which tells it from a later process with the same id.
    pub start_time: u64,
}

/// The name, freeze time and start time of a frozen process.
pub type FrozenView = (Seq<char>, u64, u64);

/// A frozen process as it is stored on disk: id, name, freeze time, start time.
pub type FrozenRecord = (u32, String, u64, u64);

/// The processes that are frozen, so that they can be thawed when pressure
/// drops.
pub struct FrozenRegistry {
    frozen: PidMap<FrozenEntry>,
}

/// The map that a list of stored records stands for; a later record of one
/// process replaces an earlier one.
pub open spec fn frozen_map(records: Seq<FrozenRecord>) -> Map<u32, FrozenView>
    decreases records.len(),
{
    if records.len() == 0 {
        Map::empty()
    } else {
        let r = records.last();
        frozen_map(records.drop_last()).insert(r.0, (r.1@, r.2, r.3))
    }
}

impl FrozenRegistry {
    /// The frozen processes.
    pub closed spec fn view(&self) -> Map<u32, FrozenView> {
        self.frozen@.map_values(|e: FrozenEntry| (e.name@, e.frozen_at, e.start_time))
    }

    /// Nothing is frozen.
    pub fn new() -> (r: FrozenRegistry)
        ensures
            r@ == Map::<u32, FrozenView>::empty(),
    {
        let r = FrozenRegistry { frozen: PidMap::new() };
        assert(r@ =~= Map::<u32, FrozenView>::empty());
        r
    }

    /// Rebuilds the registry from stored records.
    pub fn load(records: &Vec<FrozenRecord>) -> (r: FrozenRegistry)
        ensures
            r@ == frozen_map(records@),
    {
        let mut reg = FrozenRegistry::new();
        let mut i: usize = 0;
        assert(records@.take(0) =~= Seq::<FrozenRecord>::empty());
        while i < records.len()
            invariant
                i <= records.len(),
                reg@ == frozen_map(records@.take(i as int)),
            decreases records.len() - i,
        {
            let rec = &records[i];
            assert(records@.take(i as int + 1).drop_last() =~= records@.take(i as int));
            let ghost before = reg@;
            reg.frozen.insert(
                rec.0,
                FrozenEntry { name: rec.1.clone(), frozen_at: rec.2, start_time: rec.3 },
            );
            assert(reg@ =~= before.insert(rec.0, (rec.1@, rec.2, rec.3)));
            i = i + 1;
        }
        assert(records@.take(i as int) =~= records@);
        reg
    }

    /// The records to store: one for each frozen process.
    pub fn save(&self) -> (r: Vec<FrozenRecord>)
        ensures
            frozen_map(r@) == self@,
            r@.len() == self@.len(),
            forall|i: int|
                0 <= i < r@.len() ==> self@.contains_pair(
                    (#[trigger] r@[i]).0,
                    (r@[i].1@, r@[i].2, r@[i].3),
                ),
    {
        let keys = self.frozen.keys();
        let mut out: Vec<FrozenRecord> = Vec::new();
        let mut i: usize = 0;
        while i < keys.len()
            invariant
                i <= keys.len(),
                keys@.no_duplicates(),
                forall|k: u32| keys@.contains(k) <==> #[trigger] self.frozen@.contains_key(k),
                out@.len() == i,
                forall|k: u32|
                    #![trigger frozen_map(out@).contains_key(k)]
                    frozen_map(out@).contains_key(k) <==> keys@.take(i as int).contains(k),
                forall|k: u32| #[trigger]
                    frozen_map(out@).contains_key(k) ==> self@.contains_pair(
                        k,
                        frozen_map(out@)[k],
                    ),
                forall|j: int|
                    0 <= j < out@.len() ==> self@.contains_pair(
                        (#[trigger] out@[j]).0,
                        (out@[j].1@, out@[j].2, out@[j].3),
                    ),
            decreases keys.len() - i,
        {
            let pid: u32 = keys[i];
            assert(keys@.contains(pid));
            let ghost before = out@;
            if let Some(e) = self.frozen.get(pid) {
                let rec: FrozenRecord = (pid, e.name.clone(), e.frozen_at, e.start_time);
                out.push(rec);
                proof {
                    assert(out@.drop_last() =~= before);
                    assert(keys@.take(i as int + 1) =~= keys@.take(i as int).push(pid));
                    assert(self@.contains_pair(pid, (rec.1@, rec.2, rec.3)));
                    assert forall|k: u32|
                        #![trigger frozen_map(out@).contains_key(k)]
                        frozen_map(out@).contains_key(k) <==> keys@.take(i as int + 1).contains(
                            k,
                        ) by {
                        let a = keys@.take(i as int);
                        let b = keys@.take(i as int + 1);
                        if a.contains(k) {
                            let j = choose|j: int| 0 <= j < a.len() && a[j] == k;
                            assert(b[j] == k);
                        }
                        if b.contains(k) && k != pid {
                            let j = choose|j: int| 0 <= j < b.len() && b[j] == k;
                            assert(a[j] == k);
                        }
                        assert(b[i as int] == pid);
                        assert(frozen_map(before).contains_key(k) <==> a.contains(k));
                    }
                    assert forall|k: u32| #[trigger]
                        frozen_map(out@).contains_key(k) implies self@.contains_pair(
                        k,
                        frozen_map(out@)[k],
                    ) by {
                        if k != pid {
                            assert(frozen_map(before).contains_key(k));
                        }
                    }
                }
            }
            i = i + 1;
        }
        proof {
            assert(keys@.take(i as int) =~= keys@);
            assert(self@.dom() =~= self.frozen@.dom());
            assert forall|k: u32| frozen_map(out@).contains_key(k) <==> #[trigger] self@.contains_key(
                k,
            ) by {
                assert(frozen_map(out@).contains_key(k) <==> keys@.contains(k));
                assert(self.frozen@.contains_key(k) <==> keys@.contains(k));
            }
            assert(frozen_map(out@) =~= self@);
        }
        out
    }

    /// Records a process as frozen at `now`, with its start time. False, and
    /// nothing is recorded, where the start time could not be read: the process
    /// has vanished, and the caller should thaw it.
    pub fn add(&mut self, pid: Pid, name: &str, start_time: Option<u64>, now: u64) -> (r: bool)
        ensures
            r == start_time is Some,
            final(self)@ == match start_time {
                Some(st) => old(self)@.insert(pid.0, (name@, now, st)),
                None => old(self)@,
            },
    {
        match start_time {
            None => false,
            Some(st) => {
                self.frozen.insert(
                    pid.0,
                    FrozenEntry { name: name.to_owned(), frozen_at: now, start_time: st },
                );
                assert(self@ =~= old(self)@.insert(pid.0, (name@, now, st)));
                true
            },
        }
    }

    /// Forgets a process. The result says whether it was there, so that the
    /// stored records need writing.
    pub fn remove(&mut self, pid: Pid) -> (r: bool)
        ensures
            r == old(self)@.contains_key(pid.0),
            final(self)@ == old(self)@.remove(pid.0),
    {
        let was = self.frozen.remove(pid.0);
        assert(self@ =~= old(self)@.remove(pid.0));
        was.is_some()
    }

    /// The frozen processes, each once.
    pub fn frozen_pids(&self) -> (r: Vec<Pid>)
        ensures
            r@.no_duplicates(),
            r@.len() == self@.len(),
            forall|k: u32| r@.contains(Pid(k)) <==> #[trigger] self@.contains_key(k),
    {
        let keys = self.frozen.keys();
        let mut out: Vec<Pid> = Vec::new();
        let mut i: usize = 0;
        while i < keys.len()
            invariant
                i <= keys.len(),
                out@.len() == i,
                forall|j: int| 0 <= j < i ==> #[trigger] out@[j] == Pid(keys@[j]),
            decreases keys.len() - i,
        {
            out.push(Pid(keys[i]));
            i = i + 1;
        }
        proof {
            assert(self@.dom() =~= self.frozen@.dom());
            assert forall|k: u32| out@.contains(Pid(k)) <==> #[trigger] self@.contains_key(k) by {
                if out@.contains(Pid(k)) {
                    let j = choose|j: int| 0 <= j < out@.len() && out@[j] == Pid(k);
                    assert(keys@[j] == k);
                    assert(self.frozen@.contains_key(k));
                }
                if self@.contains_key(k) {
                    assert(self.frozen@.contains_key(k));
                    let j = choose|j: int| 0 <= j < keys@.len() && keys@[j] == k;
                    assert(out@[j] == Pid(k));
                }
            }
        }
        out
    }

    /// The frozen processes in ascending order of their ids.
    pub fn pids_ascending(&self) -> (r: Vec<u32>)
        ensures
            r@ == ascending(self@.dom()),
            lists_ascending(r@, self@.dom()),
    {
        assert(self@.dom() =~= self.frozen@.dom());
        self.frozen.sorted_keys()
    }

    /// When a process was frozen; zero where it is not.
    pub fn frozen_at(&self, pid: Pid) -> (r: u64)
        ensures
            r == if self@.contains_key(pid.0) {
                self@[pid.0].1
            } else {
                0
            },
    {
        match self.frozen.get(pid.0) {
            Some(e) => e.frozen_at,
            None => 0,
        }
    }

    /// The name recorded at the freeze; empty where it is not frozen.
    pub fn name(&self, pid: Pid) -> (r: &str)
        ensures
            r@ == if self@.contains_key(pid.0) {
                self@[pid.0].0
            } else {
                ""@
            },
    {
        match self.frozen.get(pid.0) {
            Some(e) => e.name.as_str(),
            None => "",
        }
    }

    /// The start time recorded at the freeze; zero where it is not frozen.
    pub fn start_time(&self, pid: Pid) -> (r: u64)
        ensures
            r == if self@.contains_key(pid.0) {
                self@[pid.0].2
            } else {
                0
            },
    {
        match self.frozen.get(pid.0) {
            Some(e) => e.start_time,
            None => 0,
        }
    }

    /// Whether a process is frozen.
    pub fn is_frozen(&self, pid: Pid) -> (r: bool)
        ensures
            r == self@.contains_key(pid.0),
    {
        self.frozen.contains(pid.0)
    }

    /// How many processes are frozen.
    pub fn count(&self) -> (r: usize)
        ensures
            r == self@.len(),
    {
        assert(self@.dom() =~= self.frozen@.dom());
        self.frozen.len()
    }

    /// The frozen processes with their names and freeze times, each once.
    pub fn list(&self) -> (r: Vec<(Pid, String, u64)>)
        ensures
            r@.len() == self@.len(),
            forall|i: int|
                0 <= i < r@.len() ==> self@.contains_key((#[trigger] r@[i]).0.0) && self@[r@[i].0.0].0
                    == r@[i].1@ && self@[r@[i].0.0].1 == r@[i].2,
            forall|i: int, j: int|
                0 <= i < j < r@.len() ==> (#[trigger] r@[i]).0 != (#[trigger] r@[j]).0,
    {
        let keys = self.frozen.keys();
        let mut out: Vec<(Pid, String, u64)> = Vec::new();
        let mut i: usize = 0;
        assert(self@.dom() =~= self.frozen@.dom());
        while i < keys.len()
            invariant
                i <= keys.len(),
                keys@.no_duplicates(),
                forall|k: u32| keys@.contains(k) <==> #[trigger] self.frozen@.contains_key(k),
                out@.len() == i,
                forall|j: int|
                    0 <= j < i ==> self@.contains_key((#[trigger] out@[j]).0.0)
                        && self@[out@[j].0.0].0 == out@[j].1@ && self@[out@[j].0.0].1 == out@[j].2,
                forall|j: int| 0 <= j < i ==> (#[trigger] out@[j]).0 == Pid(keys@[j]),
            decreases keys.len() - i,
        {
            let pid: u32 = keys[i];
            assert(keys@.contains(pid));
            if let Some(e) = self.frozen.get(pid) {
                out.push((Pid(pid), e.name.clone(), e.frozen_at));
            }
            i = i + 1;
        }
        out
    }
}

/// Exactly the processes that stored records name are frozen after loading.
pub proof fn law_loaded_processes_are_the_recorded_ones(records: Seq<FrozenRecord>, pid: u32)
    ensures
        frozen_map(records).contains_key(pid) <==> exists|i: int|
            0 <= i < records.len() && (#[trigger] records[i]).0 == pid,
    decreases records.len(),
{
    if records.len() > 0 {
        law_loaded_processes_are_the_recorded_ones(records.drop_last(), pid);
        if frozen_map(records).contains_key(pid) {
            if records.last().0 == pid {
                assert(records[records.len() - 1].0 == pid);
            } else {
                let i = choose|i: int|
                    0 <= i < records.drop_last().len() && (#[trigger] records.drop_last()[i]).0
                        == pid;
                assert(records[i].0 == pid);
            }
        }
        if exists|i: int| 0 <= i < records.len() && (#[trigger] records[i]).0 == pid {
            let i = choose|i: int| 0 <= i < records.len() && (#[trigger] records[i]).0 == pid;
            if i < records.len() - 1 {
                assert(records.drop_last()[i].0 == pid);
            }
        }
    }
}

// ------------------------------------------------------------ checkpoints

/// What is remembered of a checkpointed process.
#[derive(Debug)]
pub struct CheckpointEntry {
    pub name: String,
    /// Where its state is stored.
    pub snapshot_dir: String,
    /// Its resident size when it was checkpointed.
    pub rss: Kb,
    /// How often restoring it has been tried.
    pub attempts: u32,
}

/// The name, directory, size and attempts of a checkpointed process.
pub struct CheckpointView {
    pub name: Seq<char>,
    pub snapshot_dir: Seq<char>,
    pub rss: Kb,
    pub attempts: u32,
}

impl View for CheckpointEntry {
    type V = CheckpointView;

    open spec fn view(&self) -> CheckpointView {
        CheckpointView {
            name: self.name@,
            snapshot_dir: self.snapshot_dir@,
            rss: self.rss,
            attempts: self.attempts,
        }
    }
}

/// The processes whose state was saved before they were killed, so that they
/// can be restored when pressure drops.
pub struct CheckpointRegistry {
    checkpointed: PidMap<CheckpointEntry>,
}

/// A checkpointed process: id, name, directory, size, attempts.
pub type CheckpointRecord = (Pid, String, String, Kb, u32);

/// What a record says of its process.
pub open spec fn record_view(r: CheckpointRecord) -> CheckpointView {
    CheckpointView { name: r.1@, snapshot_dir: r.2@, rss: r.3, attempts: r.4 }
}

/// The map that a list of stored records stands for.
pub open spec fn checkpoint_map(records: Seq<CheckpointRecord>) -> Map<u32, CheckpointView>
    decreases records.len(),
{
    if records.len() == 0 {
        Map::empty()
    } else {
        checkpoint_map(records.drop_last()).insert(records.last().0.0, record_view(records.last()))
    }
}

/// Whether the records list the map, each process once.
pub open spec fn lists_all(records: Seq<CheckpointRecord>, m: Map<u32, CheckpointView>) -> bool {
    &&& records.len() == m.len()
    &&& forall|i: int|
        0 <= i < records.len() ==> m.contains_pair(
            (#[trigger] records[i]).0.0,
            record_view(records[i]),
        )
    &&& forall|i: int, j: int|
        0 <= i < j < records.len() ==> (#[trigger] records[i]).0 != (#[trigger] records[j]).0
    &&& forall|k: u32| #[trigger]
        m.contains_key(k) ==> exists|i: int|
            0 <= i < records.len() && (#[trigger] records[i]).0.0 == k
}

impl CheckpointRegistry {
    /// The checkpointed processes.
    pub closed spec fn view(&self) -> Map<u32, CheckpointView> {
        self.checkpointed@.map_values(|e: CheckpointEntry| e@)
    }

    /// Nothing is checkpointed.
    pub fn new() -> (r: CheckpointRegistry)
        ensures
            r@ == Map::<u32, CheckpointView>::empty(),
    {
        let r = CheckpointRegistry { checkpointed: PidMap::new() };
        assert(r@ =~= Map::<u32, CheckpointView>::empty());
        r
    }

    /// Rebuilds the registry from stored records.
    pub fn load(records: &Vec<CheckpointRecord>) -> (r: CheckpointRegistry)
        ensures
            r@ == checkpoint_map(records@),
    {
        let mut reg = CheckpointRegistry::new();
        let mut i: usize = 0;
        assert(records@.take(0) =~= Seq::<CheckpointRecord>::empty());
        while i < records.len()
            invariant
                i <= records.len(),
                reg@ == checkpoint_map(records@.take(i as int)),
            decreases records.len() - i,
        {
            let rec = &records[i];
            assert(records@.take(i as int + 1).drop_last() =~= records@.take(i as int));
            let ghost before = reg@;
            reg.checkpointed.insert(
                rec.0.0,
                CheckpointEntry {
                    name: rec.1.clone(),
                    snapshot_dir: rec.2.clone(),
                    rss: rec.3,
                    attempts: rec.4,
                },
            );
            assert(reg@ =~= before.insert(rec.0.0, record_view(*rec)));
            i = i + 1;
        }
        assert(records@.take(i as int) =~= records@);
        reg
    }

    /// The records to store: one for each checkpointed process.
    pub fn save(&self) -> (r: Vec<CheckpointRecord>)
        ensures
            lists_all(r@, self@),
    {
        let keys = self.checkpointed.keys();
        let mut out: Vec<CheckpointRecord> = Vec::new();
        let mut i: usize = 0;
        assert(self@.dom() =~= self.checkpointed@.dom());
        while i < keys.len()
            invariant
                i <= keys.len(),
                keys@.no_duplicates(),
                forall|k: u32| keys@.contains(k) <==> #[trigger] self.checkpointed@.contains_key(k),
                out@.len() == i,
                forall|j: int|
                    0 <= j < i ==> self@.contains_pair(
                        (#[trigger] out@[j]).0.0,
                        record_view(out@[j]),
                    ),
                forall|j: int| 0 <= j < i ==> (#[trigger] out@[j]).0 == Pid(keys@[j]),
            decreases keys.len() - i,
        {
            let pid: u32 = keys[i];
            assert(keys@.contains(pid));
            if let Some(e) = self.checkpointed.get(pid) {
                out.push((Pid(pid), e.name.clone(), e.snapshot_dir.clone(), e.rss, e.attempts));
            }
            i = i + 1;
        }
        proof {
            assert forall|k: u32| #[trigger] self@.contains_key(k) implies exists|j: int|
                0 <= j < out@.len() && (#[trigger] out@[j]).0.0 == k by {
                assert(self.checkpointed@.contains_key(k));
                let j = choose|j: int| 0 <= j < keys@.len() && keys@[j] == k;
                assert(out@[j].0.0 == k);
            }
        }
        out
    }

    /// Records a process whose state was saved in `snapshot_dir`.
    pub fn add(&mut self, pid: Pid, name: &str, snapshot_dir: String, rss: Kb)
        ensures
            final(self)@ == old(self)@.insert(
                pid.0,
                (CheckpointView { name: name@, snapshot_dir: snapshot_dir@, rss, attempts: 0 }),
            ),
    {
        self.checkpointed.insert(
            pid.0,
            CheckpointEntry { name: name.to_owned(), snapshot_dir, rss, attempts: 0 },
        );
        assert(self@ =~= old(self)@.insert(
            pid.0,
            CheckpointView { name: name@, snapshot_dir: snapshot_dir@, rss, attempts: 0 },
        ));
    }

    /// Forgets a process. The result says whether it was there.
    pub fn remove(&mut self, pid: Pid) -> (r: bool)
        ensures
            r == old(self)@.contains_key(pid.0),
            final(self)@ == old(self)@.remove(pid.0),
    {
        let was = self.checkpointed.remove(pid.0);
        assert(self@ =~= old(self)@.remove(pid.0));
        was.is_some()
    }

    /// Counts one more try to restore a process, if it is checkpointed.
    pub fn increment_attempts(&mut self, pid: Pid)
        requires
            old(self)@.contains_key(pid.0) ==> old(self)@[pid.0].attempts < u32::MAX,
        ensures
            final(self)@ == if old(self)@.contains_key(pid.0) {
                let e = old(self)@[pid.0];
                old(self)@.insert(
                    pid.0,
                    (CheckpointView { attempts: (e.attempts + 1) as u32, ..e }),
                )
            } else {
                old(self)@
            },
    {
        if let Some(e) = self.checkpointed.remove(pid.0) {
            let ghost e0 = e;
            assert(old(self)@[pid.0] == e0@);
            self.checkpointed.insert(
                pid.0,
                CheckpointEntry {
                    name: e.name,
                    snapshot_dir: e.snapshot_dir,
                    rss: e.rss,
                    attempts: e.attempts + 1,
                },
            );
            assert(self@ =~= old(self)@.insert(
                pid.0,
                CheckpointView { attempts: (e0.attempts + 1) as u32, ..e0@ },
            ));
        } else {
            assert(self@ =~= old(self)@);
        }
    }

    /// All checkpointed processes, the smallest first.
    pub fn entries_lightest_first(&self) -> (r: Vec<CheckpointRecord>)
        ensures
            lists_all(r@, self@),
            forall|i: int, j: int|
                0 <= i < j < r@.len() ==> (#[trigger] r@[i]).3.0 <= (#[trigger] r@[j]).3.0,
    {
        let all = self.save();
        let mut keys: Vec<Key> = Vec::new();
        let mut i: usize = 0;
        while i < all.len()
            invariant
                i <= all.len(),
                keys@.len() == i,
                forall|j: int| 0 <= j < i ==> #[trigger] keys@[j] == (all@[j].3.0, 0u64, 0u64),
            decreases all.len() - i,
        {
            keys.push((all[i].3.0, 0, 0));
            i = i + 1;
        }
        let order = stable_order(&keys);
        let mut out: Vec<CheckpointRecord> = Vec::new();
        let mut n: usize = 0;
        while n < order.len()
            invariant
                n <= order.len(),
                order@.len() == all@.len(),
                forall|j: int| 0 <= j < order@.len() ==> #[trigger] order@[j] < all@.len(),
                out@.len() == n,
                forall|j: int|
                    0 <= j < n ==> (#[trigger] out@[j]).0 == all@[order@[j] as int].0 && out@[j].3
                        == all@[order@[j] as int].3 && record_view(out@[j]) == record_view(
                        all@[order@[j] as int],
                    ),
            decreases order.len() - n,
        {
            let e = &all[order[n]];
            out.push((e.0, e.1.clone(), e.2.clone(), e.3, e.4));
            n = n + 1;
        }
        proof {
            assert forall|i: int, j: int| 0 <= i < j < out@.len() implies (#[trigger] out@[i]).3.0
                <= (#[trigger] out@[j]).3.0 by {
                assert(stands_before(keys@, order@[i] as int, order@[j] as int));
            }
            assert forall|i: int, j: int| 0 <= i < j < out@.len() implies (#[trigger] out@[i]).0
                != (#[trigger] out@[j]).0 by {
                let a = order@[i] as int;
                let b = order@[j] as int;
                assert(order@[i] != order@[j]);
                if a < b {
                    assert(all@[a].0 != all@[b].0);
                } else {
                    assert(all@[b].0 != all@[a].0);
                }
            }
            assert forall|k: u32| #[trigger] self@.contains_key(k) implies exists|j: int|
                0 <= j < out@.len() && (#[trigger] out@[j]).0.0 == k by {
                let m = choose|m: int| 0 <= m < all@.len() && (#[trigger] all@[m]).0.0 == k;
                lemma_arrangement_covers(order@, all@.len(), m);
                let j = choose|j: int| 0 <= j < order@.len() && #[trigger] order@[j] == m;
                assert(out@[j].0.0 == k);
            }
            assert forall|i: int| 0 <= i < out@.len() implies self@.contains_pair(
                (#[trigger] out@[i]).0.0,
                record_view(out@[i]),
            ) by {
                let a = order@[i] as int;
                assert(self@.contains_pair(all@[a].0.0, record_view(all@[a])));
            }
        }
        out
    }

    /// The checkpointed processes in ascending order of their ids.
    pub fn pids_ascending(&self) -> (r: Vec<u32>)
        ensures
            r@ == ascending(self@.dom()),
            lists_ascending(r@, self@.dom()),
    {
        assert(self@.dom() =~= self.checkpointed@.dom());
        self.checkpointed.sorted_keys()
    }

    /// What is remembered of a process.
    pub fn entry(&self, pid: Pid) -> (r: Option<&CheckpointEntry>)
        ensures
            match r {
                Some(e) => self@.contains_pair(pid.0, e@),
                None => !self@.contains_key(pid.0),
            },
    {
        self.checkpointed.get(pid.0)
    }

    /// How many processes are checkpointed.
    pub fn count(&self) -> (r: usize)
        ensures
            r == self@.len(),
    {
        assert(self@.dom() =~= self.checkpointed@.dom());
        self.checkpointed.len()
    }
}

/// Storing the checkpoints and loading them again gives the same registry.
pub proof fn law_checkpoint_records_round_trip(
    records: Seq<CheckpointRecord>,
    m: Map<u32, CheckpointView>,
)
    requires
        lists_all(records, m),
    ensures
        checkpoint_map(records) == m,
{
    lemma_checkpoint_map(records);
    let loaded = checkpoint_map(records);
    assert forall|k: u32| #[trigger] loaded.contains_key(k) <==> m.contains_key(k) by {
        if loaded.contains_key(k) {
            let i = choose|i: int| 0 <= i < records.len() && (#[trigger] records[i]).0.0 == k;
            assert(m.contains_pair(records[i].0.0, record_view(records[i])));
        }
        if m.contains_key(k) {
            let i = choose|i: int| 0 <= i < records.len() && (#[trigger] records[i]).0.0 == k;
            assert(loaded.contains_pair(records[i].0.0, record_view(records[i])));
        }
    }
    assert forall|k: u32| #[trigger] loaded.contains_key(k) implies loaded[k] == m[k] by {
        let i = choose|i: int| 0 <= i < records.len() && (#[trigger] records[i]).0.0 == k;
        assert(m.contains_pair(records[i].0.0, record_view(records[i])));
        assert(loaded.contains_pair(records[i].0.0, record_view(records[i])));
    }
    assert(loaded =~= m);
}

proof fn lemma_checkpoint_map(records: Seq<CheckpointRecord>)
    requires
        forall|i: int, j: int|
            0 <= i < j < records.len() ==> (#[trigger] records[i]).0 != (#[trigger] records[j]).0,
    ensures
        forall|i: int|
            0 <= i < records.len() ==> checkpoint_map(records).contains_pair(
                (#[trigger] records[i]).0.0,
                record_view(records[i]),
            ),
        forall|k: u32| #[trigger]
            checkpoint_map(records).contains_key(k) ==> exists|i: int|
                0 <= i < records.len() && (#[trigger] records[i]).0.0 == k,
    decreases records.len(),
{
    if records.len() > 0 {
        let init = records.drop_last();
        lemma_checkpoint_map(init);
        assert forall|i: int| 0 <= i < records.len() implies checkpoint_map(records).contains_pair(
            (#[trigger] records[i]).0.0,
            record_view(records[i]),
        ) by {
            if i < init.len() {
                assert(init[i] == records[i]);
                assert(records[i].0 != records[records.len() - 1].0);
            }
        }
        assert forall|k: u32| #[trigger] checkpoint_map(records).contains_key(k) implies exists|
            i: int,
        | 0 <= i < records.len() && (#[trigger] records[i]).0.0 == k by {
            if k == records.last().0.0 {
                assert(records[records.len() - 1].0.0 == k);
            } else {
                assert(checkpoint_map(init).contains_key(k));
                let i = choose|i: int| 0 <= i < init.len() && (#[trigger] init[i]).0.0 == k;
                assert(records[i].0.0 == k);
            }
        }
    }
}

/// Of records for one process the last one counts, with all it says.
pub proof fn law_last_record_counts(
    records: Seq<FrozenRecord>,
    r: FrozenRecord,
    saved: Seq<CheckpointRecord>,
    c: CheckpointRecord,
)
    ensures
        frozen_map(Seq::empty()) == Map::<u32, FrozenView>::empty(),
        frozen_map(records.push(r)) == frozen_map(records).insert(r.0, (r.1@, r.2, r.3)),
        checkpoint_map(Seq::empty()) == Map::<u32, CheckpointView>::empty(),
        checkpoint_map(saved.push(c)).remove(c.0.0) == checkpoint_map(saved).remove(c.0.0),
        ({
            let v = checkpoint_map(saved.push(c))[c.0.0];
            &&& checkpoint_map(saved.push(c)).contains_key(c.0.0)
            &&& v.name == c.1@
            &&& v.snapshot_dir == c.2@
            &&& v.rss == c.3
            &&& v.attempts == c.4
        }),
{
    assert(records.push(r).drop_last() =~= records);
    assert(saved.push(c).drop_last() =~= saved);
    assert(checkpoint_map(saved.push(c)).remove(c.0.0) =~= checkpoint_map(saved).remove(c.0.0));
}

// ------------------------------------------------ laws of the functions

/// A process that was added is frozen until it is removed, under the name and with
/// the times that were given; others stay as they were.
pub proof fn law_added_then_removed(
    before: FrozenRegistry,
    with: FrozenRegistry,
    without: FrozenRegistry,
    pid: Pid,
    name: &str,
    start_time: u64,
    now: u64,
    added: bool,
    removed: bool,
    other: u32,
)
    requires
        exists|m: &mut FrozenRegistry| #[trigger]
            call_ensures(FrozenRegistry::add, (m, pid, name, Some(start_time), now), added) && *m
                == before && *final(m) == with,
        exists|m: &mut FrozenRegistry| #[trigger]
            call_ensures(FrozenRegistry::remove, (m, pid), removed) && *m == with && *final(m)
                == without,
        other != pid.0,
    ensures
        added && removed,
        with@.contains_pair(pid.0, (name@, now, start_time)),
        !without@.contains_key(pid.0),
        with@.contains_key(other) == before@.contains_key(other),
        before@.contains_key(other) ==> with@[other] == before@[other] && without@.contains_pair(
            other,
            before@[other],
        ),
{
}

/// What is known of a frozen process is what it was added with.
pub proof fn law_what_is_known_of_the_frozen(
    f: &FrozenRegistry,
    pid: Pid,
    frozen: bool,
    at: u64,
    start_time: u64,
)
    requires
        call_ensures(FrozenRegistry::is_frozen, (f, pid), frozen),
        call_ensures(FrozenRegistry::frozen_at, (f, pid), at),
        call_ensures(FrozenRegistry::start_time, (f, pid), start_time),
    ensures
        frozen <==> f@.contains_key(pid.0),
        frozen ==> f@[pid.0].1 == at && f@[pid.0].2 == start_time,
        !frozen ==> at == 0 && start_time == 0,
{
}

/// What is saved is loaded again.
pub proof fn law_saved_then_loaded(
    f: &FrozenRegistry,
    records: Vec<FrozenRecord>,
    g: FrozenRegistry,
)
    requires
        call_ensures(FrozenRegistry::save, (f,), records),
        call_ensures(FrozenRegistry::load, (&records,), g),
    ensures
        g@ == f@,
        records@.len() == f@.len(),
{
}

/// A checkpointed process starts without tries, and each try that failed is one
/// more.
pub proof fn law_tries_start_at_none(
    before: CheckpointRegistry,
    with: CheckpointRegistry,
    tried: CheckpointRegistry,
    pid: Pid,
    name: &str,
    dir: String,
    rss: Kb,
    other: u32,
)
    requires
        exists|m: &mut CheckpointRegistry| #[trigger]
            call_ensures(CheckpointRegistry::add, (m, pid, name, dir, rss), ()) && *m == before
                && *final(m) == with,
        exists|m: &mut CheckpointRegistry| #[trigger]
            call_ensures(CheckpointRegistry::increment_attempts, (m, pid), ()) && *m == with
                && *final(m) == tried,
        other != pid.0,
    ensures
        with@.contains_key(pid.0),
        with@[pid.0].attempts == 0,
        with@[pid.0].name == name@,
        with@[pid.0].snapshot_dir == dir@,
        with@[pid.0].rss == rss,
        tried@.contains_key(pid.0),
        tried@[pid.0].attempts == 1,
        tried@[pid.0].rss == rss,
        tried@[pid.0].snapshot_dir == dir@,
        before@.contains_key(other) ==> tried@.contains_pair(other, before@[other]),
        tried@.contains_key(other) ==> before@.contains_key(other),
{
}

} // verus!
