//! Battery state kept up to date from kernel uevent records.
//!
//! The state is a mapping from a device path to that battery's capacity
//! figures and status string. Add/change records upsert an entry, remove
//! records delete one; records that do not carry the battery fields are
//! skipped without error, since most uevents concern other devices.

use vstd::prelude::*;

use crate::num::parse_u64_spec;
use crate::num::parse_u64_with_io_error;
use crate::uevent::Event;
use crate::uevent::VarMap;

verus! {

/// What one battery reported: its capacity when full, its current capacity,
/// and its status text.
pub struct BatteryInfo {
    /// The capacity of the full battery; never zero.
    pub energy_full: u64,
    /// The current capacity.
    pub energy_now: u64,
    /// The status text reported by the kernel.
    pub status: String,
}

/// The mathematical value of a [`BatteryInfo`].
pub struct BatteryInfoView {
    pub energy_full: u64,
    pub energy_now: u64,
    pub status: Seq<char>,
}

impl View for BatteryInfo {
    type V = BatteryInfoView;

    open spec fn view(&self) -> BatteryInfoView {
        BatteryInfoView {
            energy_full: self.energy_full,
            energy_now: self.energy_now,
            status: self.status@,
        }
    }
}

impl BatteryInfoView {
    /// A battery entry never records a zero full capacity.
    pub open spec fn wf(&self) -> bool {
        self.energy_full > 0
    }
}

/// A record was missing one of the battery fields, or a capacity field was
/// not a positive number. Expected for devices that are not batteries.
#[derive(Clone, Copy, PartialEq, Eq, Structural, Debug)]
pub struct MissingOrInvalidProperty;

/// The battery entry denoted by a variable set: present exactly when both
/// capacity fields are numeric, the full capacity is positive, and a status
/// field is there.
pub open spec fn battery_from_vars_spec(vars: Map<Seq<char>, Seq<char>>) -> Option<
    BatteryInfoView,
> {
    if vars.contains_key("POWER_SUPPLY_ENERGY_FULL"@) && vars.contains_key(
        "POWER_SUPPLY_ENERGY_NOW"@,
    ) && vars.contains_key("POWER_SUPPLY_STATUS"@) {
        match (
            parse_u64_spec(vars["POWER_SUPPLY_ENERGY_FULL"@]),
            parse_u64_spec(vars["POWER_SUPPLY_ENERGY_NOW"@]),
        ) {
            (Some(full), Some(now)) => if full > 0 {
                Some(
                    BatteryInfoView {
                        energy_full: full,
                        energy_now: now,
                        status: vars["POWER_SUPPLY_STATUS"@],
                    },
                )
            } else {
                None
            },
            _ => None,
        }
    } else {
        None
    }
}

/// Builds a battery entry from a record's variables, if the record carries
/// the battery fields.
pub fn battery_from_vars(vars: &VarMap) -> (r: Result<BatteryInfo, MissingOrInvalidProperty>)
    requires
        vars.wf(),
    ensures
        match r {
            Ok(info) => battery_from_vars_spec(vars@) == Some(info@) && info@.wf(),
            Err(_) => battery_from_vars_spec(vars@) is None,
        },
{
    let full = match vars.get("POWER_SUPPLY_ENERGY_FULL") {
        Some(s) => match parse_u64_with_io_error(s.as_str()) {
            Ok(v) => v,
            Err(_) => {
                return Err(MissingOrInvalidProperty);
            },
        },
        None => {
            return Err(MissingOrInvalidProperty);
        },
    };
    let now = match vars.get("POWER_SUPPLY_ENERGY_NOW") {
        Some(s) => match parse_u64_with_io_error(s.as_str()) {
            Ok(v) => v,
            Err(_) => {
                return Err(MissingOrInvalidProperty);
            },
        },
        None => {
            return Err(MissingOrInvalidProperty);
        },
    };
    let status = match vars.get("POWER_SUPPLY_STATUS") {
        Some(s) => s.clone(),
        None => {
            return Err(MissingOrInvalidProperty);
        },
    };
    if full == 0 {
        return Err(MissingOrInvalidProperty);
    }
    Ok(BatteryInfo { energy_full: full, energy_now: now, status })
}

/// The mapping denoted by a list of battery entries; keys are kept distinct,
/// so the order of the list does not matter.
pub closed spec fn entries_map(ps: Seq<(String, BatteryInfo)>) -> Map<Seq<char>, BatteryInfoView>
    decreases ps.len(),
{
    if ps.len() == 0 {
        Map::empty()
    } else {
        entries_map(ps.drop_last()).insert(ps.last().0@, ps.last().1@)
    }
}

/// The batteries currently known, keyed by device path.
pub struct Batteries {
    entries: Vec<(String, BatteryInfo)>,
}

impl View for Batteries {
    type V = Map<Seq<char>, BatteryInfoView>;

    closed spec fn view(&self) -> Map<Seq<char>, BatteryInfoView> {
        entries_map(self.entries@)
    }
}

impl Batteries {
    /// Device paths are pairwise distinct and every entry is well formed.
    pub closed spec fn wf(&self) -> bool {
        &&& forall|i: int, j: int|
            0 <= i < j < self.entries@.len() ==> (#[trigger] self.entries@[i]).0@ != (
            #[trigger] self.entries@[j]).0@
        &&& forall|i: int|
            0 <= i < self.entries@.len() ==> (#[trigger] self.entries@[i]).1@.wf()
    }

    /// An empty battery map.
    pub fn new() -> (r: Batteries)
        ensures
            r.wf(),
            r@ == Map::<Seq<char>, BatteryInfoView>::empty(),
    {
        Batteries { entries: Vec::new() }
    }

    /// How many batteries are known.
    pub fn len(&self) -> (r: usize)
        requires
            self.wf(),
        ensures
            r == self@.dom().len(),
    {
        proof {
            lemma_entries_map_len(self.entries@);
        }
        self.entries.len()
    }

    /// The device path and entry at one position of the map; positions
    /// enumerate the entries, in no promised order.
    pub fn entry_at(&self, i: usize) -> (r: (&String, &BatteryInfo))
        requires
            self.wf(),
            i < self@.dom().len(),
        ensures
            self@.contains_key(r.0@),
            self@[r.0@] == r.1@,
            r.1@.wf(),
    {
        proof {
            lemma_entries_map_len(self.entries@);
            lemma_entries_map_found(self.entries@, i as int);
        }
        let p = &self.entries[i];
        (&p.0, &p.1)
    }

    /// Inserts or replaces the entry for a device path.
    pub fn upsert(&mut self, devpath: String, info: BatteryInfo)
        requires
            old(self).wf(),
            info@.wf(),
        ensures
            final(self).wf(),
            final(self)@ == old(self)@.insert(devpath@, info@),
    {
        let n: usize = self.entries.len();
        let mut i: usize = 0;
        while i < n
            invariant
                self.entries@ == old(self).entries@,
                self.wf(),
                info@.wf(),
                i <= n == self.entries@.len(),
                forall|k: int| 0 <= k < i ==> (#[trigger] self.entries@[k]).0@ != devpath@,
            decreases n - i,
        {
            if crate::uevent::str_eq(self.entries[i].0.as_str(), devpath.as_str()) {
                let ghost dv = devpath@;
                let ghost iv = info@;
                let ghost before = self.entries@;
                proof {
                    lemma_entries_map_remove(before, i as int);
                }
                let _ = self.entries.remove(i);
                let ghost removed = self.entries@;
                proof {
                    assert forall|k: int| 0 <= k < removed.len() implies (
                        #[trigger] removed[k]).0@ != dv by {
                        if k < i {
                            assert(removed[k] == before[k]);
                        } else {
                            assert(removed[k] == before[k + 1]);
                        }
                    }
                    assert forall|a: int, b: int| 0 <= a < b < removed.len() implies (
                        #[trigger] removed[a]).0@ != (#[trigger] removed[b]).0@ by {
                        let a0: int = if a < i { a } else { a + 1 };
                        let b0: int = if b < i { b } else { b + 1 };
                        assert(removed[a] == before[a0]);
                        assert(removed[b] == before[b0]);
                    }
                    assert forall|k: int| 0 <= k < removed.len() implies (
                        #[trigger] removed[k]).1@.wf() by {
                        if k < i {
                            assert(removed[k] == before[k]);
                        } else {
                            assert(removed[k] == before[k + 1]);
                        }
                    }
                    lemma_entries_map_absent(removed, dv);
                }
                self.entries.push((devpath, info));
                proof {
                    assert(self.entries@.drop_last() =~= removed);
                    assert(self.entries@.last().0@ == dv);
                    assert(self.entries@.last().1@ == iv);
                    let fin = self.entries@;
                    assert forall|a: int, b: int| 0 <= a < b < fin.len() implies (
                        #[trigger] fin[a]).0@ != (#[trigger] fin[b]).0@ by {
                        if b < fin.len() - 1 {
                            assert(fin[a] == removed[a] && fin[b] == removed[b]);
                        } else {
                            assert(fin[a] == removed[a]);
                        }
                    }
                    assert forall|k: int| 0 <= k < fin.len() implies (
                        #[trigger] fin[k]).1@.wf() by {
                        if k < fin.len() - 1 {
                            assert(fin[k] == removed[k]);
                        } else {
                            assert(fin[k].1@ == iv);
                        }
                    }
                    assert(entries_map(self.entries@) == entries_map(removed).insert(dv, iv));
                    assert(entries_map(removed) == entries_map(before).remove(dv));
                    assert(entries_map(before).remove(dv).insert(dv, iv) =~= entries_map(
                        before,
                    ).insert(dv, iv));
                }
                return ;
            }
            i = i + 1;
        }
        proof {
            lemma_entries_map_absent(self.entries@, devpath@);
        }
        let ghost before = self.entries@;
        self.entries.push((devpath, info));
        assert(self.entries@.drop_last() =~= before);
    }

    /// Removes the entry for a device path; reports whether one was there.
    pub fn remove(&mut self, devpath: &str) -> (r: bool)
        requires
            old(self).wf(),
        ensures
            final(self).wf(),
            r == old(self)@.contains_key(devpath@),
            final(self)@ == if old(self)@.contains_key(devpath@) {
                old(self)@.remove(devpath@)
            } else {
                old(self)@
            },
    {
        let n: usize = self.entries.len();
        let mut i: usize = 0;
        while i < n
            invariant
                self.entries@ == old(self).entries@,
                self.wf(),
                i <= n == self.entries@.len(),
                forall|k: int| 0 <= k < i ==> (#[trigger] self.entries@[k]).0@ != devpath@,
            decreases n - i,
        {
            if crate::uevent::str_eq(self.entries[i].0.as_str(), devpath) {
                let ghost dv = devpath@;
                let ghost before = self.entries@;
                proof {
                    lemma_entries_map_found(before, i as int);
                    lemma_entries_map_remove(before, i as int);
                }
                let _ = self.entries.remove(i);
                let ghost removed = self.entries@;
                proof {
                    assert forall|a: int, b: int| 0 <= a < b < removed.len() implies (
                        #[trigger] removed[a]).0@ != (#[trigger] removed[b]).0@ by {
                        let a0: int = if a < i { a } else { a + 1 };
                        let b0: int = if b < i { b } else { b + 1 };
                        assert(removed[a] == before[a0]);
                        assert(removed[b] == before[b0]);
                    }
                    assert forall|k: int| 0 <= k < removed.len() implies (
                        #[trigger] removed[k]).1@.wf() by {
                        if k < i {
                            assert(removed[k] == before[k]);
                        } else {
                            assert(removed[k] == before[k + 1]);
                        }
                    }
                }
                return true;
            }
            i = i + 1;
        }
        proof {
            lemma_entries_map_absent(self.entries@, devpath@);
        }
        false
    }
}

/// In a list with pairwise distinct keys, the entry at `i` decides its key's
/// binding.
proof fn lemma_entries_map_found(ps: Seq<(String, BatteryInfo)>, i: int)
    requires
        0 <= i < ps.len(),
        forall|a: int, b: int|
            0 <= a < b < ps.len() ==> (#[trigger] ps[a]).0@ != (#[trigger] ps[b]).0@,
    ensures
        entries_map(ps).contains_key(ps[i].0@),
        entries_map(ps)[ps[i].0@] == ps[i].1@,
    decreases ps.len(),
{
    if i < ps.len() - 1 {
        lemma_entries_map_found(ps.drop_last(), i);
    }
}

/// A key held by no entry is not in the denoted mapping.
proof fn lemma_entries_map_absent(ps: Seq<(String, BatteryInfo)>, key: Seq<char>)
    requires
        forall|k: int| 0 <= k < ps.len() ==> (#[trigger] ps[k]).0@ != key,
    ensures
        !entries_map(ps).contains_key(key),
    decreases ps.len(),
{
    if ps.len() > 0 {
        lemma_entries_map_absent(ps.drop_last(), key);
    }
}

/// Removing the entry at `i` removes exactly its key from the mapping.
proof fn lemma_entries_map_remove(ps: Seq<(String, BatteryInfo)>, i: int)
    requires
        0 <= i < ps.len(),
        forall|a: int, b: int|
            0 <= a < b < ps.len() ==> (#[trigger] ps[a]).0@ != (#[trigger] ps[b]).0@,
    ensures
        entries_map(ps.remove(i)) =~= entries_map(ps).remove(ps[i].0@),
    decreases ps.len(),
{
    if i == ps.len() - 1 {
        assert(ps.remove(i) =~= ps.drop_last());
        lemma_entries_map_absent(ps.drop_last(), ps[i].0@);
        assert(entries_map(ps.drop_last()) =~= entries_map(ps).remove(ps[i].0@));
    } else {
        assert(ps.remove(i).drop_last() =~= ps.drop_last().remove(i));
        assert(ps.remove(i).last() == ps.last());
        lemma_entries_map_remove(ps.drop_last(), i);
        assert(entries_map(ps.remove(i)) =~= entries_map(ps.drop_last()).remove(
            ps[i].0@,
        ).insert(ps.last().0@, ps.last().1@));
        assert(entries_map(ps.drop_last()).remove(ps[i].0@).insert(ps.last().0@, ps.last().1@)
            =~= entries_map(ps).remove(ps[i].0@));
    }
}

/// With pairwise distinct keys, the mapping has one binding per entry.
proof fn lemma_entries_map_len(ps: Seq<(String, BatteryInfo)>)
    requires
        forall|a: int, b: int|
            0 <= a < b < ps.len() ==> (#[trigger] ps[a]).0@ != (#[trigger] ps[b]).0@,
    ensures
        entries_map(ps).dom().len() == ps.len(),
        entries_map(ps).dom().finite(),
    decreases ps.len(),
{
    if ps.len() > 0 {
        lemma_entries_map_len(ps.drop_last());
        lemma_entries_map_absent(ps.drop_last(), ps.last().0@);
    }
}

/// What applying one record does to the battery map: an add/change record
/// with valid battery fields upserts the device's entry and is dirty; a
/// remove record deletes the entry and is dirty exactly when one was there;
/// everything else, including records without `ACTION` or `DEVPATH`, is
/// skipped cleanly.
pub open spec fn apply_event_spec(
    m: Map<Seq<char>, BatteryInfoView>,
    vars: Map<Seq<char>, Seq<char>>,
) -> (Map<Seq<char>, BatteryInfoView>, bool) {
    if !(vars.contains_key("ACTION"@) && vars.contains_key("DEVPATH"@)) {
        (m, false)
    } else {
        let action = vars["ACTION"@];
        let dev = vars["DEVPATH"@];
        if action == "add"@ || action == "change"@ {
            match battery_from_vars_spec(vars) {
                Some(info) => (m.insert(dev, info), true),
                None => (m, false),
            }
        } else if action == "remove"@ {
            if m.contains_key(dev) {
                (m.remove(dev), true)
            } else {
                (m, false)
            }
        } else {
            (m, false)
        }
    }
}

/// What applying a whole batch of records, in order, does to the battery
/// map; dirty when any record was.
pub open spec fn apply_events_spec(
    m: Map<Seq<char>, BatteryInfoView>,
    events: Seq<Event>,
) -> (Map<Seq<char>, BatteryInfoView>, bool)
    decreases events.len(),
{
    if events.len() == 0 {
        (m, false)
    } else {
        let prev = apply_events_spec(m, events.drop_last());
        let step = apply_event_spec(prev.0, events.last().vars@);
        (step.0, prev.1 || step.1)
    }
}

impl Batteries {
    /// Applies one uevent record and reports whether the map changed in a
    /// way that warrants a re-render.
    pub fn apply_event(&mut self, event: &Event) -> (dirty: bool)
        requires
            old(self).wf(),
            event.vars.wf(),
        ensures
            final(self).wf(),
            (final(self)@, dirty) == apply_event_spec(old(self)@, event.vars@),
    {
        let action = match event.vars.get("ACTION") {
            Some(a) => a,
            None => {
                return false;
            },
        };
        let devpath = match event.vars.get("DEVPATH") {
            Some(d) => d,
            None => {
                return false;
            },
        };
        if crate::uevent::str_eq(action.as_str(), "add") || crate::uevent::str_eq(
            action.as_str(),
            "change",
        ) {
            match battery_from_vars(&event.vars) {
                Ok(info) => {
                    let dp = devpath.clone();
                    self.upsert(dp, info);
                    true
                },
                Err(_) => false,
            }
        } else if crate::uevent::str_eq(action.as_str(), "remove") {
            self.remove(devpath.as_str())
        } else {
            false
        }
    }

    /// Applies a batch of drained records in order and reports whether any
    /// of them changed the map.
    pub fn apply_events(&mut self, events: &Vec<Event>) -> (dirty: bool)
        requires
            old(self).wf(),
            forall|i: int| 0 <= i < events@.len() ==> (#[trigger] events@[i]).vars.wf(),
        ensures
            final(self).wf(),
            (final(self)@, dirty) == apply_events_spec(old(self)@, events@),
    {
        let mut dirty = false;
        let n: usize = events.len();
        let mut i: usize = 0;
        while i < n
            invariant
                i <= n == events@.len(),
                forall|k: int| 0 <= k < events@.len() ==> (#[trigger] events@[k]).vars.wf(),
                self.wf(),
                (self@, dirty) == apply_events_spec(old(self)@, events@.subrange(0, i as int)),
            decreases n - i,
        {
            let d = self.apply_event(&events[i]);
            proof {
                assert(events@.subrange(0, i + 1).drop_last() =~= events@.subrange(0, i as int));
                assert(events@.subrange(0, i + 1).last() == events@[i as int]);
            }
            dirty = dirty || d;
            i = i + 1;
        }
        proof {
            assert(events@.subrange(0, n as int) =~= events@);
        }
        dirty
    }
}

/// The percentage shown for a battery: the current capacity's share of the
/// full capacity, rounded down (clamped into the displayed integer's range).
pub open spec fn percentage_spec(info: BatteryInfoView) -> int
    recommends
        info.wf(),
{
    let p = info.energy_now as int * 100 / info.energy_full as int;
    if p > u64::MAX {
        u64::MAX as int
    } else {
        p
    }
}

/// Computes the displayed percentage of a battery entry.
pub fn battery_percentage(info: &BatteryInfo) -> (r: u64)
    requires
        info@.wf(),
    ensures
        r == percentage_spec(info@),
{
    let wide: u128 = (info.energy_now as u128) * 100 / (info.energy_full as u128);
    if wide > u64::MAX as u128 {
        u64::MAX
    } else {
        wide as u64
    }
}

/// A battery percentage at or below 15 is flagged as a warning.
pub fn battery_is_warning(percentage: u64) -> (r: bool)
    ensures
        r == (percentage <= 15),
{
    percentage <= 15
}

/// Every entry of a battery map records a positive full capacity.
pub open spec fn all_entries_wf(m: Map<Seq<char>, BatteryInfoView>) -> bool {
    forall|k: Seq<char>| m.contains_key(k) ==> (#[trigger] m[k]).wf()
}

/// Applying any record keeps the battery invariant: a record whose full
/// capacity is zero or non-numeric never enters the map, so every entry of
/// every reachable map has a positive full capacity.
pub proof fn lemma_apply_event_preserves_wf(
    m: Map<Seq<char>, BatteryInfoView>,
    vars: Map<Seq<char>, Seq<char>>,
)
    requires
        all_entries_wf(m),
    ensures
        all_entries_wf(apply_event_spec(m, vars).0),
{
}

/// Applying an add or change record carrying valid battery fields to an
/// empty battery map yields exactly one entry, keyed by the record's device
/// path and holding the parsed fields, and reports dirty.
pub proof fn lemma_add_to_empty_yields_single_entry(vars: Map<Seq<char>, Seq<char>>)
    requires
        vars.contains_key("ACTION"@),
        vars["ACTION"@] == "add"@ || vars["ACTION"@] == "change"@,
        vars.contains_key("DEVPATH"@),
        battery_from_vars_spec(vars) is Some,
    ensures
        apply_event_spec(Map::empty(), vars).1,
        apply_event_spec(Map::empty(), vars).0 == Map::empty().insert(
            vars["DEVPATH"@],
            battery_from_vars_spec(vars).unwrap(),
        ),
        apply_event_spec(Map::empty(), vars).0.dom() =~= set![vars["DEVPATH"@]],
{
}

/// Applying a remove record whose device path has no entry is a no-op and
/// reports not dirty.
pub proof fn lemma_remove_absent_is_clean(
    m: Map<Seq<char>, BatteryInfoView>,
    vars: Map<Seq<char>, Seq<char>>,
)
    requires
        vars.contains_key("ACTION"@),
        vars["ACTION"@] == "remove"@,
        vars.contains_key("DEVPATH"@),
        !m.contains_key(vars["DEVPATH"@]),
    ensures
        apply_event_spec(m, vars) == (m, false),
{
    reveal_strlit("remove");
    reveal_strlit("add");
    reveal_strlit("change");
    assert("remove"@.len() == 6 && "add"@.len() == 3 && "change"@.len() == 6);
    assert("remove"@[0] == 'r' && "change"@[0] == 'c');
    assert("remove"@ != "add"@);
    assert("remove"@ != "change"@);
}

/// A refresh that drains no records leaves the batteries unchanged and
/// reports not dirty; in particular a second refresh with nothing pending
/// is never dirty.
pub proof fn lemma_no_events_is_clean(m: Map<Seq<char>, BatteryInfoView>)
    ensures
        apply_events_spec(m, Seq::empty()) == (m, false),
{
}

/// The link prefix that a power-supply device symlink target starts with.
pub open spec fn link_prefix() -> Seq<u8> {
    seq![46u8, 46u8, 47u8, 46u8, 46u8]
}

/// The device path encoded in a power-supply symlink target: what follows
/// the leading `../..`; a target without that prefix is not a device link.
pub fn devpath_from_link(target: &[u8]) -> (r: Option<Vec<u8>>)
    ensures
        match r {
            Some(v) => target@.len() >= 5 && target@.subrange(0, 5) == link_prefix() && v@
                == target@.subrange(5, target@.len() as int),
            None => !(target@.len() >= 5 && target@.subrange(0, 5) == link_prefix()),
        },
{
    if target.len() >= 5 && target[0] == 46 && target[1] == 46 && target[2] == 47 && target[3]
        == 46 && target[4] == 46 {
        assert(target@.subrange(0, 5) =~= link_prefix());
        Some(crate::scan::subrange_vec(target, 5, target.len()))
    } else {
        proof {
            if target@.len() >= 5 && target@.subrange(0, 5) == link_prefix() {
                assert(target@[0] == 46 && target@[1] == 46 && target@[2] == 47 && target@[3]
                    == 46 && target@[4] == 46) by {
                    assert(forall|i: int|
                        0 <= i < 5 ==> target@[i] == target@.subrange(0, 5)[i]);
                }
            }
        }
        None
    }
}

} // verus!
