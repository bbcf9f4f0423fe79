//! Compaction: trigger evaluation and the merge that absorbs a Delta's
//! sealed segments and active buffer into one rebuilt lineage, discarding
//! superseded versions and, above the purge ratio, Tombstoned vectors.
//!
//! Ratified triggers:
//! - accumulated change ≥ max(1% of Table rows, 100 000), or
//! - ≥ 4 unmerged (sealed) segments;
//! - a Tombstone ratio above 20% makes merge drop hidden vectors physically.
//!
//! Accumulated change counts rows living in sealed segments plus known
//! Tombstoned ids. Fractions are given in parts per million.

use vstd::prelude::*;

use std::collections::HashSet;

use crate::errors::Result;
use crate::search::{candidates, lemma_sort_keeps_elements, rank_order, sort_scored, Predicate, Scored};
use vstd::relations::sorted_by;
use crate::write_path::{apply_inserts, conforms, ids_of, Delta, InsertRecord, RecordView, TARGET_SEGMENT_ROWS};

verus! {

/// Accumulated-change fraction of total Table rows that arms the trigger,
/// in parts per million (1%).
pub const COMPACTION_CHANGE_FRACTION_PPM: u64 = 10_000;
/// Absolute accumulated-change floor of the trigger ("max(1%, this)").
pub const COMPACTION_MIN_CHANGED_ROWS: u64 = 100_000;
/// Unmerged segment count that arms the trigger independently.
pub const COMPACTION_DELTA_COUNT_TRIGGER: usize = 4;
/// Dead-row fraction above which merge physically drops hidden vectors, in
/// parts per million (20%).
pub const TOMBSTONE_PURGE_RATIO_PPM: u64 = 200_000;

/// Tunable thresholds. The defaults encode the ratified numbers.
#[derive(Debug, Clone, Copy, PartialEq, Eq)]
pub struct CompactionConfig {
    /// Fraction of the Table's rows, in parts per million.
    pub change_fraction_ppm: u64,
    pub min_changed_rows: u64,
    pub delta_count_trigger: usize,
    /// Dead-row fraction above which merge purges, in parts per million.
    pub purge_ratio_ppm: u64,
}

impl Default for CompactionConfig {
    fn default() -> (c: Self)
        ensures
            c.change_fraction_ppm == COMPACTION_CHANGE_FRACTION_PPM,
            c.min_changed_rows == COMPACTION_MIN_CHANGED_ROWS,
            c.delta_count_trigger == COMPACTION_DELTA_COUNT_TRIGGER,
            c.purge_ratio_ppm == TOMBSTONE_PURGE_RATIO_PPM,
    {
        CompactionConfig {
            change_fraction_ppm: COMPACTION_CHANGE_FRACTION_PPM,
            min_changed_rows: COMPACTION_MIN_CHANGED_ROWS,
            delta_count_trigger: COMPACTION_DELTA_COUNT_TRIGGER,
            purge_ratio_ppm: TOMBSTONE_PURGE_RATIO_PPM,
        }
    }
}

/// Why a compaction ran (or that none was needed).
#[derive(Debug, Clone, Copy, PartialEq, Eq, Structural)]
pub enum TriggerKind {
    /// Explicit compaction request: always runs regardless of thresholds.
    Manual,
    /// Accumulated change reached max(fraction × rows, floor).
    ChangeThreshold,
    /// Sealed segment count reached the configured trigger.
    DeltaCount,
    /// Thresholds not met.
    Unarmed,
}

/// Outcome statistics of one compaction.
#[derive(Debug, Clone, Copy, PartialEq, Eq)]
pub struct CompactionReport {
    pub trigger: TriggerKind,
    pub segments_before: usize,
    pub segments_after: usize,
    pub rows_before: usize,
    pub rows_after: usize,
    /// Dead rows physically dropped by the purge path (ratio above the
    /// purge ratio).
    pub tombstones_purged: usize,
    /// Fully hidden ids physically retained at or below the purge ratio.
    pub tombstones_retained: usize,
}

/// Rows in sealed segments plus Tombstoned ids.
pub open spec fn accumulated_change(d: Delta) -> int {
    ((d.spec_records().len() / (TARGET_SEGMENT_ROWS as nat)) * (TARGET_SEGMENT_ROWS as nat)
        + d.spec_hidden().len()) as int
}

/// `rows × ppm / 10^6`, rounded down and saturated at `u64::MAX`.
pub open spec fn fraction_rows(rows: nat, ppm: u64) -> int {
    let v = ((rows * ppm) / 1_000_000) as int;
    if v > u64::MAX { u64::MAX as int } else { v }
}

/// The change threshold: max(fraction × rows, floor).
pub open spec fn change_threshold(c: CompactionConfig, rows: nat) -> int {
    let f = fraction_rows(rows, c.change_fraction_ppm);
    if f > c.min_changed_rows { f } else { c.min_changed_rows as int }
}

/// Which trigger the thresholds arm for a Delta.
pub open spec fn trigger_for(c: CompactionConfig, d: Delta) -> TriggerKind {
    if accumulated_change(d) >= change_threshold(c, d.spec_records().len()) {
        TriggerKind::ChangeThreshold
    } else if d.spec_records().len() / (TARGET_SEGMENT_ROWS as nat) >= c.delta_count_trigger {
        TriggerKind::DeltaCount
    } else {
        TriggerKind::Unarmed
    }
}

/// The change trigger arms exactly when the rows held in sealed segments
/// (whole segments of [`TARGET_SEGMENT_ROWS`]) plus the Tombstoned ids reach
/// max(fraction × rows, floor), where fraction × rows is `rows × ppm / 10^6`
/// rounded down and capped at `u64::MAX`; it takes precedence over the
/// sealed-segment count, which arms only below that threshold.
pub proof fn lemma_change_trigger_counts_sealed_rows_and_tombstones(c: CompactionConfig, d: Delta)
    ensures
        ({
            let rows = d.spec_records().len();
            let sealed_rows = (rows / (TARGET_SEGMENT_ROWS as nat)) * (TARGET_SEGMENT_ROWS as nat);
            let changed = sealed_rows + d.spec_hidden().len();
            let scaled: int = (rows * c.change_fraction_ppm) / 1_000_000;
            let fraction: int = if scaled > u64::MAX { u64::MAX as int } else { scaled };
            let threshold: int = if fraction > c.min_changed_rows { fraction } else { c.min_changed_rows as int };
            &&& (trigger_for(c, d) == TriggerKind::ChangeThreshold) <==> changed >= threshold
            &&& (trigger_for(c, d) == TriggerKind::DeltaCount) <==> (changed < threshold
                && rows / (TARGET_SEGMENT_ROWS as nat) >= c.delta_count_trigger)
        }),
{
}

/// Trigger evaluation over a Delta snapshot.
pub fn evaluate_trigger(config: &CompactionConfig, delta: &Delta) -> (t: TriggerKind)
    ensures
        t == trigger_for(*config, *delta),
{
    let sealed = delta.sealed_segment_count();
    let sealed_rows = (sealed as u128) * (TARGET_SEGMENT_ROWS as u128);
    let changed = sealed_rows + delta.tombstoned_id_count() as u128;
    let rows = delta.len() as u128;
    assert(rows * (config.change_fraction_ppm as u128) <= u64::MAX * u64::MAX) by (nonlinear_arith)
        requires
            rows <= u64::MAX,
            config.change_fraction_ppm <= u64::MAX,
    ;
    let product = rows * (config.change_fraction_ppm as u128) / 1_000_000;
    let fraction = if product > u64::MAX as u128 { u64::MAX as u128 } else { product };
    let threshold = if fraction > config.min_changed_rows as u128 {
        fraction
    } else {
        config.min_changed_rows as u128
    };
    if changed >= threshold {
        TriggerKind::ChangeThreshold
    } else if sealed >= config.delta_count_trigger {
        TriggerKind::DeltaCount
    } else {
        TriggerKind::Unarmed
    }
}

/// Whether the thresholds arm an automatic compaction for this snapshot.
pub fn should_compact(config: &CompactionConfig, delta: &Delta) -> (b: bool)
    ensures
        b == (trigger_for(*config, *delta) != TriggerKind::Unarmed),
{
    match evaluate_trigger(config, delta) {
        TriggerKind::Unarmed => false,
        _ => true,
    }
}


// ---------------------------------------------------------------------------
// Merge.
// ---------------------------------------------------------------------------

/// The ids of `s` are pairwise distinct.
pub open spec fn distinct_ids(s: Seq<RecordView>) -> bool {
    forall|i: int, j: int| 0 <= i < j < s.len() ==> s[i].id != s[j].id
}

/// Inserting records with pairwise distinct ids adds exactly one entry per
/// record and leaves every other entry alone.
pub proof fn lemma_apply_distinct(l: Map<u64, RecordView>, s: Seq<RecordView>)
    requires
        distinct_ids(s),
    ensures
        forall|id: u64| #[trigger] apply_inserts(l, s).contains_key(id)
            <==> (l.contains_key(id) || ids_of(s).contains(id)),
        forall|i: int| 0 <= i < s.len() ==> apply_inserts(l, s)[#[trigger] s[i].id] == s[i],
        forall|id: u64| !ids_of(s).contains(id) && l.contains_key(id)
            ==> #[trigger] apply_inserts(l, s)[id] == l[id],
    decreases s.len(),
{
    if s.len() == 0 {
        assert forall|id: u64| !ids_of(s).contains(id) by {}
        assert(apply_inserts(l, s) == l);
    } else {
        let t = s.drop_last();
        lemma_apply_distinct(l, t);
        let x = s.last();
        assert(apply_inserts(l, s) == apply_inserts(l, t).insert(x.id, x));
        assert forall|id: u64| ids_of(s).contains(id) <==> (ids_of(t).contains(id) || id == x.id) by {
            if ids_of(s).contains(id) {
                let p = choose|p: int| 0 <= p < s.len() && s[p].id == id;
                if p < t.len() {
                    assert(t[p].id == id);
                }
            }
            if ids_of(t).contains(id) {
                let p = choose|p: int| 0 <= p < t.len() && t[p].id == id;
                assert(s[p].id == id);
            }
            if id == x.id {
                assert(s[s.len() - 1].id == id);
            }
        }
        assert forall|id: u64| #[trigger] apply_inserts(l, s).contains_key(id)
            <==> (l.contains_key(id) || ids_of(s).contains(id)) by {
            assert(apply_inserts(l, t).contains_key(id) <==> (l.contains_key(id) || ids_of(t).contains(id)));
        }
        assert forall|i: int| 0 <= i < s.len() implies apply_inserts(l, s)[#[trigger] s[i].id] == s[i] by {
            if i < t.len() {
                assert(t[i] == s[i]);
                assert(s[i].id != x.id);
            }
        }
        assert forall|id: u64| !ids_of(s).contains(id) && l.contains_key(id)
            implies #[trigger] apply_inserts(l, s)[id] == l[id] by {
            assert(!ids_of(t).contains(id));
            assert(id != x.id);
            assert(apply_inserts(l, t)[id] == l[id]);
        }
    }
}

/// Positions of the visible records, ascending, each tagged with its id;
/// and the number of dead records.
fn visible_positions(delta: &Delta) -> (r: (Vec<Scored>, usize))
    requires
        delta.wf(),
    ensures
        r.0@.len() + r.1 == delta.spec_records().len(),
        forall|k: int| 0 <= k < r.0@.len() ==> {
            let t = #[trigger] r.0@[k];
            &&& t.0 == 0
            &&& t.2 < delta.spec_records().len()
            &&& !delta.is_dead(t.2 as int)
            &&& t.1 == delta.spec_records()[t.2 as int].id
        },
        forall|j: int, k: int| 0 <= j < k < r.0@.len() ==> r.0@[j].2 < r.0@[k].2,
        forall|p: int| 0 <= p < delta.spec_records().len() && !delta.is_dead(p)
            ==> exists|k: int| 0 <= k < r.0@.len() && #[trigger] r.0@[k].2 == p,
{
    let records = delta.records();
    let mut vis: Vec<Scored> = Vec::new();
    let mut dead: usize = 0;
    for p in 0..records.len()
        invariant
            delta.wf(),
            records@.len() == delta.spec_records().len(),
            forall|m: int| 0 <= m < records@.len() ==> #[trigger] records@[m]@ == delta.spec_records()[m],
            vis@.len() + dead == p,
            forall|k: int| 0 <= k < vis@.len() ==> {
                let t = #[trigger] vis@[k];
                &&& t.0 == 0
                &&& t.2 < p
                &&& !delta.is_dead(t.2 as int)
                &&& t.1 == delta.spec_records()[t.2 as int].id
            },
            forall|j: int, k: int| 0 <= j < k < vis@.len() ==> vis@[j].2 < vis@[k].2,
            forall|m: int| 0 <= m < p && !delta.is_dead(m)
                ==> exists|k: int| 0 <= k < vis@.len() && #[trigger] vis@[k].2 == m,
    {
        let ghost before = vis@;
        if delta.is_record_tombstoned(p) {
            dead = dead + 1;
        } else {
            vis.push((0, records[p].id(), p));
        }
        proof {
            assert forall|m: int| 0 <= m < p + 1 && !delta.is_dead(m)
                implies exists|k: int| 0 <= k < vis@.len() && #[trigger] vis@[k].2 == m by {
                if m == p {
                    assert(vis@[vis@.len() - 1].2 == m);
                } else {
                    let k = choose|k: int| 0 <= k < before.len() && #[trigger] before[k].2 == m;
                    assert(vis@[k].2 == m);
                }
            }
        }
    }
    (vis, dead)
}

/// The newest record of each Tombstoned id, tagged with its id.
fn hidden_newest(delta: &Delta) -> (r: Vec<Scored>)
    requires
        delta.wf(),
    ensures
        forall|k: int| 0 <= k < r@.len() ==> {
            let t = #[trigger] r@[k];
            &&& t.0 == 0
            &&& t.2 < delta.spec_records().len()
            &&& delta.spec_hidden().contains(t.1)
            &&& t.1 == delta.spec_records()[t.2 as int].id
            &&& forall|q: int| t.2 < q < delta.spec_records().len() ==> delta.spec_records()[q].id != t.1
        },
        forall|j: int, k: int| 0 <= j < k < r@.len() ==> r@[j].1 != r@[k].1,
        forall|id: u64| delta.spec_hidden().contains(id)
            ==> exists|k: int| 0 <= k < r@.len() && #[trigger] r@[k].1 == id,
{
    let records = delta.records();
    let n = records.len();
    let mut out: Vec<Scored> = Vec::new();
    let mut seen: HashSet<u64> = HashSet::new();
    let mut q = n;
    while q > 0
        invariant
            delta.wf(),
            n == delta.spec_records().len(),
            records@.len() == n,
            forall|m: int| 0 <= m < n ==> #[trigger] records@[m]@ == delta.spec_records()[m],
            q <= n,
            forall|k: int| 0 <= k < out@.len() ==> {
                let t = #[trigger] out@[k];
                &&& t.0 == 0
                &&& q <= t.2 < n
                &&& delta.spec_hidden().contains(t.1)
                &&& t.1 == delta.spec_records()[t.2 as int].id
                &&& forall|m: int| t.2 < m < n ==> delta.spec_records()[m].id != t.1
            },
            forall|j: int, k: int| 0 <= j < k < out@.len() ==> out@[j].1 != out@[k].1,
            forall|id: u64| #[trigger] seen@.contains(id) <==> exists|k: int| 0 <= k < out@.len() && out@[k].1 == id,
            forall|m: int| q <= m < n && delta.spec_hidden().contains(#[trigger] delta.spec_records()[m].id)
                ==> seen@.contains(delta.spec_records()[m].id),
        decreases q,
    {
        q = q - 1;
        let id = records[q].id();
        let ghost before = out@;
        if delta.is_tombstoned(id) && !seen.contains(&id) {
            out.push((0, id, q));
            seen.insert(id);
            proof {
                assert forall|k: int| 0 <= k < out@.len() implies {
                    let t = #[trigger] out@[k];
                    forall|m: int| t.2 < m < n ==> delta.spec_records()[m].id != t.1
                } by {
                    if k < before.len() {
                        assert(before[k] == out@[k]);
                    } else {
                        assert forall|m: int| q < m < n implies delta.spec_records()[m].id != id by {
                            if delta.spec_records()[m].id == id {
                                assert(seen@.contains(id) || !delta.spec_hidden().contains(id));
                            }
                        }
                    }
                }
                assert forall|j: int, k: int| 0 <= j < k < out@.len() implies out@[j].1 != out@[k].1 by {
                    if k == before.len() {
                        assert(!(exists|m: int| 0 <= m < before.len() && before[m].1 == id));
                        assert(out@[j] == before[j]);
                    }
                }
                assert forall|i: u64| #[trigger] seen@.contains(i)
                    <==> exists|k: int| 0 <= k < out@.len() && out@[k].1 == i by {
                    if i == id {
                        assert(out@[before.len() as int].1 == i);
                    } else if seen@.contains(i) {
                        let k = choose|k: int| 0 <= k < before.len() && before[k].1 == i;
                        assert(out@[k].1 == i);
                    } else {
                        if exists|k: int| 0 <= k < out@.len() && out@[k].1 == i {
                            let k = choose|k: int| 0 <= k < out@.len() && out@[k].1 == i;
                            assert(k < before.len());
                            assert(before[k].1 == i);
                        }
                    }
                }
            }
        }
    }
    proof {
        assert forall|id: u64| delta.spec_hidden().contains(id)
            implies exists|k: int| 0 <= k < out@.len() && #[trigger] out@[k].1 == id by {
            let m = choose|m: int| 0 <= m < delta.spec_records().len() && delta.spec_records()[m].id == id;
            assert(seen@.contains(delta.spec_records()[m].id));
            let k = choose|k: int| 0 <= k < out@.len() && out@[k].1 == id;
            assert(out@[k].1 == id);
        }
    }
    out
}


/// The records that scored picks point at.
pub open spec fn picked_records(d: Delta, picks: Seq<Scored>) -> Seq<RecordView> {
    picks.map_values(|t: Scored| d.spec_records()[t.2 as int])
}

/// Picks are tagged with the id of the record they point at.
pub open spec fn picks_tagged(d: Delta, picks: Seq<Scored>) -> bool {
    forall|k: int| 0 <= k < picks.len() ==> {
        let t = #[trigger] picks[k];
        &&& t.2 < d.spec_records().len()
        &&& t.1 == d.spec_records()[t.2 as int].id
    }
}

/// Distinct elements drawn from a sequence whose ids are distinct have
/// distinct ids.
proof fn lemma_distinct_tags(s: Seq<Scored>, u: Seq<Scored>)
    requires
        s.no_duplicates(),
        forall|i: int| 0 <= i < s.len() ==> u.contains(#[trigger] s[i]),
        forall|j: int, k: int| 0 <= j < k < u.len() ==> u[j].1 != u[k].1,
    ensures
        forall|j: int, k: int| 0 <= j < k < s.len() ==> s[j].1 != s[k].1,
{
    assert forall|j: int, k: int| 0 <= j < k < s.len() implies s[j].1 != s[k].1 by {
        let a = choose|a: int| 0 <= a < u.len() && u[a] == s[j];
        let b = choose|b: int| 0 <= b < u.len() && u[b] == s[k];
        assert(s[j] != s[k]);
        if s[j].1 == s[k].1 {
            if a < b {
                assert(u[a].1 != u[b].1);
            } else if b < a {
                assert(u[b].1 != u[a].1);
            }
        }
    }
}

/// Picks with distinct ids give records with distinct ids, whose id set is
/// the set of tags, and whose number is the number of distinct tags.
proof fn lemma_picked_ids(d: Delta, picks: Seq<Scored>, ids: Set<u64>)
    requires
        picks_tagged(d, picks),
        forall|j: int, k: int| 0 <= j < k < picks.len() ==> picks[j].1 != picks[k].1,
        forall|id: u64| ids.contains(id) <==> exists|k: int| 0 <= k < picks.len() && #[trigger] picks[k].1 == id,
    ensures
        distinct_ids(picked_records(d, picks)),
        ids_of(picked_records(d, picks)) == ids,
        picks.len() == ids.len(),
        ids.finite(),
{
    let r = picked_records(d, picks);
    assert forall|i: int| 0 <= i < r.len() implies #[trigger] r[i].id == picks[i].1 by {}
    assert forall|id: u64| ids_of(r).contains(id) <==> ids.contains(id) by {
        if ids.contains(id) {
            let k = choose|k: int| 0 <= k < picks.len() && #[trigger] picks[k].1 == id;
            assert(r[k].id == id);
        }
        if ids_of(r).contains(id) {
            let k = choose|k: int| 0 <= k < r.len() && r[k].id == id;
            assert(picks[k].1 == id);
        }
    }
    assert(ids_of(r) =~= ids);
    let tags = picks.map_values(|t: Scored| t.1);
    assert(tags.no_duplicates());
    tags.unique_seq_to_set();
    assert forall|id: u64| tags.to_set().contains(id) <==> ids.contains(id) by {
        if ids.contains(id) {
            let k = choose|k: int| 0 <= k < picks.len() && #[trigger] picks[k].1 == id;
            assert(tags[k] == id);
        }
        if tags.to_set().contains(id) {
            let k = choose|k: int| 0 <= k < tags.len() && tags[k] == id;
            assert(picks[k].1 == id);
        }
    }
    assert(tags.to_set() =~= ids);
}

/// Picks of visible ids and picks of hidden ids point at different
/// records, so together they number at most the Delta's records.
proof fn lemma_picks_fit(d: Delta, sv: Seq<Scored>, sh: Seq<Scored>)
    requires
        picks_tagged(d, sv),
        picks_tagged(d, sh),
        forall|j: int, k: int| 0 <= j < k < sv.len() ==> sv[j].1 != sv[k].1,
        forall|j: int, k: int| 0 <= j < k < sh.len() ==> sh[j].1 != sh[k].1,
        forall|k: int| 0 <= k < sv.len() ==> d.spec_visible().contains_key(#[trigger] sv[k].1),
        forall|k: int| 0 <= k < sh.len() ==> d.spec_hidden().contains(#[trigger] sh[k].1),
        forall|id: u64| d.spec_hidden().contains(id) ==> !d.spec_visible().contains_key(id),
    ensures
        sv.len() + sh.len() <= d.spec_records().len(),
{
    broadcast use vstd::set::group_set_axioms;
    let n = d.spec_records().len() as int;
    let a = sv.map_values(|t: Scored| t.2 as int);
    let b = sh.map_values(|t: Scored| t.2 as int);
    assert(a.no_duplicates()) by {
        assert forall|j: int, k: int| 0 <= j < a.len() && 0 <= k < a.len() && j != k implies a[j] != a[k] by {
            if a[j] == a[k] {
                assert(sv[j].1 == sv[k].1);
                if j < k {
                    assert(sv[j].1 != sv[k].1);
                } else {
                    assert(sv[k].1 != sv[j].1);
                }
            }
        }
    }
    assert(b.no_duplicates()) by {
        assert forall|j: int, k: int| 0 <= j < b.len() && 0 <= k < b.len() && j != k implies b[j] != b[k] by {
            if b[j] == b[k] {
                assert(sh[j].1 == sh[k].1);
                if j < k {
                    assert(sh[j].1 != sh[k].1);
                } else {
                    assert(sh[k].1 != sh[j].1);
                }
            }
        }
    }
    a.unique_seq_to_set();
    b.unique_seq_to_set();
    assert(a.to_set().disjoint(b.to_set())) by {
        assert forall|x: int| !(a.to_set().contains(x) && b.to_set().contains(x)) by {
            if a.to_set().contains(x) && b.to_set().contains(x) {
                let j = choose|j: int| 0 <= j < a.len() && a[j] == x;
                let k = choose|k: int| 0 <= k < b.len() && b[k] == x;
                assert(sv[j].1 == sh[k].1);
                assert(d.spec_visible().contains_key(sv[j].1));
                assert(d.spec_hidden().contains(sh[k].1));
            }
        }
    }
    vstd::set_lib::lemma_set_disjoint_lens(a.to_set(), b.to_set());
    vstd::set_lib::lemma_int_range(0, n);
    assert((a.to_set() + b.to_set()).subset_of(vstd::set_lib::set_int_range(0, n))) by {
        assert forall|x: int| (a.to_set() + b.to_set()).contains(x)
            implies vstd::set_lib::set_int_range(0, n).contains(x) by {
            if a.to_set().contains(x) {
                let j = choose|j: int| 0 <= j < a.len() && a[j] == x;
                assert(sv[j].2 < n);
            } else {
                let k = choose|k: int| 0 <= k < b.len() && b[k] == x;
                assert(sh[k].2 < n);
            }
        }
    }
    vstd::set_lib::lemma_len_subset(a.to_set() + b.to_set(), vstd::set_lib::set_int_range(0, n));
}

/// Copies of the records that `picks[from..to]` point at.
fn clone_picked(records: &[InsertRecord], picks: &Vec<Scored>, from: usize, to: usize) -> (out: Vec<InsertRecord>)
    requires
        from <= to <= picks@.len(),
        forall|k: int| 0 <= k < picks@.len() ==> #[trigger] picks@[k].2 < records@.len(),
        forall|m: int| 0 <= m < records@.len() ==> #[trigger] records@[m].wf(),
    ensures
        out@.len() == to - from,
        forall|k: int| 0 <= k < out@.len() ==> #[trigger] out@[k]@ == records@[picks@[from + k].2 as int]@,
        forall|k: int| 0 <= k < out@.len() ==> #[trigger] out@[k].wf(),
{
    let mut out: Vec<InsertRecord> = Vec::new();
    for i in from..to
        invariant
            from <= i <= to,
            to <= picks@.len(),
            forall|k: int| 0 <= k < picks@.len() ==> #[trigger] picks@[k].2 < records@.len(),
            forall|m: int| 0 <= m < records@.len() ==> #[trigger] records@[m].wf(),
            out@.len() == i - from,
            forall|k: int| 0 <= k < out@.len() ==> #[trigger] out@[k]@ == records@[picks@[from + k].2 as int]@,
            forall|k: int| 0 <= k < out@.len() ==> #[trigger] out@[k].wf(),
    {
        let c = records[picks[i].2].clone();
        out.push(c);
    }
    out
}


/// Merge drops hidden rows when the dead rows exceed `ppm` parts per
/// million of all rows.
pub open spec fn purges(d: Delta, ppm: u64) -> bool {
    (d.spec_records().len() - d.spec_visible().len()) * 1_000_000 > d.spec_records().len() * ppm
}

/// The report of merging `d` into `m`.
pub open spec fn merge_report(d: Delta, m: Delta, ppm: u64) -> CompactionReport {
    CompactionReport {
        trigger: TriggerKind::Unarmed,
        segments_before: (d.spec_records().len() / (TARGET_SEGMENT_ROWS as nat)) as usize,
        segments_after: (m.spec_records().len() / (TARGET_SEGMENT_ROWS as nat)) as usize,
        rows_before: d.spec_records().len() as usize,
        rows_after: m.spec_records().len() as usize,
        tombstones_purged: if purges(d, ppm) {
            (d.spec_records().len() - d.spec_visible().len()) as usize
        } else {
            0
        },
        tombstones_retained: if purges(d, ppm) { 0 } else { d.spec_hidden().len() as usize },
    }
}

/// What merge keeps, as picks: `visible` points at each visible record,
/// `hidden` at the newest record of each Tombstoned id.
pub open spec fn merge_plan(d: Delta, visible: Seq<Scored>, hidden: Seq<Scored>) -> bool {
    &&& picks_tagged(d, visible)
    &&& picks_tagged(d, hidden)
    &&& forall|j: int, k: int| 0 <= j < k < visible.len() ==> visible[j].1 != visible[k].1
    &&& forall|j: int, k: int| 0 <= j < k < hidden.len() ==> hidden[j].1 != hidden[k].1
    &&& forall|k: int| 0 <= k < visible.len() ==> d.live().contains_key(#[trigger] visible[k].1)
        && d.live()[visible[k].1] == d.spec_records()[visible[k].2 as int]
    &&& distinct_ids(picked_records(d, visible))
    &&& ids_of(picked_records(d, visible)) == d.spec_visible().dom()
    &&& distinct_ids(picked_records(d, hidden))
    &&& ids_of(picked_records(d, hidden)) == d.spec_hidden()
    &&& visible.len() == d.spec_visible().len()
    &&& hidden.len() == d.spec_hidden().len()
    &&& visible.len() + hidden.len() <= d.spec_records().len()
    &&& forall|id: u64| d.spec_hidden().contains(id) ==> !d.spec_visible().contains_key(id)
}

/// Position `p` holds the newest record of its id in `d`.
pub open spec fn newest_at(d: Delta, p: int) -> bool {
    &&& 0 <= p < d.spec_records().len()
    &&& forall|q: int| p < q < d.spec_records().len() ==> d.spec_records()[q].id != d.spec_records()[p].id
}

/// Picks the records merge keeps, in id order, and counts the dead ones.
fn plan_merge(delta: &Delta) -> (r: (Vec<Scored>, Vec<Scored>, usize))
    requires
        delta.wf(),
    ensures
        merge_plan(*delta, r.0@, r.1@),
        r.2 == delta.spec_records().len() - delta.spec_visible().len(),
        sorted_by(r.0@, rank_order()),
        forall|j: int, k: int| 0 <= j < k < r.0@.len() ==> r.0@[j].1 < r.0@[k].1,
        forall|k: int| 0 <= k < r.1@.len() ==> newest_at(*delta, #[trigger] r.1@[k].2 as int),
{
    let ghost d = *delta;
    let ghost recs = d.spec_records();
    let (vis, dead) = visible_positions(delta);
    let hid = hidden_newest(delta);
    let ghost vis0 = vis@;
    let ghost hid0 = hid@;
    proof {
        assert forall|j: int, k: int| 0 <= j < k < vis0.len() implies vis0[j].1 != vis0[k].1 by {
            let pj = vis0[j].2 as int;
            let pk = vis0[k].2 as int;
            assert(!d.is_dead(pj) && !d.is_dead(pk));
        }
        assert(vis0.no_duplicates()) by {
            assert forall|j: int, k: int| 0 <= j < vis0.len() && 0 <= k < vis0.len() && j != k
                implies vis0[j] != vis0[k] by {
                if j < k {
                    assert(vis0[j].2 < vis0[k].2);
                } else {
                    assert(vis0[k].2 < vis0[j].2);
                }
            }
        }
        assert(hid0.no_duplicates()) by {
            assert forall|j: int, k: int| 0 <= j < hid0.len() && 0 <= k < hid0.len() && j != k
                implies hid0[j] != hid0[k] by {
                if j < k {
                    assert(hid0[j].1 != hid0[k].1);
                } else {
                    assert(hid0[k].1 != hid0[j].1);
                }
            }
        }
        lemma_sort_keeps_elements(vis0);
        lemma_sort_keeps_elements(hid0);
    }
    let sv = sort_scored(vis);
    let sh = sort_scored(hid);
    proof {
        lemma_distinct_tags(sv@, vis0);
        lemma_distinct_tags(sh@, hid0);
        assert(picks_tagged(d, sv@)) by {
            assert forall|k: int| 0 <= k < sv@.len() implies {
                let t = #[trigger] sv@[k];
                &&& t.2 < d.spec_records().len()
                &&& t.1 == d.spec_records()[t.2 as int].id
            } by {
                assert(vis0.contains(sv@[k]));
            }
        }
        assert(picks_tagged(d, sh@)) by {
            assert forall|k: int| 0 <= k < sh@.len() implies {
                let t = #[trigger] sh@[k];
                &&& t.2 < d.spec_records().len()
                &&& t.1 == d.spec_records()[t.2 as int].id
            } by {
                assert(hid0.contains(sh@[k]));
            }
        }
        assert forall|id: u64| d.spec_visible().dom().contains(id)
            <==> exists|k: int| 0 <= k < sv@.len() && #[trigger] sv@[k].1 == id by {
            if d.spec_visible().dom().contains(id) {
                let q = d.spec_visible()[id] as int;
                assert(recs[q].id == id);
                assert(!d.is_dead(q));
                let k0 = choose|k: int| 0 <= k < vis0.len() && #[trigger] vis0[k].2 == q;
                assert(vis0.contains(vis0[k0]));
                assert(sv@.contains(vis0[k0]));
                let k = choose|k: int| 0 <= k < sv@.len() && sv@[k] == vis0[k0];
                assert(sv@[k].1 == id);
            }
            if exists|k: int| 0 <= k < sv@.len() && #[trigger] sv@[k].1 == id {
                let k = choose|k: int| 0 <= k < sv@.len() && #[trigger] sv@[k].1 == id;
                assert(vis0.contains(sv@[k]));
                let k0 = choose|k0: int| 0 <= k0 < vis0.len() && vis0[k0] == sv@[k];
                assert(!d.is_dead(vis0[k0].2 as int));
            }
        }
        assert forall|id: u64| d.spec_hidden().contains(id)
            <==> exists|k: int| 0 <= k < sh@.len() && #[trigger] sh@[k].1 == id by {
            if d.spec_hidden().contains(id) {
                let k0 = choose|k: int| 0 <= k < hid0.len() && #[trigger] hid0[k].1 == id;
                assert(hid0.contains(hid0[k0]));
                assert(sh@.contains(hid0[k0]));
                let k = choose|k: int| 0 <= k < sh@.len() && sh@[k] == hid0[k0];
                assert(sh@[k].1 == id);
            }
            if exists|k: int| 0 <= k < sh@.len() && #[trigger] sh@[k].1 == id {
                let k = choose|k: int| 0 <= k < sh@.len() && #[trigger] sh@[k].1 == id;
                assert(hid0.contains(sh@[k]));
            }
        }
        lemma_picked_ids(d, sv@, d.spec_visible().dom());
        lemma_picked_ids(d, sh@, d.spec_hidden());
    }
    proof {
        let vrecs = picked_records(d, sv@);
        assert forall|k: int| 0 <= k < sv@.len() implies d.live().contains_key(#[trigger] sv@[k].1)
            && d.live()[sv@[k].1] == d.spec_records()[sv@[k].2 as int] by {
            assert(vis0.contains(sv@[k]));
            let k0 = choose|k0: int| 0 <= k0 < vis0.len() && vis0[k0] == sv@[k];
            assert(!d.is_dead(vis0[k0].2 as int));
        }
        assert forall|id: u64| d.spec_hidden().contains(id) implies !d.spec_visible().contains_key(id) by {}
        assert forall|k: int| 0 <= k < sv@.len() implies d.spec_visible().contains_key(#[trigger] sv@[k].1) by {
            assert(d.spec_visible().dom().contains(sv@[k].1));
        }
        lemma_picks_fit(d, sv@, sh@);
        assert(d.spec_visible().len() == d.spec_visible().dom().len());
        crate::search::lemma_rank_order_total();
        vis0.lemma_sort_by_ensures(rank_order());
        assert forall|j: int, k: int| 0 <= j < k < sv@.len() implies sv@[j].1 < sv@[k].1 by {
            assert(vis0.contains(sv@[j]));
            assert(vis0.contains(sv@[k]));
            assert((rank_order())(sv@[j], sv@[k]));
        }
        assert forall|k: int| 0 <= k < sh@.len() implies newest_at(d, #[trigger] sh@[k].2 as int) by {
            assert(hid0.contains(sh@[k]));
            let k0 = choose|k0: int| 0 <= k0 < hid0.len() && hid0[k0] == sh@[k];
            assert(hid0[k0] == sh@[k]);
        }
    }
    (sv, sh, dead)
}

/// Appends copies of the records that `picks[from..to]` point at.
fn append_picked(merged: &mut Delta, source: &Delta, picks: &Vec<Scored>, from: usize, to: usize)
    requires
        old(merged).wf(),
        source.wf(),
        old(merged).spec_table()@ == source.spec_table()@,
        picks_tagged(*source, picks@),
        from <= to <= picks@.len(),
        old(merged).spec_records().len() + (to - from) <= usize::MAX,
    ensures
        final(merged).wf(),
        final(merged).spec_table() == old(merged).spec_table(),
        final(merged).spec_records() == old(merged).spec_records()
            + picked_records(*source, picks@).subrange(from as int, to as int),
        final(merged).live() == apply_inserts(
            old(merged).live(),
            picked_records(*source, picks@).subrange(from as int, to as int),
        ),
        final(merged).spec_hidden() == old(merged).spec_hidden().difference(
            ids_of(picked_records(*source, picks@).subrange(from as int, to as int)),
        ),
{
    let records = source.records();
    proof {
        assert forall|k: int| 0 <= k < picks@.len() implies #[trigger] picks@[k].2 < records@.len() by {}
    }
    let batch = clone_picked(records, picks, from, to);
    proof {
        let want = picked_records(*source, picks@).subrange(from as int, to as int);
        assert(batch@.map_values(|x: InsertRecord| x@) =~= want);
        assert forall|i: int| 0 <= i < batch@.len()
            implies conforms(old(merged).spec_table()@, #[trigger] batch@[i]@) by {
            assert(batch@[i]@ == source.spec_records()[picks@[from + i].2 as int]);
        }
    }
    match merged.insert(batch) {
        Ok(()) => {},
        Err(_) => {},
    }
}

/// Appends the newest rows of Tombstoned ids and Tombstones those ids again,
/// leaving what is visible unchanged.
fn retain_hidden(merged: &mut Delta, source: &Delta, sh: &Vec<Scored>)
    requires
        old(merged).wf(),
        source.wf(),
        old(merged).spec_table()@ == source.spec_table()@,
        picks_tagged(*source, sh@),
        distinct_ids(picked_records(*source, sh@)),
        forall|id: u64| #[trigger] ids_of(picked_records(*source, sh@)).contains(id)
            ==> !old(merged).live().contains_key(id),
        old(merged).spec_records().len() + sh@.len() <= usize::MAX,
    ensures
        final(merged).wf(),
        final(merged).spec_table() == old(merged).spec_table(),
        final(merged).spec_records() == old(merged).spec_records() + picked_records(*source, sh@),
        final(merged).live() == old(merged).live(),
        final(merged).spec_hidden() == old(merged).spec_hidden().union(ids_of(picked_records(*source, sh@))),
{
    let ghost hrecs = picked_records(*source, sh@);
    let ghost live0 = merged.live();
    let ghost hidden0 = merged.spec_hidden();
    append_picked(merged, source, sh, 0, sh.len());
    proof {
        assert(hrecs.subrange(0, sh@.len() as int) =~= hrecs);
        lemma_apply_distinct(live0, hrecs);
    }
    let ghost live1 = merged.live();
    let mut ids: Vec<u64> = Vec::new();
    for k in 0..sh.len()
        invariant
            ids@.len() == k,
            forall|j: int| 0 <= j < k ==> ids@[j] == #[trigger] sh@[j].1,
    {
        ids.push(sh[k].1);
    }
    proof {
        assert(ids@.to_set() =~= ids_of(hrecs)) by {
            assert forall|id: u64| ids@.to_set().contains(id) <==> ids_of(hrecs).contains(id) by {
                if ids_of(hrecs).contains(id) {
                    let k = choose|k: int| 0 <= k < hrecs.len() && hrecs[k].id == id;
                    assert(ids@[k] == id);
                }
                if ids@.to_set().contains(id) {
                    let k = choose|k: int| 0 <= k < ids@.len() && ids@[k] == id;
                    assert(hrecs[k].id == id);
                }
            }
        }
    }
    match merged.delete(ids.as_slice()) {
        Ok(()) => {},
        Err(_) => {},
    }
    proof {
        assert(merged.live() =~= live0) by {
            assert forall|id: u64| #[trigger] merged.live().contains_key(id) <==> live0.contains_key(id) by {
                if live0.contains_key(id) {
                    assert(!ids_of(hrecs).contains(id));
                }
            }
            assert forall|id: u64| #[trigger] merged.live().contains_key(id) implies merged.live()[id] == live0[id] by {
                assert(!ids_of(hrecs).contains(id));
            }
        }
        assert(merged.spec_hidden() =~= hidden0.union(ids_of(hrecs))) by {
            assert forall|id: u64| merged.spec_hidden().contains(id) <==> hidden0.union(ids_of(hrecs)).contains(id) by {
                if ids_of(hrecs).contains(id) {
                    assert(live1.contains_key(id));
                }
            }
        }
    }
}

/// Inserting the visible picks in two runs, into an empty map, rebuilds
/// what is visible; and no Tombstoned id is among them.
proof fn lemma_rebuilt_live(d: Delta, sv: Seq<Scored>, sh: Seq<Scored>, full: int)
    requires
        merge_plan(d, sv, sh),
        0 <= full <= sv.len(),
    ensures
        ({
            let vrecs = picked_records(d, sv);
            let head = vrecs.subrange(0, full);
            let tail = vrecs.subrange(full, sv.len() as int);
            &&& apply_inserts(apply_inserts(Map::empty(), head), tail) == d.live()
            &&& forall|id: u64| #[trigger] ids_of(picked_records(d, sh)).contains(id)
                ==> !apply_inserts(Map::empty(), head).contains_key(id) && !ids_of(tail).contains(id)
        }),
{
    let vrecs = picked_records(d, sv);
    let hrecs = picked_records(d, sh);
    let head = vrecs.subrange(0, full);
    let tail = vrecs.subrange(full, sv.len() as int);
    let empty = Map::<u64, RecordView>::empty();
    assert(distinct_ids(head));
    assert(distinct_ids(tail));
    lemma_apply_distinct(empty, head);
    let live1 = apply_inserts(empty, head);
    lemma_apply_distinct(live1, tail);
    assert forall|k: int| 0 <= k < vrecs.len() implies d.live().contains_key(#[trigger] vrecs[k].id)
        && d.live()[vrecs[k].id] == vrecs[k] by {
        assert(vrecs[k].id == sv[k].1);
    }
    assert forall|id: u64| ids_of(head).contains(id) || ids_of(tail).contains(id) ==> ids_of(vrecs).contains(id) by {
        if ids_of(head).contains(id) {
            let k = choose|k: int| 0 <= k < head.len() && head[k].id == id;
            assert(vrecs[k].id == id);
        }
        if ids_of(tail).contains(id) {
            let k = choose|k: int| 0 <= k < tail.len() && tail[k].id == id;
            assert(vrecs[full + k].id == id);
        }
    }
    assert(apply_inserts(live1, tail) =~= d.live()) by {
        assert forall|id: u64| #[trigger] apply_inserts(live1, tail).contains_key(id) <==> d.live().contains_key(id) by {
            if d.live().contains_key(id) {
                assert(ids_of(vrecs).contains(id));
                let k = choose|k: int| 0 <= k < vrecs.len() && vrecs[k].id == id;
                if k < full {
                    assert(head[k].id == id);
                } else {
                    assert(tail[k - full].id == id);
                }
            }
        }
        assert forall|id: u64| #[trigger] apply_inserts(live1, tail).contains_key(id)
            implies apply_inserts(live1, tail)[id] == d.live()[id] by {
            if ids_of(tail).contains(id) {
                let k = choose|k: int| 0 <= k < tail.len() && tail[k].id == id;
                assert(tail[k] == vrecs[full + k]);
            } else {
                let k = choose|k: int| 0 <= k < head.len() && head[k].id == id;
                assert(head[k] == vrecs[k]);
            }
        }
    }
    assert forall|id: u64| #[trigger] ids_of(hrecs).contains(id)
        implies !live1.contains_key(id) && !ids_of(tail).contains(id) by {
        assert(d.spec_hidden().contains(id));
        assert(!d.spec_visible().dom().contains(id));
    }
}

/// The merged rows are the visible picks up to `full`, then (unless
/// purging) the hidden picks, then the rest of the visible picks: so
/// hidden rows are their ids' newest rows and the visible rows ascend by id.
proof fn lemma_merged_layout(d: Delta, m: Delta, sv: Seq<Scored>, sh: Seq<Scored>, full: int, purge: bool)
    requires
        d.wf(),
        merge_plan(d, sv, sh),
        0 <= full <= sv.len(),
        forall|j: int, k: int| 0 <= j < k < sv.len() ==> sv[j].1 < sv[k].1,
        forall|k: int| 0 <= k < sh.len() ==> newest_at(d, #[trigger] sh[k].2 as int),
        m.spec_records() == picked_records(d, sv).subrange(0, full) + (if purge {
            Seq::<RecordView>::empty()
        } else {
            picked_records(d, sh)
        }) + picked_records(d, sv).subrange(full, sv.len() as int),
        m.spec_hidden() == (if purge { Set::<u64>::empty() } else { d.spec_hidden() }),
    ensures
        forall|q: int| 0 <= q < m.spec_records().len() && m.spec_hidden().contains(
            #[trigger] m.spec_records()[q].id,
        ) ==> exists|p: int| newest_at(d, p) && d.spec_records()[p] == m.spec_records()[q],
        forall|q1: int, q2: int| 0 <= q1 < q2 < m.spec_records().len()
            && !m.spec_hidden().contains(#[trigger] m.spec_records()[q1].id)
            && !m.spec_hidden().contains(#[trigger] m.spec_records()[q2].id)
            ==> m.spec_records()[q1].id < m.spec_records()[q2].id,
{
    let recs = m.spec_records();
    let hl: int = if purge { 0 } else { sh.len() as int };
    assert(recs.len() == sv.len() + hl);
    // Where each merged row comes from.
    assert forall|q: int| 0 <= q < recs.len() implies (if q < full {
        recs[q] == d.spec_records()[sv[q].2 as int] && recs[q].id == sv[q].1
    } else if q < full + hl {
        !purge && recs[q] == d.spec_records()[sh[q - full].2 as int] && recs[q].id == sh[q - full].1
    } else {
        recs[q] == d.spec_records()[sv[q - hl].2 as int] && recs[q].id == sv[q - hl].1
    }) by {
        if q < full {
            assert(sv[q].1 == d.spec_records()[sv[q].2 as int].id);
        } else if q < full + hl {
            assert(sh[q - full].1 == d.spec_records()[sh[q - full].2 as int].id);
        } else {
            assert(sv[q - hl].1 == d.spec_records()[sv[q - hl].2 as int].id);
        }
    }
    assert forall|q: int| 0 <= q < recs.len() && m.spec_hidden().contains(#[trigger] recs[q].id)
        implies exists|p: int| newest_at(d, p) && d.spec_records()[p] == recs[q] by {
        if q < full {
            assert(d.spec_visible().contains_key(sv[q].1));
        } else if q < full + hl {
            assert(newest_at(d, sh[q - full].2 as int));
        } else {
            assert(d.spec_visible().contains_key(sv[q - hl].1));
        }
    }
    assert forall|q1: int, q2: int| 0 <= q1 < q2 < recs.len()
        && !m.spec_hidden().contains(#[trigger] recs[q1].id)
        && !m.spec_hidden().contains(#[trigger] recs[q2].id)
        implies recs[q1].id < recs[q2].id by {
        if !purge {
            if full <= q1 < full + hl {
                let t = sh[q1 - full];
                assert(ids_of(picked_records(d, sh)).contains(t.1)) by {
                    assert(picked_records(d, sh)[q1 - full].id == t.1);
                }
            }
            if full <= q2 < full + hl {
                let t = sh[q2 - full];
                assert(ids_of(picked_records(d, sh)).contains(t.1)) by {
                    assert(picked_records(d, sh)[q2 - full].id == t.1);
                }
            }
        }
        let i1 = if q1 < full { q1 } else { q1 - hl };
        let i2 = if q2 < full { q2 } else { q2 - hl };
        assert(i1 < i2);
    }
}

/// `m` is what merging `d` under purge ratio `ppm` yields: the same Table
/// and visible records; the Tombstoned ids kept unless the purge ratio is
/// exceeded; one row per visible id plus, below the ratio, one per
/// Tombstoned id, which is that id's newest row in `d`; and the visible
/// rows in ascending id order.
pub open spec fn merge_result(d: Delta, m: Delta, ppm: u64) -> bool {
    &&& forall|q: int| 0 <= q < m.spec_records().len() && m.spec_hidden().contains(
        #[trigger] m.spec_records()[q].id,
    ) ==> exists|p: int| newest_at(d, p) && d.spec_records()[p] == m.spec_records()[q]
    &&& forall|q1: int, q2: int| 0 <= q1 < q2 < m.spec_records().len()
        && !m.spec_hidden().contains(#[trigger] m.spec_records()[q1].id)
        && !m.spec_hidden().contains(#[trigger] m.spec_records()[q2].id)
        ==> m.spec_records()[q1].id < m.spec_records()[q2].id
    &&& m.wf()
    &&& m.spec_table()@ == d.spec_table()@
    &&& m.live() == d.live()
    &&& m.spec_hidden() == (if purges(d, ppm) { Set::<u64>::empty() } else { d.spec_hidden() })
    &&& m.spec_records().len() == d.spec_visible().len() + (if purges(d, ppm) { 0 } else { d.spec_hidden().len() })
}

/// Merges one snapshot into a fresh Delta under the default purge ratio
/// ([`TOMBSTONE_PURGE_RATIO_PPM`]); see [`merge_with_purge_ratio`].
pub fn merge(delta: &Delta) -> (r: Result<(Delta, CompactionReport)>)
    requires
        delta.wf(),
    ensures
        r is Ok,
        r matches Ok((m, rep)) ==> merge_result(*delta, m, TOMBSTONE_PURGE_RATIO_PPM)
            && rep == merge_report(*delta, m, TOMBSTONE_PURGE_RATIO_PPM),
{
    merge_with_purge_ratio(delta, TOMBSTONE_PURGE_RATIO_PPM)
}

/// Merges one snapshot into a fresh Delta: keeps each id's visible version
/// (in id order, full segments first). When the dead rows exceed
/// `purge_ratio_ppm` parts per million of all rows, Tombstoned vectors are
/// dropped; otherwise each fully Tombstoned id's newest row is carried and
/// Tombstoned again, so visibility is unchanged.
pub fn merge_with_purge_ratio(delta: &Delta, purge_ratio_ppm: u64) -> (r: Result<(Delta, CompactionReport)>)
    requires
        delta.wf(),
    ensures
        r is Ok,
        r matches Ok((m, rep)) ==> merge_result(*delta, m, purge_ratio_ppm)
            && rep == merge_report(*delta, m, purge_ratio_ppm),
{
    let ghost d = *delta;
    let (sv, sh, dead) = plan_merge(delta);
    let n = delta.len();
    let wn = n as u128;
    let wp = purge_ratio_ppm as u128;
    assert(wn * wp <= u128::MAX) by (nonlinear_arith)
        requires
            wn <= u64::MAX,
            wp <= u64::MAX;
    let purge = (dead as u128) * 1_000_000 > wn * wp;
    let table = delta.table().clone();
    proof {
        table.lemma_view();
        delta.spec_table().lemma_view();
    }
    let mut merged = Delta::new(table);
    let nv = sv.len();
    let full = nv - nv % TARGET_SEGMENT_ROWS;
    proof {
        lemma_rebuilt_live(d, sv@, sh@, full as int);
    }
    // Full segments of visible records first.
    append_picked(&mut merged, delta, &sv, 0, full);
    // Below the purge ratio, carry each Tombstoned id's newest row hidden.
    let retained = if !purge {
        retain_hidden(&mut merged, delta, &sh);
        sh.len()
    } else {
        0
    };
    let ghost hidden3 = merged.spec_hidden();
    // The rest of the visible records.
    append_picked(&mut merged, delta, &sv, full, nv);
    proof {
        let tail = picked_records(d, sv@).subrange(full as int, nv as int);
        assert(merged.spec_hidden() =~= hidden3);
        assert(Set::<u64>::empty().difference(ids_of(picked_records(d, sv@).subrange(0, full as int)))
            =~= Set::<u64>::empty());
        assert(Set::<u64>::empty().union(ids_of(picked_records(d, sh@))) =~= d.spec_hidden());
        lemma_merged_layout(d, merged, sv@, sh@, full as int, purge);
    }
    let report = CompactionReport {
        trigger: TriggerKind::Unarmed,
        segments_before: delta.sealed_segment_count(),
        segments_after: merged.sealed_segment_count(),
        rows_before: n,
        rows_after: merged.len(),
        tombstones_purged: if purge { dead } else { 0 },
        tombstones_retained: retained,
    };
    Ok((merged, report))
}

/// What is visible determines how many records are visible.
pub proof fn lemma_visible_count(d: Delta)
    ensures
        d.live().dom() == d.spec_visible().dom(),
        d.spec_visible().len() == d.live().dom().len(),
{
    assert(d.live().dom() =~= d.spec_visible().dom());
}

/// Compaction is idempotent: merging a merged lineage again under the same
/// purge ratio keeps the visible records, the Tombstoned ids and the number
/// of rows.
pub proof fn lemma_merge_idempotent(d: Delta, m: Delta, m2: Delta, ppm: u64)
    requires
        d.wf(),
        merge_result(d, m, ppm),
        merge_result(m, m2, ppm),
    ensures
        m2.live() == d.live(),
        m2.spec_hidden() == m.spec_hidden(),
        m2.spec_records().len() == m.spec_records().len(),
{
    lemma_visible_count(d);
    lemma_visible_count(m);
    assert(m.spec_visible().len() == d.spec_visible().len());
    // Every Tombstoned id has at least one dead row in `d`.
    if !purges(d, ppm) {
        assert(!purges(m, ppm)) by {
            lemma_hidden_are_dead(d);
            let rows = d.spec_records().len() as int;
            let vis = d.spec_visible().len() as int;
            let hid = d.spec_hidden().len() as int;
            let p = ppm as int;
            assert(hid * 1_000_000 <= (vis + hid) * p) by (nonlinear_arith)
                requires
                    hid + vis <= rows,
                    0 <= hid,
                    0 <= vis,
                    0 <= p,
                    (rows - vis) * 1_000_000 <= rows * p;
        }
    } else {
        assert(m.spec_hidden().len() == 0);
        assert(!purges(m, ppm));
    }
}

/// Merging changes nothing a search can see: under any predicate the merged
/// lineage has the same candidates, and the same Table, as the original.
pub proof fn lemma_merge_keeps_candidates(d: Delta, m: Delta, ppm: u64, predicate: Option<Predicate>)
    requires
        d.wf(),
        merge_result(d, m, ppm),
    ensures
        candidates(m, predicate) == candidates(d, predicate),
        m.spec_table()@ == d.spec_table()@,
{
    assert(candidates(m, predicate) =~= candidates(d, predicate));
}

/// Visible ids and Tombstoned ids own different rows, so together they
/// number at most the Delta's rows.
pub proof fn lemma_hidden_are_dead(d: Delta)
    requires
        d.wf(),
    ensures
        d.spec_hidden().len() + d.spec_visible().len() <= d.spec_records().len(),
{
    broadcast use vstd::set::group_set_axioms;
    broadcast use vstd::seq_lib::seq_to_set_is_finite;
    let recs = d.spec_records();
    let n = recs.len() as int;
    let vis = d.spec_visible();
    let all_ids = recs.map_values(|r: RecordView| r.id).to_set();
    assert(vis.dom().subset_of(all_ids)) by {
        assert forall|id: u64| vis.dom().contains(id) implies all_ids.contains(id) by {
            let p = vis[id] as int;
            assert(recs.map_values(|r: RecordView| r.id)[p] == id);
        }
    }
    assert(d.spec_hidden().subset_of(all_ids)) by {
        assert forall|id: u64| d.spec_hidden().contains(id) implies all_ids.contains(id) by {
            let p = choose|p: int| 0 <= p < n && recs[p].id == id;
            assert(recs.map_values(|r: RecordView| r.id)[p] == id);
        }
    }
    vstd::set_lib::lemma_len_subset(vis.dom(), all_ids);
    vstd::set_lib::lemma_len_subset(d.spec_hidden(), all_ids);
    let vf = |id: u64| vis[id] as int;
    let hf = |id: u64| choose|p: int| 0 <= p < n && recs[p].id == id;
    assert(vstd::relations::injective_on(vf, vis.dom())) by {
        assert forall|a: u64, b: u64| vis.dom().contains(a) && vis.dom().contains(b) && #[trigger] vf(a) == #[trigger] vf(b)
            implies a == b by {
            assert(recs[vf(a)].id == a);
            assert(recs[vf(b)].id == b);
        }
    }
    assert(vstd::relations::injective_on(hf, d.spec_hidden())) by {
        assert forall|a: u64, b: u64| d.spec_hidden().contains(a) && d.spec_hidden().contains(b) && #[trigger] hf(a) == #[trigger] hf(b)
            implies a == b by {
            assert(exists|p: int| 0 <= p < n && recs[p].id == a);
            assert(exists|p: int| 0 <= p < n && recs[p].id == b);
            assert(recs[hf(a)].id == a);
            assert(recs[hf(b)].id == b);
        }
    }
    let vp = vis.dom().map(vf);
    let hp = d.spec_hidden().map(hf);
    vstd::set_lib::lemma_map_size(vis.dom(), vp, vf);
    vstd::set_lib::lemma_map_size(d.spec_hidden(), hp, hf);
    assert(vp.disjoint(hp)) by {
        assert forall|x: int| !(vp.contains(x) && hp.contains(x)) by {
            if vp.contains(x) && hp.contains(x) {
                let a = choose|a: u64| vis.dom().contains(a) && vf(a) == x;
                let b = choose|b: u64| d.spec_hidden().contains(b) && hf(b) == x;
                assert(exists|p: int| 0 <= p < n && recs[p].id == b);
                assert(recs[x].id == b);
                assert(recs[x].id == a);
            }
        }
    }
    vstd::set_lib::lemma_set_disjoint_lens(vp, hp);
    vstd::set_lib::lemma_int_range(0, n);
    let range = vstd::set_lib::set_int_range(0, n);
    assert((vp + hp).subset_of(range)) by {
        assert forall|x: int| (vp + hp).contains(x) implies range.contains(x) by {
            if vp.contains(x) {
                let a = choose|a: u64| vis.dom().contains(a) && vf(a) == x;
            } else {
                let b = choose|b: u64| d.spec_hidden().contains(b) && hf(b) == x;
                assert(exists|p: int| 0 <= p < n && recs[p].id == b);
            }
        }
    }
    vstd::set_lib::lemma_len_subset(vp + hp, range);
}


/// The trigger a compaction of `d` reports: a manual request always runs
/// and says so; otherwise whatever the thresholds arm.
pub open spec fn reported_trigger(manual: bool, c: CompactionConfig, d: Delta) -> TriggerKind {
    if manual {
        TriggerKind::Manual
    } else {
        trigger_for(c, d)
    }
}

/// Compacts one published snapshot: merges it (see [`merge`]) and records
/// in the report why the compaction ran.
pub fn compact_snapshot(config: &CompactionConfig, delta: &Delta, manual: bool) -> (r: Result<(Delta, CompactionReport)>)
    requires
        delta.wf(),
    ensures
        r is Ok,
        r matches Ok((m, rep)) ==> merge_result(*delta, m, config.purge_ratio_ppm) && rep == (CompactionReport {
            trigger: reported_trigger(manual, *config, *delta),
            ..merge_report(*delta, m, config.purge_ratio_ppm)
        }),
{
    let effective = if manual { TriggerKind::Manual } else { evaluate_trigger(config, delta) };
    match merge_with_purge_ratio(delta, config.purge_ratio_ppm) {
        Ok((merged, report)) => {
            let mut report = report;
            report.trigger = effective;
            Ok((merged, report))
        },
        Err(e) => Err(e),
    }
}

/// What a background wake does with a snapshot: nothing while the
/// thresholds are unarmed, else compact it under the armed trigger.
pub fn background_trigger(config: &CompactionConfig, delta: &Delta) -> (r: Option<TriggerKind>)
    ensures
        r == (if trigger_for(*config, *delta) == TriggerKind::Unarmed {
            None::<TriggerKind>
        } else {
            Some(trigger_for(*config, *delta))
        }),
{
    match evaluate_trigger(config, delta) {
        TriggerKind::Unarmed => None,
        t => Some(t),
    }
}

} // verus!
