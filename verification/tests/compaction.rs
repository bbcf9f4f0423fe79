use ferrite_db::compaction::{
    background_trigger, compact_snapshot, evaluate_trigger, merge, merge_with_purge_ratio, should_compact,
    CompactionConfig, TriggerKind, TOMBSTONE_PURGE_RATIO_PPM,
};
use ferrite_db::search::{distance_order_key, rank, select_candidates};
use ferrite_db::table::{ColumnType, MetadataColumn, MetadataSchema, Metric, Table, TableManager};
use ferrite_db::write_path::{Delta, InsertRecord, Metadata, MetadataValue, TARGET_SEGMENT_ROWS};

const DIM: u32 = 8;

fn schema() -> MetadataSchema {
    MetadataSchema::new(vec![MetadataColumn::new("category".to_string(), ColumnType::I64)]).unwrap()
}

fn table(name: &str) -> Table {
    TableManager::new()
        .create(name.to_string(), DIM, Metric::Cosine, schema())
        .unwrap()
}

fn record(id: u64, seed: u64) -> InsertRecord {
    let vector: Vec<u32> = (0..u64::from(DIM))
        .map(|col| (((id * 31 + col * 7 + seed) % 89) as f32 / 89.0).to_bits())
        .collect();
    let mut metadata = Metadata::new();
    metadata.insert("category".to_string(), MetadataValue::I64((id % 7) as i64));
    InsertRecord::new(id, vector, metadata)
}

fn tiny_config() -> CompactionConfig {
    CompactionConfig {
        change_fraction_ppm: 1_100_000, // effectively disabled unless overridden
        min_changed_rows: u64::MAX,
        delta_count_trigger: usize::MAX,
        purge_ratio_ppm: 200_000,
    }
}

fn visible_ids(delta: &Delta) -> Vec<u64> {
    let mut ids: Vec<u64> = select_candidates(delta, DIM as usize, None)
        .unwrap()
        .into_iter()
        .map(|p| delta.records()[p].id())
        .collect();
    ids.sort();
    ids
}

#[test]
fn trigger_fires_at_change_threshold_boundaries() {
    // Threshold formula: max(change_fraction x rows, min_changed_rows).
    // With 100 rows and fraction 0.9 the formula boundary sits at 90.
    let mut config = tiny_config();
    config.change_fraction_ppm = 900_000;
    config.min_changed_rows = 10;

    let mut delta = Delta::new(table("t"));
    delta.insert((0..100).map(|id| record(id, 0)).collect()).unwrap();

    // 89 tombstoned ids: changed = 89 < 90 → quiet.
    delta.delete(&(0..89).collect::<Vec<_>>()).unwrap();
    assert_eq!(evaluate_trigger(&config, &delta), TriggerKind::Unarmed);

    // One more: changed = 90 = threshold → armed (>=).
    delta.delete(&[89]).unwrap();
    assert_eq!(evaluate_trigger(&config, &delta), TriggerKind::ChangeThreshold);

    // Absolute-floor arm: the floor exceeds any reachable fraction product.
    let mut config = tiny_config();
    config.change_fraction_ppm = 1_000;
    config.min_changed_rows = 30;
    let mut delta = Delta::new(table("t2"));
    delta.insert((0..40).map(|id| record(id, 1)).collect()).unwrap();
    delta.delete(&(0..29).collect::<Vec<_>>()).unwrap(); // 29 < 30
    assert_eq!(evaluate_trigger(&config, &delta), TriggerKind::Unarmed);
    delta.delete(&[29]).unwrap(); // 30 = floor → armed
    assert_eq!(evaluate_trigger(&config, &delta), TriggerKind::ChangeThreshold);
}

#[test]
fn trigger_fires_at_delta_count_boundary() {
    let mut config = tiny_config();
    config.delta_count_trigger = 4;

    let mut delta = Delta::new(table("t"));
    let per_segment = TARGET_SEGMENT_ROWS as u64;
    for generation in 0..3u64 {
        delta
            .insert(
                (generation * per_segment..(generation + 1) * per_segment)
                    .map(|id| record(id, generation))
                    .collect(),
            )
            .unwrap();
    }
    assert_eq!(delta.sealed_segment_count(), 3);
    assert_eq!(evaluate_trigger(&config, &delta), TriggerKind::Unarmed);

    delta
        .insert((3 * per_segment..4 * per_segment).map(|id| record(id, 9)).collect())
        .unwrap();
    assert_eq!(delta.sealed_segment_count(), 4);
    assert_eq!(evaluate_trigger(&config, &delta), TriggerKind::DeltaCount);
    assert!(should_compact(&config, &delta));
}

#[test]
fn default_config_holds_the_ratified_thresholds() {
    let c = CompactionConfig::default();
    assert_eq!(c.change_fraction_ppm, 10_000);
    assert_eq!(c.min_changed_rows, 100_000);
    assert_eq!(c.delta_count_trigger, 4);
    let delta = Delta::new(table("empty"));
    assert!(!should_compact(&c, &delta));
}

#[test]
fn merge_keeps_what_is_visible_across_deletes_and_updates() {
    let mut delta = Delta::new(table("t"));
    delta.insert((0..300).map(|id| record(id, 0)).collect()).unwrap();
    delta.delete(&[5, 17, 250]).unwrap();
    delta.insert(vec![record(42, 99), record(301, 7)]).unwrap(); // update + append
    let before = visible_ids(&delta);

    let (merged, report) = merge(&delta).unwrap();
    assert_eq!(report.trigger, TriggerKind::Unarmed);
    assert_eq!(visible_ids(&merged), before);
    assert!(!before.contains(&5) && !before.contains(&17) && !before.contains(&250));
    // The updated id carries its newest vector.
    let updated = merged
        .records()
        .iter()
        .find(|r| r.id() == 42 && !merged.is_tombstoned(42))
        .unwrap();
    assert_eq!(updated.vector(), record(42, 99).vector());

    // Row accounting: 302 input records → 298 newest-visible ids plus the
    // 3 fully-tombstoned ids physically retained below the 20% gate.
    assert_eq!(report.rows_before, 302);
    assert_eq!(report.rows_after, 301);
    assert_eq!(report.tombstones_retained, 3);
    assert_eq!(report.tombstones_purged, 0);
    assert_eq!(merged.tombstoned_id_count(), 3);
}

#[test]
fn purge_gates_physical_removal_at_twenty_percent() {
    // 100 rows, delete 19 → ratio 19% ≤ 20%: retained hidden rows.
    let mut delta = Delta::new(table("t"));
    delta.insert((0..100).map(|id| record(id, 0)).collect()).unwrap();
    delta.delete(&(0..19).collect::<Vec<_>>()).unwrap();
    let (merged_below, report_below) = merge(&delta).unwrap();
    assert_eq!(report_below.tombstones_retained, 19);
    assert_eq!(report_below.tombstones_purged, 0);
    assert_eq!(merged_below.len(), 100, "hidden rows are physically retained");
    assert!(visible_ids(&merged_below).iter().all(|id| *id >= 19));

    // Delete one more → 20% exactly: still ≤ gate (strictly greater fires).
    delta.delete(&[19]).unwrap();
    let (_, report_at_gate) = merge(&delta).unwrap();
    assert_eq!(report_at_gate.tombstones_retained, 20);

    // 21% > 20%: purge path removes hidden rows entirely.
    delta.delete(&[20]).unwrap();
    let (merged_above, report_above) = merge(&delta).unwrap();
    assert_eq!(report_above.tombstones_purged, 21);
    assert_eq!(report_above.tombstones_retained, 0);
    assert_eq!(merged_above.len(), 79);
    assert!(visible_ids(&merged_above).iter().all(|id| *id > 20));
    assert_eq!(merged_above.tombstoned_id_count(), 0);
}

#[test]
fn compact_is_idempotent() {
    let mut delta = Delta::new(table("t"));
    delta.insert((0..50).map(|id| record(id, 1)).collect()).unwrap();
    delta.delete(&[3, 4]).unwrap();
    let (first, first_report) = compact_snapshot(&tiny_config(), &delta, true).unwrap();
    let (second, second_report) = compact_snapshot(&tiny_config(), &first, true).unwrap();
    assert_eq!(second.len(), first.len());
    assert_eq!(second_report.rows_after, first_report.rows_after);
    assert_eq!(second_report.segments_before, first_report.segments_after);
    assert_eq!(visible_ids(&second), visible_ids(&delta));
    assert_eq!(second.tombstoned_id_count(), first.tombstoned_id_count());
    let query: Vec<f32> = (0..DIM).map(|_| 0.25f32).collect();
    let hits = engine_top_k(&second, &query, 5);
    assert_eq!(hits[0], oracle_top_k(&second, &query, 5)[0]);
}

#[test]
fn merged_lineage_is_in_id_order_with_full_segments_first() {
    let mut delta = Delta::new(table("t"));
    let n = TARGET_SEGMENT_ROWS as u64 + 3;
    delta.insert((0..n).rev().map(|id| record(id, 2)).collect()).unwrap();
    delta.delete(&[7]).unwrap();
    let (merged, report) = merge(&delta).unwrap();
    assert_eq!(report.segments_before, 1);
    assert_eq!(report.segments_after, 1);
    let ids: Vec<u64> = merged.records().iter().map(|r| r.id()).collect();
    // One full segment of visible ids in ascending order, then the hidden id,
    // then the remaining visible ids.
    let mut expected: Vec<u64> = (0..n).filter(|id| *id != 7).collect();
    let tail = expected.split_off(TARGET_SEGMENT_ROWS);
    expected.push(7);
    expected.extend(tail);
    assert_eq!(ids, expected);
}

#[test]
fn empty_delta_merges_to_empty() {
    let delta = Delta::new(table("t"));
    let (merged, report) = merge(&delta).unwrap();
    assert_eq!(report.rows_before, 0);
    assert_eq!(report.rows_after, 0);
    assert_eq!(merged.len(), 0);
    // Unknown-id deletes succeed and are ignored.
    let mut delta = delta;
    delta.delete(&[999]).unwrap();
    assert_eq!(delta.tombstoned_id_count(), 0);
}

fn cosine(query: &[f32], vector: &[f32]) -> f32 {
    let qn = query.iter().map(|v| v * v).sum::<f32>().sqrt();
    let vn = vector.iter().map(|v| v * v).sum::<f32>().sqrt();
    if qn == 0.0 || vn == 0.0 {
        1.0
    } else {
        let dot = query.iter().zip(vector).map(|(a, b)| a * b).sum::<f32>();
        1.0 - dot / (qn * vn)
    }
}

fn floats(bits: &[u32]) -> Vec<f32> {
    bits.iter().map(|b| f32::from_bits(*b)).collect()
}

/// Engine search over a snapshot: candidate selection, cosine scoring and
/// ranking; returns ids, nearest first.
fn engine_top_k(delta: &Delta, query: &[f32], k: u32) -> Vec<u64> {
    let records = delta.records();
    let scored = select_candidates(delta, query.len(), None)
        .unwrap()
        .into_iter()
        .map(|p| (distance_order_key(cosine(query, &floats(records[p].vector())).to_bits()), records[p].id(), p))
        .collect();
    rank(scored, k).into_iter().map(|(_, id, _)| id).collect()
}

/// Independent oracle: every record not carrying a Tombstone, sorted by
/// distance then id.
fn oracle_top_k(delta: &Delta, query: &[f32], k: usize) -> Vec<u64> {
    let records = delta.records();
    let mut scored: Vec<(f32, u64)> = (0..records.len())
        .filter(|p| !delta.is_record_tombstoned(*p))
        .map(|p| (cosine(query, &floats(records[p].vector())), records[p].id()))
        .collect();
    scored.sort_by(|a, b| a.0.partial_cmp(&b.0).unwrap().then(a.1.cmp(&b.1)));
    scored.into_iter().take(k).map(|(_, id)| id).collect()
}

#[test]
fn merge_is_oracle_equivalent_across_deletes_and_updates() {
    let mut delta = Delta::new(table("t"));
    delta.insert((0..300).map(|id| record(id, 0)).collect()).unwrap();
    delta.delete(&[5, 17, 250]).unwrap();
    delta.insert(vec![record(42, 99), record(301, 7)]).unwrap(); // updates + append

    let query: Vec<f32> = (0..DIM).map(|_| 0.4f32).collect();
    let before = engine_top_k(&delta, &query, 10);
    let expected = oracle_top_k(&delta, &query, 10);

    let (merged, report) = compact_snapshot(&CompactionConfig::default(), &delta, true).unwrap();
    assert_eq!(report.trigger, TriggerKind::Manual);

    let after = engine_top_k(&merged, &query, 10);
    assert_eq!(before, expected, "pre-merge results drifted from oracle");
    assert_eq!(after, expected, "post-merge results drifted from oracle");
    assert!(!after.contains(&5) && !after.contains(&17) && !after.contains(&250));

    // 302 input records: 298 newest-visible ids plus the 3 fully-tombstoned
    // ids physically retained below the 20% gate.
    assert_eq!(report.rows_before, 302);
    assert_eq!(report.rows_after, 301);
    assert_eq!(report.tombstones_retained, 3);
    assert_eq!(report.tombstones_purged, 0);
}

#[test]
fn empty_lifecycle_behaves() {
    let mut delta = Delta::new(table("t"));
    assert!(!should_compact(&CompactionConfig::default(), &delta));
    let (merged, report) = merge(&delta).unwrap();
    assert_eq!(report.rows_before, 0);
    assert_eq!(report.rows_after, 0);
    let query: Vec<f32> = vec![0.0; DIM as usize];
    assert!(engine_top_k(&merged, &query, 3).is_empty());
    // Unknown-id deletes succeed and are ignored.
    delta.delete(&[999]).unwrap();
    assert_eq!(delta.tombstoned_id_count(), 0);
}

#[test]
fn cloned_delta_keeps_records_and_tombstones() {
    let mut delta = Delta::new(table("t"));
    delta.insert((0..10).map(|id| record(id, 3)).collect()).unwrap();
    delta.delete(&[2, 7]).unwrap();
    let mut copy = delta.clone();
    assert_eq!(copy.len(), 10);
    assert!(copy.is_tombstoned(2) && copy.is_tombstoned(7) && !copy.is_tombstoned(3));
    assert_eq!(copy.tombstoned_id_count(), 2);
    assert_eq!(visible_ids(&copy), visible_ids(&delta));
    // The copy evolves on its own.
    copy.delete(&[3]).unwrap();
    assert!(copy.is_tombstoned(3));
    assert!(!delta.is_tombstoned(3));
}

#[test]
fn background_wakes_compact_only_when_armed() {
    let mut config = tiny_config();
    config.delta_count_trigger = 1;
    let mut delta = Delta::new(table("t"));
    delta.insert((0..10).map(|id| record(id, 0)).collect()).unwrap();
    assert_eq!(background_trigger(&config, &delta), None);
    delta.insert((10..TARGET_SEGMENT_ROWS as u64).map(|id| record(id, 0)).collect()).unwrap();
    assert_eq!(background_trigger(&config, &delta), Some(TriggerKind::DeltaCount));
    let (merged, report) = compact_snapshot(&config, &delta, false).unwrap();
    assert_eq!(report.trigger, TriggerKind::DeltaCount);
    assert_eq!(report.rows_after, merged.len());
}

#[test]
fn configured_purge_ratio_decides_purging() {
    // 100 rows, 30 dead: above the default 20% but not above a 50% ratio.
    let mut delta = Delta::new(table("t"));
    delta.insert((0..100).map(|id| record(id, 0)).collect()).unwrap();
    delta.delete(&(0..30).collect::<Vec<u64>>()).unwrap();
    let config = CompactionConfig { purge_ratio_ppm: 500_000, ..CompactionConfig::default() };
    let (merged, report) = compact_snapshot(&config, &delta, true).unwrap();
    assert_eq!(report.tombstones_purged, 0);
    assert_eq!(report.tombstones_retained, 30);
    assert_eq!(merged.len(), 100);
    assert_eq!(report.trigger, TriggerKind::Manual);

    let (_, default_report) = compact_snapshot(&CompactionConfig::default(), &delta, true).unwrap();
    assert_eq!(default_report.tombstones_purged, 30);
    assert_eq!(default_report.tombstones_retained, 0);
    assert_eq!(CompactionConfig::default().purge_ratio_ppm, TOMBSTONE_PURGE_RATIO_PPM);

    let (_, lenient) = merge_with_purge_ratio(&delta, 300_000).unwrap();
    assert_eq!(lenient.tombstones_retained, 30);
    let (_, strict) = merge_with_purge_ratio(&delta, 299_999).unwrap();
    assert_eq!(strict.tombstones_purged, 30);
}
