use ferrite_db::corpus::clustered::{self, json_metric_field, json_u32_field, parse_fixtures, Reader};
use ferrite_db::corpus::{
    check_config, generate_categories, parse_metric, serialize, sub_seed, CorpusConfig, GroundTruthBits, Metric, Prng,
};

fn small_config() -> CorpusConfig {
    CorpusConfig {
        num_vectors: 200,
        dimension: 8,
        num_queries: 20,
        top_k: 5,
        seed: 42,
        num_categories: 10,
        metric: Metric::Cosine,
    }
}

#[test]
fn splitmix_matches_the_reference_stream() {
    let mut p = Prng::new(0);
    assert_eq!(p.next_u64(), 0xE220_A839_7B1D_CDAF);
    assert_eq!(p.next_u64(), 0x6E78_9E6A_A1B9_65F4);
}

#[test]
fn sub_seeds_are_deterministic_and_distinct() {
    assert_eq!(sub_seed(42, 1), sub_seed(42, 1));
    assert_ne!(sub_seed(42, 1), sub_seed(42, 2));
    assert_ne!(sub_seed(42, 1), sub_seed(99, 1));
}

#[test]
fn category_count_matches_num_categories_distribution() {
    let cfg = small_config();
    let cats = generate_categories(&cfg);
    assert_eq!(cats.len(), cfg.num_vectors as usize);
    let max = cats.iter().copied().max().unwrap();
    assert!((max as u32) < cfg.num_categories);
    assert_eq!(cats, generate_categories(&cfg));
    let mut other = cfg;
    other.seed = 99;
    assert_ne!(cats, generate_categories(&other));
}

#[test]
fn config_checks_name_the_problem() {
    let mut cfg = small_config();
    assert!(check_config(&cfg).is_ok());
    cfg.dimension = 0;
    assert_eq!(check_config(&cfg).unwrap_err(), "dimension must be greater than zero");
    cfg = small_config();
    cfg.top_k = 0;
    assert_eq!(check_config(&cfg).unwrap_err(), "top_k must be greater than zero");
    cfg = small_config();
    cfg.num_queries = 0;
    assert_eq!(
        check_config(&cfg).unwrap_err(),
        "num_vectors and num_queries must be greater than zero"
    );
    let d = CorpusConfig::default();
    assert_eq!((d.num_vectors, d.dimension, d.top_k, d.num_categories), (10_000_000, 512, 10, 1000));
}

#[test]
fn metric_names_ignore_ascii_case() {
    assert_eq!(parse_metric("Cosine").unwrap(), Metric::Cosine);
    assert_eq!(parse_metric("L2").unwrap(), Metric::L2);
    assert_eq!(parse_metric("dot").unwrap(), Metric::Dot);
    assert_eq!(parse_metric("Hamming").unwrap_err(), "unknown metric: hamming");
}

#[test]
fn serialized_fixtures_have_the_documented_layout() {
    let cfg = small_config();
    let corpus: Vec<u32> = (0..16).map(|i| (i as f32).to_bits()).collect();
    let gt = vec![GroundTruthBits { indices: vec![1, 0], distances: vec![0.5f32.to_bits(), 1.5f32.to_bits()] }];
    let s = serialize(&cfg, &corpus, &[3, 4], &corpus[..8], &gt, "{}".to_string());
    assert_eq!(&s.corpus_bytes[..4], b"FRC1");
    assert_eq!(&s.corpus_bytes[4..8], &1u32.to_le_bytes());
    assert_eq!(&s.corpus_bytes[8..12], &8u32.to_le_bytes());
    assert_eq!(&s.corpus_bytes[12..20], &2u64.to_le_bytes());
    assert_eq!(s.corpus_bytes.len(), 20 + 16 * 4);
    assert_eq!(&s.corpus_bytes[24..28], &1.0f32.to_le_bytes());
    assert_eq!(s.meta_bytes, [b"FRM1".as_slice(), &2u64.to_le_bytes(), &3u16.to_le_bytes(), &4u16.to_le_bytes()].concat());
    assert_eq!(&s.queries_bytes[..4], b"FRQ1");
    assert_eq!(&s.queries_bytes[12..20], &1u64.to_le_bytes());
    let mut truth = b"FRG1".to_vec();
    truth.extend(1u32.to_le_bytes());
    truth.extend(1u64.to_le_bytes());
    truth.extend(5u32.to_le_bytes());
    truth.extend(1u32.to_le_bytes());
    truth.extend(0u32.to_le_bytes());
    truth.extend(0.5f32.to_le_bytes());
    truth.extend(1.5f32.to_le_bytes());
    assert_eq!(s.ground_truth_bytes, truth);
    assert_eq!(s.manifest, "{}");
}

fn clustered_fixture() -> clustered::Serialized {
    let corpus: Vec<u32> = (0..12).map(|i| (i as f32 / 4.0).to_bits()).collect();
    let queries: Vec<u32> = corpus[..8].to_vec();
    let gt = vec![
        GroundTruthBits { indices: vec![0, 1], distances: vec![0.0f32.to_bits(), 0.25f32.to_bits()] },
        GroundTruthBits { indices: vec![1, 2], distances: vec![0.0f32.to_bits(), 0.5f32.to_bits()] },
    ];
    let manifest = "{\n  \"format_version\": 1,\n  \"metric\": \"L2\",\n  \"num_categories\": 10,\n  \"top_k\": 2\n}";
    clustered::serialize(4, 2, &corpus, &[1, 2, 3], &queries, &gt, manifest.to_string())
}

#[test]
fn load_round_trips_written_fixtures() {
    let s = clustered_fixture();
    let loaded = parse_fixtures(
        &s.corpus_bytes,
        &s.meta_bytes,
        &s.queries_bytes,
        &s.ground_truth_bytes,
        &s.manifest,
    )
    .expect("roundtrip");
    assert_eq!(loaded.dimension, 4);
    assert_eq!(loaded.metric, Metric::L2);
    assert_eq!(loaded.num_categories, 10);
    assert_eq!(loaded.top_k, 2);
    assert_eq!(loaded.corpus.len(), 12);
    assert_eq!(loaded.categories, vec![1, 2, 3]);
    assert_eq!(loaded.queries.len(), 8);
    assert_eq!(loaded.ground_truth.len(), 2);
    assert_eq!(loaded.ground_truth[1].indices, vec![1, 2]);
    assert_eq!(loaded.ground_truth[1].distances, vec![0.0f32.to_bits(), 0.5f32.to_bits()]);
}

#[test]
fn load_rejects_uniform_magic() {
    let s = clustered_fixture();
    let mut wrong = s.corpus_bytes.clone();
    wrong[..4].copy_from_slice(b"FRC1");
    let err = parse_fixtures(&wrong, &s.meta_bytes, &s.queries_bytes, &s.ground_truth_bytes, &s.manifest)
        .unwrap_err();
    assert_eq!(err, "clustered fixture magic mismatch");
}

#[test]
fn load_reports_the_first_problem() {
    let s = clustered_fixture();
    let err = parse_fixtures(&s.corpus_bytes[..30], &s.meta_bytes, &s.queries_bytes, &s.ground_truth_bytes, &s.manifest)
        .unwrap_err();
    assert_eq!(err, "clustered fixture truncated: wanted 48 bytes at offset 20, file has 30");
    let mut v2 = s.meta_bytes.clone();
    v2[4..8].copy_from_slice(&2u32.to_le_bytes());
    let err = parse_fixtures(&s.corpus_bytes, &v2, &s.queries_bytes, &s.ground_truth_bytes, &s.manifest).unwrap_err();
    assert_eq!(err, "clustered fixture format version 2 != supported 1");
    let cut = s.ground_truth_bytes.len() - 3;
    let err = parse_fixtures(&s.corpus_bytes, &s.meta_bytes, &s.queries_bytes, &s.ground_truth_bytes[..cut], &s.manifest)
        .unwrap_err();
    assert_eq!(err, "clustered fixture truncated: wanted 8 bytes at offset 44, file has 49");
    let cut = s.ground_truth_bytes.len() - 9;
    let err = parse_fixtures(&s.corpus_bytes, &s.meta_bytes, &s.queries_bytes, &s.ground_truth_bytes[..cut], &s.manifest)
        .unwrap_err();
    assert_eq!(err, "clustered fixture truncated: wanted 4 bytes at offset 40, file has 43");
    let err = parse_fixtures(&s.corpus_bytes, &s.meta_bytes[..20], &s.queries_bytes, &s.ground_truth_bytes, &s.manifest)
        .unwrap_err();
    assert_eq!(err, "clustered fixture truncated: wanted 6 bytes at offset 16, file has 20");
    let err = parse_fixtures(&s.corpus_bytes, &s.meta_bytes, &s.queries_bytes, &s.ground_truth_bytes, "{}")
        .unwrap_err();
    assert_eq!(err, "params.json missing usable \"metric\"");
    let err = parse_fixtures(
        &s.corpus_bytes,
        &s.meta_bytes,
        &s.queries_bytes,
        &s.ground_truth_bytes,
        "\"metric\": \"Dot\", \"num_categories\": 0,",
    )
    .unwrap_err();
    assert_eq!(err, "params.json missing usable \"num_categories\"");
}

#[test]
fn manifest_fields_parse_like_json_numbers() {
    let m = "{\"metric\": \"Cosine\", \"top_k\":   42,\n\"seed\": 99999999999, \"dim\": 7}";
    assert_eq!(json_metric_field(m), Some(clustered::Metric::Cosine));
    assert_eq!(json_u32_field(m, "top_k"), Some(42));
    assert_eq!(json_u32_field(m, "seed"), None);
    assert_eq!(json_u32_field(m, "dim"), Some(7));
    assert_eq!(json_u32_field(m, "missing"), None);
    assert_eq!(json_u32_field("\"n\": 12", "n"), None);
    assert_eq!(json_metric_field("\"metric\": \"cosine\""), None);
}

#[test]
fn reader_reports_truncation_without_moving() {
    let bytes = [1u8, 0, 0, 0, 2];
    let mut r = Reader::new(&bytes);
    assert_eq!(r.u32().unwrap(), 1);
    assert_eq!(r.u32().unwrap_err(), "clustered fixture truncated: wanted 4 bytes at offset 4, file has 5");
    assert_eq!(r.take(1).unwrap(), &[2u8]);
}
