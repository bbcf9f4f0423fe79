use ferrite_db::corpus::Metric as CorpusMetric;
use ferrite_db::explorer::{family_from_name, session_spec_from_request, SessionSpec};
use ferrite_db::index_substrate::{IndexFamily, LadderChoice, LadderOverride};

#[test]
fn default_session_spec() {
    let spec = SessionSpec::default();
    assert_eq!(spec.num_vectors, 2_000);
    assert_eq!(spec.dimension, 64);
    assert_eq!(spec.num_categories, 50);
    assert_eq!(spec.seed, 42);
    assert_eq!(spec.family, IndexFamily::IvfHnswFlat);
}

#[test]
fn session_derives_its_dataset_and_index() {
    let spec = SessionSpec { num_vectors: 400, dimension: 40, num_categories: 10, seed: 7, family: IndexFamily::IvfPq };
    let c = spec.corpus_config();
    assert_eq!(c.num_vectors, 400);
    assert_eq!(c.dimension, 40);
    assert_eq!(c.num_queries, 16);
    assert_eq!(c.top_k, 10);
    assert_eq!(c.seed, 7);
    assert_eq!(c.num_categories, 10);
    assert_eq!(c.metric, CorpusMetric::Cosine);
    assert_eq!(spec.ladder_override(), LadderOverride::Force(LadderChoice::IvfPq));
    let p = spec.index_params();
    assert_eq!(p.family, IndexFamily::IvfPq);
    assert_eq!(p.num_partitions, 4);
    assert_eq!(p.num_sub_vectors, Some(2));
    assert_eq!(p.ef_construction, None);
    assert_eq!(spec.family_label(), "IVF-PQ");

    let small = SessionSpec { dimension: 8, ..spec };
    assert_eq!(small.index_params().num_sub_vectors, Some(1));

    let hnsw = SessionSpec::default();
    assert_eq!(hnsw.ladder_override(), LadderOverride::Force(LadderChoice::Hnsw));
    let p = hnsw.index_params();
    assert_eq!(p.num_sub_vectors, None);
    assert_eq!(p.ef_construction, Some(64));
    assert_eq!(hnsw.family_label(), "IVF-HNSW-Flat");
}

#[test]
fn family_names_select_index_families() {
    assert_eq!(family_from_name("hnsw").unwrap(), IndexFamily::IvfHnswFlat);
    assert_eq!(family_from_name("IvfHnswFlat").unwrap(), IndexFamily::IvfHnswFlat);
    assert_eq!(family_from_name("").unwrap(), IndexFamily::IvfHnswFlat);
    assert_eq!(family_from_name("pq").unwrap(), IndexFamily::IvfPq);
    assert_eq!(family_from_name("IvfPq").unwrap(), IndexFamily::IvfPq);
    assert_eq!(family_from_name("HNSW").unwrap_err(), "unknown index family \"HNSW\" (hnsw | pq)");
    assert_eq!(family_from_name("a\"b").unwrap_err(), "unknown index family \"a\\\"b\" (hnsw | pq)");
}

#[test]
fn ingest_requests_are_defaulted_and_clamped() {
    let spec = session_spec_from_request(None, None, None, None, None).unwrap();
    assert_eq!(spec.num_vectors, 2_000);
    assert_eq!(spec.dimension, 64);
    assert_eq!(spec.num_categories, 50);
    assert_eq!(spec.seed, 42);
    assert_eq!(spec.family, IndexFamily::IvfHnswFlat);

    let spec = session_spec_from_request(Some(500_000), Some(2), Some(0), Some(7), Some("pq")).unwrap();
    assert_eq!(spec.num_vectors, 200_000);
    assert_eq!(spec.dimension, 8);
    assert_eq!(spec.num_categories, 1);
    assert_eq!(spec.seed, 7);
    assert_eq!(spec.family, IndexFamily::IvfPq);

    let spec = session_spec_from_request(Some(10), Some(4096), Some(3), None, Some("")).unwrap();
    assert_eq!(spec.num_vectors, 10);
    assert_eq!(spec.dimension, 1024);
    assert_eq!(spec.num_categories, 3);
    assert_eq!(spec.family, IndexFamily::IvfHnswFlat);

    assert_eq!(
        session_spec_from_request(None, None, None, None, Some("flat")).unwrap_err(),
        "unknown index family \"flat\" (hnsw | pq)"
    );
}
