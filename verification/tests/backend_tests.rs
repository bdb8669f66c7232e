use mcp_rust_docs_embed::backend::{repo_name_from_collection, status_text};
use mcp_rust_docs_embed::config::EmbedConfig;
use mcp_rust_docs_embed::embedding::make_batches;
use mcp_rust_docs_embed::error::BackendError;
use mcp_rust_docs_embed::features::{sorted_feature_names, validate_features};
use mcp_rust_docs_embed::ingest::{EmbedDecision, IngestRun, package_embed_precheck, repo_embed_precheck};
use mcp_rust_docs_embed::registry::{EmbedOperation, EmbedStatus, OperationRegistry};
use mcp_rust_docs_embed::store::{PointIdGen, check_query_results, keep_content_hits, query_precheck};

fn strings(v: &[&str]) -> Vec<String> {
    v.iter().map(|s| s.to_string()).collect()
}

#[test]
fn test_registry_lifecycle() {
    let mut reg = OperationRegistry::new();
    let op = EmbedOperation {
        status: EmbedStatus::InProgress,
        repo_url: "https://github.com/tokio-rs/tokio".to_string(),
        message: "Starting repository processing and embedding".to_string(),
    };
    assert!(reg.register("embed_tokio-rs_tokio_1".to_string(), op));
    assert_eq!(reg.len(), 1);

    let got = reg.get("embed_tokio-rs_tokio_1").unwrap();
    assert_eq!(got.status, EmbedStatus::InProgress);

    // a second registration under the same id changes nothing
    let op2 = EmbedOperation {
        status: EmbedStatus::InProgress,
        repo_url: "other".to_string(),
        message: "m".to_string(),
    };
    assert!(!reg.register("embed_tokio-rs_tokio_1".to_string(), op2));
    assert_eq!(reg.len(), 1);

    // unknown ids are not found
    assert!(reg.get("missing").is_none());

    // the transition to a terminal state happens exactly once
    assert!(reg.finish("embed_tokio-rs_tokio_1", true, "done".to_string()));
    let got = reg.get("embed_tokio-rs_tokio_1").unwrap();
    assert_eq!(got.status, EmbedStatus::Completed);
    assert_eq!(got.message, "done");

    // a terminal operation never changes again
    assert!(!reg.finish("embed_tokio-rs_tokio_1", false, "late".to_string()));
    let got = reg.get("embed_tokio-rs_tokio_1").unwrap();
    assert_eq!(got.status, EmbedStatus::Completed);
    assert_eq!(got.message, "done");
}

#[test]
fn test_status_text_values() {
    assert_eq!(status_text(EmbedStatus::InProgress), "in_progress");
    assert_eq!(status_text(EmbedStatus::Completed), "completed");
    assert_eq!(status_text(EmbedStatus::Failed), "failed");
}

#[test]
fn test_repo_name_from_collection() {
    assert_eq!(
        repo_name_from_collection("repo_tokio_rs_tokio"),
        Some("tokio_rs/tokio".to_string())
    );
    assert_eq!(repo_name_from_collection("serde_v1_0_0"), None);
}

#[test]
fn test_keep_content_hits_skips_sentinel() {
    let hits = vec![
        Some("first".to_string()),
        None,
        Some("second".to_string()),
    ];
    let kept = keep_content_hits(&hits);
    assert_eq!(kept, vec![(0, "first".to_string()), (2, "second".to_string())]);
}

#[test]
fn test_query_precheck_missing_collection() {
    let err = query_precheck(false, "serde", "9.9.9").unwrap_err();
    assert!(matches!(
        err,
        BackendError::NoEmbeddedDocs { ref crate_name, ref version }
            if crate_name == "serde" && version == "9.9.9"
    ));
    assert!(err.is_invalid_request());
    assert!(query_precheck(true, "serde", "1.0.0").is_ok());
}

#[test]
fn test_check_query_results_empty() {
    let err = check_query_results(Vec::new(), "anything").unwrap_err();
    assert!(matches!(err, BackendError::NoQueryResults(ref q) if q == "anything"));
    let ok = check_query_results(vec![(1, "hit".to_string())], "q").unwrap();
    assert_eq!(ok.len(), 1);
}

#[test]
fn test_repo_embed_precheck_idempotent() {
    assert_eq!(repo_embed_precheck(true), EmbedDecision::AlreadyEmbedded);
    assert_eq!(repo_embed_precheck(false), EmbedDecision::Start);
}

#[test]
fn test_package_embed_precheck_conflict() {
    // collection for (serde, 1.0.0, ["derive"]) exists; requesting more features conflicts
    let existing = Some(strings(&["derive"]));
    let requested = strings(&["derive", "std"]);
    let err = package_embed_precheck(true, existing, &requested, "serde").unwrap_err();
    assert!(matches!(err, BackendError::Conflict(ref c) if c == "serde"));

    // matching features succeed idempotently
    let existing = Some(strings(&["derive", "std"]));
    let d = package_embed_precheck(true, existing, &requested, "serde").unwrap();
    assert_eq!(d, EmbedDecision::AlreadyEmbedded);

    // a missing collection always starts an ingestion
    let d = package_embed_precheck(false, None, &requested, "serde").unwrap();
    assert_eq!(d, EmbedDecision::Start);
}

#[test]
fn test_validate_features_unknown() {
    let available = strings(&["derive", "std"]);
    assert!(validate_features(&strings(&["derive"]), &available).is_ok());
    let err = validate_features(&strings(&["derive", "nope"]), &available).unwrap_err();
    assert!(matches!(err, BackendError::UnknownFeature(ref f) if f == "nope"));
}

#[test]
fn test_sorted_feature_names() {
    let sorted = sorted_feature_names(strings(&["std", "derive", "alloc", "derive"]));
    assert_eq!(sorted, strings(&["alloc", "derive", "derive", "std"]));
}

#[test]
fn test_ingest_run_doc_count() {
    let mut run = IngestRun::start();
    run.fetched(true);
    run.chunked(3);
    run.reset_done(true);
    run.upserted_one();
    run.upserted_one();
    run.upserted_one();
    run.finish_embedding();
    let meta = run.metadata_record(
        "tokio".to_string(),
        "repo".to_string(),
        Vec::new(),
        "2024-01-01T00:00:00Z".to_string(),
        "text-embedding-3-small".to_string(),
    );
    assert_eq!(meta.doc_count, 3);
    assert_eq!(meta.embedding_model, "text-embedding-3-small");
    run.wrote_metadata(true);
}

#[test]
fn test_point_ids_fresh_and_positive() {
    let mut gen = PointIdGen::new();
    let a = gen.fresh();
    let b = gen.fresh();
    let c = gen.fresh();
    assert!(a >= 1 && b >= 1 && c >= 1);
    assert!(a != b && b != c && a != c);
}

#[test]
fn test_make_batches_bounds() {
    let texts: Vec<String> = (0..120).map(|i| format!("chunk {i}")).collect();
    let batches = make_batches(texts.clone());
    assert_eq!(batches.len(), 3);
    assert_eq!(batches[0].len(), 50);
    assert_eq!(batches[1].len(), 50);
    assert_eq!(batches[2].len(), 20);
    let flat: Vec<String> = batches.into_iter().flatten().collect();
    assert_eq!(flat, texts);
}

#[test]
fn test_embed_config_default() {
    let c = EmbedConfig::default();
    assert_eq!(c.chunk_size, 3000);
    assert_eq!(c.chunk_overlap, 200);
}

#[test]
fn test_status_lookup_unknown_operation() {
    let reg = OperationRegistry::new();
    let err = reg.lookup("missing-op").unwrap_err();
    assert!(matches!(err, BackendError::OperationNotFound(ref id) if id == "missing-op"));
    assert!(err.is_invalid_request());
}

#[test]
fn test_error_messages() {
    let e = BackendError::NoQueryResults("rust async".to_string());
    assert_eq!(e.message(), "no results found for query: rust async");
    assert!(e.is_invalid_request());

    let e = BackendError::OperationNotFound("op-1".to_string());
    assert_eq!(e.message(), "no embedding operation found with ID: op-1");

    let e = BackendError::Internal("boom".to_string());
    assert_eq!(e.message(), "internal error: boom");
    assert!(!e.is_invalid_request());

    let e = BackendError::VersionResolutionFailed("serde".to_string());
    assert_eq!(e.message(), "could not resolve latest crate version for 'serde'");
    assert!(e.is_invalid_request());

    let e = BackendError::ServiceInitialization("no key".to_string());
    assert_eq!(e.message(), "failed to initialize service: no key");
    assert!(!e.is_invalid_request());
}
