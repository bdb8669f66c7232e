use mcp_rust_docs_embed::error::BackendError;
use mcp_rust_docs_embed::utils::{
    extract_repo_name_from_url, gen_table_name, gen_table_name_for_repo, parse_repository_input,
};

#[test]
fn test_gen_table_name_for_repo() {
    assert_eq!(
        gen_table_name_for_repo("https://github.com/rust-lang/rust").unwrap(),
        "repo_rust_lang_rust"
    );
    assert_eq!(
        gen_table_name_for_repo("https://github.com/tokio-rs/tokio").unwrap(),
        "repo_tokio_rs_tokio"
    );
}

#[test]
fn test_extract_repo_name_from_url() {
    assert_eq!(
        extract_repo_name_from_url("https://github.com/rust-lang/rust").unwrap(),
        "rust-lang_rust"
    );
    assert_eq!(
        extract_repo_name_from_url("https://github.com/tokio-rs/tokio").unwrap(),
        "tokio-rs_tokio"
    );
}

#[test]
fn test_parse_repository_input() {
    // Full URLs
    assert_eq!(
        parse_repository_input("https://github.com/rust-lang/rust").unwrap(),
        "https://github.com/rust-lang/rust"
    );

    // GitHub URLs with extra path segments
    assert_eq!(
        parse_repository_input(
            "https://github.com/0xDAEF0F/da-crawler/blob/master/utils/job-ai-analysis.schema.ts"
        )
        .unwrap(),
        "https://github.com/0xDAEF0F/da-crawler"
    );
    assert_eq!(
        parse_repository_input("https://github.com/rust-lang/rust/tree/master/src/libstd")
            .unwrap(),
        "https://github.com/rust-lang/rust"
    );
    assert_eq!(
        parse_repository_input("https://github.com/tokio-rs/tokio/pull/1234").unwrap(),
        "https://github.com/tokio-rs/tokio"
    );

    // Non-GitHub URLs are returned as they are
    assert_eq!(
        parse_repository_input("https://gitlab.com/owner/repo").unwrap(),
        "https://gitlab.com/owner/repo"
    );

    // owner/repo format
    assert_eq!(
        parse_repository_input("rust-lang/rust").unwrap(),
        "https://github.com/rust-lang/rust"
    );
    assert_eq!(
        parse_repository_input("tokio-rs/tokio").unwrap(),
        "https://github.com/tokio-rs/tokio"
    );

    // Invalid formats
    assert!(parse_repository_input("invalid").is_err());
    assert!(parse_repository_input("owner/repo/extra").is_err());
    assert!(parse_repository_input("/repo").is_err());
    assert!(parse_repository_input("owner/").is_err());
}

#[test]
fn test_parse_repository_input_idempotent() {
    // Re-parsing an accepted input's canonical form gives the same canonical form.
    for input in [
        "https://github.com/rust-lang/rust",
        "https://github.com/rust-lang/rust/tree/master/src/libstd",
        "https://gitlab.com/owner/repo",
        "rust-lang/rust",
        "tokio-rs/tokio",
    ] {
        let once = parse_repository_input(input).unwrap();
        let twice = parse_repository_input(&once).unwrap();
        assert_eq!(once, twice);
    }
}

#[test]
fn test_package_collection_name() {
    assert_eq!(gen_table_name("my-crate", "1.0.0"), "my_crate_v1_0_0");
    assert_eq!(gen_table_name("Serde", "1.0"), "serde_v1_0");
}

#[test]
fn test_invalid_target_error_kind() {
    let err = parse_repository_input("invalid").unwrap_err();
    assert!(matches!(err, BackendError::InvalidTarget(_)));
    assert!(err.is_invalid_request());
}
