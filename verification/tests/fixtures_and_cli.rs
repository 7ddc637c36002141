use std::path::PathBuf;

use witness_generator::cli::rpc_builder_from_args;
use witness_generator::fixtures::{
    ends_with, path_to_zkevm_fixtures, select_files_with_extension, ExecSpecTestBlocksAndWitnesses,
};
use witness_generator::rpc::BlockTag;

#[test]
fn fixtures_path_below_workspace() {
    assert_eq!(path_to_zkevm_fixtures("/work"), "/work/zkevm-fixtures/fixtures/blockchain_tests");
    assert_eq!(path_to_zkevm_fixtures(""), "/zkevm-fixtures/fixtures/blockchain_tests");
}

#[test]
fn generator_keeps_its_directory() {
    let g = ExecSpecTestBlocksAndWitnesses::new(PathBuf::from("/tmp/fixtures"));
    assert_eq!(g.directory_path(), &PathBuf::from("/tmp/fixtures"));
}

#[test]
fn extension_is_a_suffix_of_the_name() {
    assert!(ends_with("add.json", ".json"));
    assert!(ends_with(".json", ".json"));
    assert!(ends_with("x", ""));
    assert!(!ends_with("json", ".json"));
    assert!(!ends_with("add.json.bak", ".json"));
    assert!(ends_with("ünï.json", ".json"));
}

#[test]
fn selection_keeps_matching_files_in_order() {
    let entries: Vec<(String, bool)> = [
        ("tests", false),
        ("a.json", true),
        ("b.txt", true),
        ("cases.json", false),
        ("c.json", true),
        ("json", true),
        ("d.JSON", true),
        ("e.json", true),
    ]
    .iter()
    .map(|(n, f)| (n.to_string(), *f))
    .collect();
    assert_eq!(select_files_with_extension(&entries, ".json"), vec![1, 4, 7]);
    assert_eq!(select_files_with_extension(&vec![], ".json"), Vec::<usize>::new());
}

#[test]
fn generator_clone_keeps_directory() {
    let g = ExecSpecTestBlocksAndWitnesses::new(PathBuf::from("/data/t"));
    assert_eq!(g.clone().directory_path(), &PathBuf::from("/data/t"));
}

#[test]
fn rpc_source_needs_a_block_selection() {
    let r = rpc_builder_from_args("http://rpc".to_string(), None, None, None);
    assert_eq!(r.unwrap_err(), "Either --last-n-blocks or --block must be specified");
}

#[test]
fn rpc_source_with_count_and_headers() {
    let b = rpc_builder_from_args(
        "http://rpc".to_string(),
        Some(4),
        None,
        Some(vec!["X-Key:abc".to_string(), "Other:1:2".to_string()]),
    )
    .unwrap()
    .build();
    assert_eq!(b.last_n_blocks(), 4);
    assert_eq!(b.head(), BlockTag::Latest);
    assert_eq!(b.url(), "http://rpc");
    assert_eq!(b.header_map().get("x-key").unwrap(), "abc");
    assert_eq!(b.header_map().get("other").unwrap(), "1:2");
}

#[test]
fn rpc_source_block_number_wins() {
    let b = rpc_builder_from_args("http://rpc".to_string(), Some(4), Some(77), None).unwrap().build();
    assert_eq!(b.head(), BlockTag::Number(77));
    assert_eq!(b.last_n_blocks(), 1);
}

#[test]
fn rpc_source_reports_header_errors() {
    let r = rpc_builder_from_args("u".to_string(), Some(1), None, Some(vec!["nocolon".to_string()]));
    assert_eq!(r.unwrap_err(), "invalid header format: 'nocolon'. expected 'key:value'");
    let r = rpc_builder_from_args("u".to_string(), Some(1), None, Some(vec!["bad name:v".to_string()]));
    assert_eq!(r.unwrap_err(), "invalid HTTP header name");
    let r = rpc_builder_from_args("u".to_string(), None, Some(3), Some(vec!["k:\u{7f}".to_string()]));
    assert_eq!(r.unwrap_err(), "failed to parse header value");
}
