//! Reference discovery: each encoding of the cascade on its own page,
//! the ordering and deduplication rules, and the revision-id readers.
use phab_comments::refs::{discover_refs, adjacent_refs, extract_diff_id_from_url};
use phab_comments::parse_diff_id;

#[test]
fn plain_query_parameter_is_found() {
    let page = "<a href=\"/differential/changeset/?ref=123456&whitespace=ignore-all\">";
    assert_eq!(discover_refs(page), vec!["123456".to_string()]);
}

#[test]
fn quoted_json_encoding_is_found() {
    let page = "window.data = {\"ref\":\"8450617\"};";
    assert_eq!(discover_refs(page), vec!["8450617".to_string()]);
}

#[test]
fn quoted_script_encoding_is_found() {
    let page = "init({'ref': '8450617'});";
    assert_eq!(discover_refs(page), vec!["8450617".to_string()]);
}

#[test]
fn bare_key_quoted_value_encoding_is_found() {
    let page = "config = [ref: '8450617'];";
    assert_eq!(discover_refs(page), vec!["8450617".to_string()]);
}

#[test]
fn bare_key_bare_value_encoding_is_found() {
    let page = "config = [ref: 8450617];";
    assert_eq!(discover_refs(page), vec!["8450617".to_string()]);
}

#[test]
fn element_id_encoding_is_found() {
    let page = "<td id=\"C8450617OL1\">x</td> <td id=\"C8450617NL1\">y</td>";
    assert_eq!(discover_refs(page), vec!["8450617".to_string()]);
}

#[test]
fn alternate_encodings_pool_and_deduplicate() {
    let page = "{\"ref\":\"8450617\"} and 'ref': '8450618' and again {\"ref\":\"8450617\"}";
    assert_eq!(
        discover_refs(page),
        vec!["8450617".to_string(), "8450618".to_string()]
    );
}

#[test]
fn short_alternate_captures_are_dropped() {
    // Six digits is below the plausible identifier length for the
    // alternate encodings.
    let page = "{\"ref\":\"123456\"}";
    assert_eq!(discover_refs(page), Vec::<String>::new());
}

#[test]
fn first_stage_shadows_later_stages() {
    let page = "ref=111 and also {\"ref\":\"8450617\"}";
    assert_eq!(discover_refs(page), vec!["111".to_string()]);
}

#[test]
fn bare_digit_scan_needs_word_boundaries() {
    let page = "see 8450617 but not x1234567 nor 123456789 nor 123456.";
    assert_eq!(discover_refs(page), vec!["8450617".to_string()]);
}

#[test]
fn eight_digit_identifier_is_taken_whole() {
    let page = "changeset 12345678 rendered";
    assert_eq!(discover_refs(page), vec!["12345678".to_string()]);
}

#[test]
fn empty_page_yields_no_references() {
    assert_eq!(discover_refs("nothing to see"), Vec::<String>::new());
}

#[test]
fn adjacent_identifiers_surround_the_revision() {
    assert_eq!(
        adjacent_refs(100),
        vec![
            "100".to_string(),
            "101".to_string(),
            "102".to_string(),
            "99".to_string(),
            "98".to_string(),
        ]
    );
}

#[test]
fn adjacent_identifiers_skip_out_of_range_neighbours() {
    assert_eq!(
        adjacent_refs(1),
        vec!["1".to_string(), "2".to_string(), "3".to_string(), "0".to_string()]
    );
    assert_eq!(
        adjacent_refs(0),
        vec!["0".to_string(), "1".to_string(), "2".to_string()]
    );
}

#[test]
fn url_revision_id_reads_digits_to_a_boundary() {
    assert_eq!(extract_diff_id_from_url("https://reviews.example.test/D12345"), Some(12345));
    assert_eq!(
        extract_diff_id_from_url("https://reviews.example.test/D12345?vs=on"),
        Some(12345)
    );
    assert_eq!(
        extract_diff_id_from_url("https://reviews.example.test/D12345#comment"),
        Some(12345)
    );
    assert_eq!(extract_diff_id_from_url("https://reviews.example.test/D12345x"), None);
    assert_eq!(extract_diff_id_from_url("https://reviews.example.test/about"), None);
}

#[test]
fn revision_id_accepts_prefixed_forms() {
    assert_eq!(parse_diff_id("12345"), Some(12345));
    assert_eq!(parse_diff_id("D12345"), Some(12345));
    assert_eq!(parse_diff_id("d12345"), Some(12345));
    assert_eq!(parse_diff_id("Dd12345"), Some(12345));
    assert_eq!(parse_diff_id("dD12345"), None);
    assert_eq!(parse_diff_id("D"), None);
    assert_eq!(parse_diff_id(""), None);
    assert_eq!(parse_diff_id("+7"), Some(7));
    assert_eq!(parse_diff_id("99999999999"), None);
    assert_eq!(parse_diff_id("4294967295"), Some(u32::MAX));
    assert_eq!(parse_diff_id("4294967296"), None);
}
