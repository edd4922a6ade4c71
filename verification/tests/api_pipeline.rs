//! API response interpretation, comment classification, and rendering.
use phab_comments::api::{
    phid_from_revision_response,
    transactions_from_response,
    diff_id_from_search,
    changeset_ids_from_transactions,
    display_name,
    user_display_from_response,
    UserCache,
    ApiError,
};
use phab_comments::assemble::{extract_comments, plan_suggestion_requests};
use phab_comments::markdown::format_as_markdown;
use phab_comments::time::format_timestamp;
use phab_comments::text::normalize_base_url;

#[test]
fn revision_search_yields_the_first_identifier() {
    let body = "{\"result\":{\"data\":[{\"phid\":\"PHID-DREV-1\"},{\"phid\":\"PHID-DREV-2\"}]}}";
    assert_eq!(phid_from_revision_response(body).unwrap(), "PHID-DREV-1");
}

#[test]
fn revision_search_reports_service_errors() {
    let body = "{\"error_code\":\"ERR-X\",\"error_info\":\"went wrong\"}";
    match phid_from_revision_response(body) {
        Err(ApiError::Api(code, info)) => {
            assert_eq!(code, "ERR-X");
            assert_eq!(info, "went wrong");
        },
        _ => panic!("service error must be surfaced"),
    }
}

#[test]
fn revision_search_reports_missing_result() {
    match phid_from_revision_response("{\"result\":null}") {
        Err(ApiError::NoResultData) => {},
        _ => panic!("missing result must be reported"),
    }
    match phid_from_revision_response("{\"result\":{\"data\":[]}}") {
        Err(ApiError::NoRevisionFound) => {},
        _ => panic!("an empty listing must be reported"),
    }
    match phid_from_revision_response("not json at all") {
        Err(ApiError::Malformed) => {},
        _ => panic!("unreadable bodies must be reported"),
    }
}

#[test]
fn diff_search_reads_the_newest_identifier() {
    assert_eq!(
        diff_id_from_search("{\"result\":{\"data\":[{\"id\":42},{\"id\":41}]}}"),
        Some("42".to_string())
    );
    assert_eq!(
        diff_id_from_search("{\"result\":{\"data\":[{\"id\":\"77\"}]}}"),
        Some("77".to_string())
    );
    assert_eq!(diff_id_from_search("{\"result\":{\"data\":[]}}"), None);
    assert_eq!(diff_id_from_search("broken"), None);
}

#[test]
fn display_name_prefers_the_real_name() {
    assert_eq!(display_name("Ada L", "ada", "PHID-USER-1"), "Ada L (ada)");
    assert_eq!(display_name("Ada L", "", "PHID-USER-1"), "Ada L");
    assert_eq!(display_name("", "ada", "PHID-USER-1"), "ada");
    assert_eq!(display_name("", "", "PHID-USER-1"), "PHID-USER-1");
}

#[test]
fn user_search_falls_back_to_the_identifier() {
    let good = "{\"result\":{\"data\":[{\"fields\":{\"realName\":\"Ada L\",\"username\":\"ada\"}}]}}";
    assert_eq!(user_display_from_response(good, "PHID-USER-1"), "Ada L (ada)");
    let err = "{\"error_code\":\"X\"}";
    assert_eq!(user_display_from_response(err, "PHID-USER-1"), "PHID-USER-1");
    assert_eq!(user_display_from_response("junk", "PHID-USER-1"), "PHID-USER-1");
    let empty = "{\"result\":{\"data\":[]}}";
    assert_eq!(user_display_from_response(empty, "PHID-USER-1"), "PHID-USER-1");
}

#[test]
fn user_cache_remembers_resolved_names() {
    let mut cache = UserCache::new();
    assert_eq!(cache.lookup("PHID-USER-1"), None);
    cache.record("PHID-USER-1".to_string(), "Ada L (ada)".to_string());
    assert_eq!(cache.lookup("PHID-USER-1"), Some("Ada L (ada)".to_string()));
    assert_eq!(cache.lookup("PHID-USER-2"), None);
}

#[test]
fn epoch_renders_as_the_expected_timestamp() {
    assert_eq!(format_timestamp(0), "1970-01-01 00:00:00");
    assert_eq!(format_timestamp(86400), "1970-01-02 00:00:00");
}

#[test]
fn base_url_loses_trailing_slashes() {
    assert_eq!(normalize_base_url("https://reviews.example.test/"), "https://reviews.example.test");
    assert_eq!(normalize_base_url("https://reviews.example.test"), "https://reviews.example.test");
    assert_eq!(normalize_base_url("x///"), "x");
}

fn sample_transactions() -> String {
    let comment_tx = "{\"type\":\"comment\",\"authorPHID\":\"PHID-USER-1\",\"dateCreated\":200,\
\"comments\":[{\"content\":{\"raw\":\"looks good\"},\"id\":11}],\"id\":1}";
    let inline_tx = "{\"type\":\"inline\",\"authorPHID\":\"PHID-USER-2\",\"dateCreated\":100,\
\"comments\":[{\"content\":{\"raw\":\"\"},\"id\":12}],\
\"fields\":{\"line\":7,\"length\":2,\"path\":\"src/a.rs\",\"isDone\":false,\"diff\":{\"id\":9}},\"id\":2}";
    let action_tx = "{\"type\":\"accept\",\"authorPHID\":\"PHID-USER-1\",\"dateCreated\":300,\
\"comments\":[{\"content\":{\"raw\":\"ship it\"},\"id\":13}],\"id\":3}";
    format!(
        "{{\"result\":{{\"data\":[{},{},{}]}}}}",
        comment_tx, inline_tx, action_tx
    )
}

#[test]
fn transactions_parse_into_records() {
    let ts = transactions_from_response(&sample_transactions()).unwrap();
    assert_eq!(ts.len(), 3);
    assert_eq!(ts[0].transaction_type.as_deref(), Some("comment"));
    assert_eq!(ts[0].date_created, 200);
    assert_eq!(ts[0].comments.len(), 1);
    assert_eq!(ts[0].comments[0].raw.as_deref(), Some("looks good"));
    assert_eq!(ts[0].id_text, "1");
    assert_eq!(ts[1].comments[0].raw.as_deref(), Some(""));
    assert_eq!(changeset_ids_from_transactions(&ts), vec!["9".to_string()]);
}

#[test]
fn transaction_shape_errors_are_malformed() {
    // A transaction without its creation time cannot be read.
    let body = "{\"result\":{\"data\":[{\"type\":\"comment\",\"comments\":[],\"id\":1}]}}";
    match transactions_from_response(body) {
        Err(ApiError::Malformed) => {},
        _ => panic!("shape surprises must be malformed"),
    }
}

#[test]
fn classification_fills_empty_inline_comments() {
    let ts = transactions_from_response(&sample_transactions()).unwrap();
    let requests = plan_suggestion_requests(&ts);
    assert_eq!(requests.len(), 1);
    assert_eq!(requests[0].line_number, 7);
    assert_eq!(requests[0].file_path, "src/a.rs");
    let mut names = UserCache::new();
    names.record("PHID-USER-1".to_string(), "Ada L (ada)".to_string());
    let resolutions = vec![Some("**Suggested changes:**\n\n```diff\n+x\n```".to_string())];
    let data = extract_comments(&ts, &names, &resolutions, false);
    assert_eq!(data.general_comments.len(), 1);
    assert_eq!(data.general_comments[0].author, "Ada L (ada)");
    assert_eq!(data.general_comments[0].content, "looks good");
    assert_eq!(data.general_comments[0].date, format_timestamp(200));
    assert_eq!(data.inline_comments.len(), 1);
    assert_eq!(data.inline_comments[0].author, "PHID-USER-2");
    assert_eq!(
        data.inline_comments[0].content,
        "**Suggested changes:**\n\n```diff\n+x\n```"
    );
    assert_eq!(data.inline_comments[0].line_number, 7);
    assert_eq!(data.inline_comments[0].line_length, 2);
    assert_eq!(data.inline_comments[0].diff_id, "9");
    assert_eq!(data.review_actions.len(), 1);
    assert_eq!(data.review_actions[0].action, "accept");
    assert_eq!(data.review_actions[0].comments, vec!["ship it".to_string()]);
}

#[test]
fn unresolved_inline_comment_gets_the_placeholder() {
    let ts = transactions_from_response(&sample_transactions()).unwrap();
    let names = UserCache::new();
    let resolutions: Vec<Option<String>> = vec![None];
    let data = extract_comments(&ts, &names, &resolutions, false);
    assert_eq!(
        data.inline_comments[0].content,
        "*[Empty inline comment - likely contains a code suggestion that cannot be extracted via API]*"
    );
}

#[test]
fn done_inline_comments_are_skipped_unless_asked() {
    let tx = "{\"type\":\"inline\",\"authorPHID\":\"PHID-USER-2\",\"dateCreated\":100,\
\"comments\":[{\"content\":{\"raw\":\"noted\"},\"id\":12}],\
\"fields\":{\"line\":7,\"path\":\"src/a.rs\",\"isDone\":true},\"id\":2}";
    let body = format!("{{\"result\":{{\"data\":[{}]}}}}", tx);
    let ts = transactions_from_response(&body).unwrap();
    let names = UserCache::new();
    let empty: Vec<Option<String>> = Vec::new();
    let without = extract_comments(&ts, &names, &empty, false);
    assert_eq!(without.inline_comments.len(), 0);
    let with = extract_comments(&ts, &names, &empty, true);
    assert_eq!(with.inline_comments.len(), 1);
    assert!(with.inline_comments[0].is_done);
}

#[test]
fn rendering_orders_and_groups_comments() {
    let ts = transactions_from_response(&sample_transactions()).unwrap();
    let mut names = UserCache::new();
    names.record("PHID-USER-1".to_string(), "Ada L (ada)".to_string());
    let resolutions = vec![Some("sugg".to_string())];
    let data = extract_comments(&ts, &names, &resolutions, false);
    let md = format_as_markdown("https://reviews.example.test", data, 77);
    let expected = format!(
        "# Phabricator Review Comments - https://reviews.example.test/D77\n\
\n\
## General Comments\n\
\n\
### Comment by Ada L (ada) ({d200})\n\
\n\
looks good\n\
\n\
---\n\
\n\
## Inline Comments\n\
\n\
### File: `src/a.rs`\n\
\n\
#### Line 7-8 - PHID-USER-2 ({d100})\n\
\n\
sugg\n\
\n\
---\n",
        d200 = format_timestamp(200),
        d100 = format_timestamp(100)
    );
    assert_eq!(md, expected);
}

#[test]
fn rendering_sorts_general_comments_by_time() {
    let early = "{\"type\":\"comment\",\"authorPHID\":\"PHID-A\",\"dateCreated\":100,\
\"comments\":[{\"content\":{\"raw\":\"first\"},\"id\":1}],\"id\":1}";
    let late = "{\"type\":\"comment\",\"authorPHID\":\"PHID-B\",\"dateCreated\":50,\
\"comments\":[{\"content\":{\"raw\":\"earlier\"},\"id\":2}],\"id\":2}";
    let body = format!("{{\"result\":{{\"data\":[{},{}]}}}}", early, late);
    let ts = transactions_from_response(&body).unwrap();
    let names = UserCache::new();
    let none: Vec<Option<String>> = Vec::new();
    let data = extract_comments(&ts, &names, &none, false);
    let md = format_as_markdown("https://x.test", data, 1);
    let first = md.find("earlier").unwrap();
    let second = md.find("first").unwrap();
    assert!(first < second, "older comments must render first");
}
