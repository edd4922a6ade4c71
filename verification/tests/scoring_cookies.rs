//! Candidate scoring and selection, and session-cookie handling.
use phab_comments::score::{score_response, select_best, changeset_acceptable, probe_acceptable};
use phab_comments::cookies::{
    parse_cookie_header,
    parse_cookie_override,
    cookies_from_rows,
    pick_profile,
    CredError,
};

#[test]
fn marker_scores_are_ordered() {
    assert_eq!(score_response("nothing"), 0);
    assert_eq!(score_response("a differential-inline-comment b"), 1);
    assert_eq!(score_response("an inline-suggestion-view here"), 10);
    assert_eq!(score_response("has suggestionText inside"), 100);
    assert_eq!(
        score_response("suggestionText inline-suggestion-view differential-inline-comment"),
        111
    );
}

#[test]
fn higher_scoring_candidate_wins_regardless_of_order() {
    let weak = "a differential-inline-comment body".to_string();
    let strong = "a suggestionText body".to_string();
    let one = vec![weak.clone(), strong.clone()];
    assert_eq!(select_best(&one), Some(1));
    let two = vec![strong, weak];
    assert_eq!(select_best(&two), Some(0));
}

#[test]
fn zero_scoring_candidates_select_nothing() {
    let bodies = vec!["plain".to_string(), "also plain".to_string()];
    assert_eq!(select_best(&bodies), None);
}

#[test]
fn ties_keep_the_earlier_candidate() {
    let bodies = vec![
        "first suggestionText".to_string(),
        "second suggestionText".to_string(),
    ];
    assert_eq!(select_best(&bodies), Some(0));
}

#[test]
fn changeset_acceptance_takes_large_diff_renderings() {
    assert!(changeset_acceptable("x inline-suggestion-view y"));
    assert!(changeset_acceptable("x suggestionText y"));
    assert!(!changeset_acceptable("x differential-diff y"));
    let mut large = String::new();
    for _ in 0..1000 {
        large.push('.');
    }
    large.push_str("differential-diff");
    assert!(changeset_acceptable(&large));
    assert!(!probe_acceptable(&large));
    assert!(probe_acceptable("suggestionText"));
}

#[test]
fn cookie_names_extracted_in_either_order() {
    let a = parse_cookie_header("phsid=S1; phusr=U1");
    assert_eq!(a.get("phsid"), Some("S1".to_string()));
    assert_eq!(a.get("phusr"), Some("U1".to_string()));
    let b = parse_cookie_header("phusr=U1; phsid=S1");
    assert_eq!(b.get("phsid"), Some("S1".to_string()));
    assert_eq!(b.get("phusr"), Some("U1".to_string()));
}

#[test]
fn cookie_whitespace_is_trimmed_everywhere() {
    let jar = parse_cookie_header("  phsid =  S1  ;   other=x;  phusr =U1 ");
    assert_eq!(jar.get("phsid"), Some("S1".to_string()));
    assert_eq!(jar.get("phusr"), Some("U1".to_string()));
    assert_eq!(jar.get("other"), Some("x".to_string()));
}

#[test]
fn later_cookie_pieces_override_earlier_ones() {
    let jar = parse_cookie_header("phsid=old; phsid=new");
    assert_eq!(jar.get("phsid"), Some("new".to_string()));
}

#[test]
fn override_needs_both_required_names() {
    assert!(parse_cookie_override("phsid=S1; phusr=U1").is_some());
    assert!(parse_cookie_override("phsid=S1").is_none());
    assert!(parse_cookie_override("phusr=U1").is_none());
    assert!(parse_cookie_override("").is_none());
}

#[test]
fn cookie_header_joins_pairs() {
    let jar = parse_cookie_header("phsid=S1; phusr=U1");
    assert_eq!(jar.header_value(), "phsid=S1; phusr=U1".to_string());
}

#[test]
fn store_rows_need_both_required_names() {
    let good = vec![
        ("phsid".to_string(), "S1".to_string()),
        ("phusr".to_string(), "U1".to_string()),
        ("extra".to_string(), "E".to_string()),
    ];
    let jar = cookies_from_rows(&good).unwrap();
    assert_eq!(jar.get("phsid"), Some("S1".to_string()));
    let bad = vec![("phsid".to_string(), "S1".to_string())];
    match cookies_from_rows(&bad) {
        Err(CredError::NoCredentials) => {},
        _ => panic!("missing required cookie must be refused"),
    }
}

#[test]
fn newest_usable_profile_wins() {
    // (modification time, holds both required cookies)
    let profiles = vec![(50u64, true), (90u64, false), (70u64, true), (70u64, true)];
    assert_eq!(pick_profile(&profiles), Some(2));
    let none = vec![(50u64, false)];
    assert_eq!(pick_profile(&none), None);
    assert_eq!(pick_profile(&Vec::new()), None);
}

#[test]
fn credential_failure_describes_itself() {
    let bad: Vec<(String, String)> = Vec::new();
    match cookies_from_rows(&bad) {
        Err(e) => assert_eq!(e.text(), "required session cookies not found"),
        Ok(_) => panic!("an empty store cannot be accepted"),
    }
}
