//! The suggestion parser: each strategy of the chain on a body shaped
//! for it, the done-marker switch, and parse determinism.
use phab_comments::suggest::parse_suggestions;

#[test]
fn json_suggestion_text_yields_fenced_diff() {
    let body = "{\"suggestionText\":\"-old\\n+new\"}";
    let got = parse_suggestions(body, 1, "a.rs", false);
    assert_eq!(
        got.as_deref(),
        Some("**Suggested changes:**\n\n```diff\n-old\n+new\n```")
    );
}

#[test]
fn json_suggestion_text_with_hijack_prefix() {
    let body = "for (;;);{\"suggestionText\":\"-old\\n+new\"}";
    let got = parse_suggestions(body, 1, "a.rs", false);
    assert_eq!(
        got.as_deref(),
        Some("**Suggested changes:**\n\n```diff\n-old\n+new\n```")
    );
}

#[test]
fn nested_suggestion_text_found_depth_first() {
    let body = "{\"a\":[{\"b\":{\"suggestionText\":\"+added line\"}}]}";
    let got = parse_suggestions(body, 1, "a.rs", false);
    assert_eq!(
        got.as_deref(),
        Some("**Suggested changes:**\n\n```diff\n+added line\n```")
    );
}

#[test]
fn suggestion_without_diff_marks_is_passed_over() {
    // The field is there but its text carries no diff-indicative mark.
    let body = "{\"suggestionText\":\"plain words only\"}";
    let got = parse_suggestions(body, 1, "a.rs", false);
    assert_eq!(got, None);
}

#[test]
fn raw_text_fallback_reads_truncated_json() {
    // Not valid JSON as a whole; the raw-text scan still finds the field.
    let body = "garbage {\"suggestionText\":\"-a\\n+b\" truncated";
    let got = parse_suggestions(body, 1, "a.rs", false);
    assert_eq!(got.as_deref(), Some("**Suggested changes:**\n\n```diff\n-a\n+b\n```"));
}

#[test]
fn raw_text_fallback_resolves_angle_escapes() {
    let body = "x {\"suggestionText\":\"-a \\u003c b\\n+a \\u003e b\" y";
    let got = parse_suggestions(body, 1, "a.rs", false);
    assert_eq!(
        got.as_deref(),
        Some("**Suggested changes:**\n\n```diff\n-a < b\n+a > b\n```")
    );
}

#[test]
fn table_row_classed_left_old_is_trimmed_and_prefixed() {
    let html = "<div class=\"inline-suggestion-view\"><table><tr class=\"left old\"><td>  foo() {  </td></tr></table></div>";
    let body = format!(
        "{{\"payload\":{{\"changeset\":\"{}\"}}}}",
        html.replace('"', "\\\"")
    );
    let got = parse_suggestions(&body, 3, "b.c", false);
    assert_eq!(got.as_deref(), Some("**Suggested changes:**\n\n```diff\n- foo() {\n```"));
}

#[test]
fn structural_noise_rows_are_suppressed() {
    let html = "<div class=\"inline-suggestion-view\"><table>\
<tr class=\"left old\"><td>real();</td></tr>\
<tr class=\"left old\"><td>}</td></tr>\
<tr class=\"left old\"><td>break;</td></tr>\
<tr class=\"right new\"><td>better();</td></tr>\
</table></div>";
    let body = format!(
        "{{\"payload\":{{\"changeset\":\"{}\"}}}}",
        html.replace('"', "\\\"")
    );
    let got = parse_suggestions(&body, 1, "c.c", false);
    assert_eq!(
        got.as_deref(),
        Some("**Suggested changes:**\n\n```diff\n- real();\n+ better();\n```")
    );
}

#[test]
fn generic_row_diff_reads_old_and_new_cells() {
    // No suggestion view anywhere: the generic row reader takes over.
    let html = "<table><tr><td class=\"old\">left text</td><td class=\"new\">right text</td></tr></table>";
    let body = format!(
        "{{\"payload\":{{\"changeset\":\"{}\"}}}}",
        html.replace('"', "\\\"")
    );
    let got = parse_suggestions(&body, 1, "d.c", false);
    assert_eq!(
        got.as_deref(),
        Some("**Suggested changes:**\n\n```diff\n- left text\n+ right text\n```")
    );
}

#[test]
fn done_marked_suggestion_is_suppressed() {
    let doc = "<div class=\"inline-is-done\"><div class=\"inline-suggestion-view\"><table>\
<tr><td class=\"left old\">old line</td><td class=\"right new\">new line</td></tr>\
</table></div></div>";
    let got = parse_suggestions(doc, 1, "e.c", false);
    assert_eq!(got, None);
}

#[test]
fn done_marked_suggestion_kept_when_asked_for() {
    let doc = "<div class=\"inline-is-done\"><div class=\"inline-suggestion-view\"><table>\
<tr><td class=\"left old\">old line</td><td class=\"right new\">new line</td></tr>\
</table></div></div>";
    let got = parse_suggestions(doc, 1, "e.c", true);
    assert_eq!(
        got.as_deref(),
        Some("**Suggested changes:**\n\n```diff\n- old line\n+ new line\n```")
    );
}

#[test]
fn undone_suggestion_kept_without_the_flag() {
    let doc = "<div><div class=\"inline-suggestion-view\"><table>\
<tr><td class=\"left old\">old line</td></tr>\
</table></div></div>";
    let got = parse_suggestions(doc, 1, "f.c", false);
    assert_eq!(got.as_deref(), Some("**Suggested changes:**\n\n```diff\n- old line\n```"));
}

#[test]
fn parsing_twice_yields_identical_output() {
    let bodies = [
        "{\"suggestionText\":\"-old\\n+new\"}",
        "for (;;);{\"suggestionText\":\"+x\"}",
        "<div class=\"inline-suggestion-view\"></div>",
        "nothing here",
    ];
    for body in bodies {
        let first = parse_suggestions(body, 7, "same.c", false);
        let second = parse_suggestions(body, 7, "same.c", false);
        assert_eq!(first, second);
        let third = parse_suggestions(body, 7, "same.c", true);
        let fourth = parse_suggestions(body, 7, "same.c", true);
        assert_eq!(third, fourth);
    }
}

#[test]
fn no_strategy_yields_nothing() {
    let got = parse_suggestions("plain page with no markers at all", 1, "g.c", false);
    assert_eq!(got, None);
}

#[test]
fn repeated_sign_prefixes_are_stripped_once_rendered() {
    let html = "<div class=\"inline-suggestion-view\"><table>\
<tr class=\"left old\"><td>- - keep me</td></tr>\
</table></div>";
    let body = format!(
        "{{\"payload\":{{\"changeset\":\"{}\"}}}}",
        html.replace('"', "\\\"")
    );
    let got = parse_suggestions(&body, 1, "h.c", false);
    assert_eq!(got.as_deref(), Some("**Suggested changes:**\n\n```diff\n- keep me\n```"));
}

#[test]
fn entities_resolve_in_cell_text() {
    let html = "<div class=\"inline-suggestion-view\"><table>\
<tr class=\"left old\"><td>a &lt; b &amp;&amp; c</td></tr>\
</table></div>";
    let body = format!(
        "{{\"payload\":{{\"changeset\":\"{}\"}}}}",
        html.replace('"', "\\\"")
    );
    let got = parse_suggestions(&body, 1, "i.c", false);
    assert_eq!(
        got.as_deref(),
        Some("**Suggested changes:**\n\n```diff\n- a < b && c\n```")
    );
}
