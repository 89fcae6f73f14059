use change_log::{
    capitalize, entry_from_pull_request, generate_changelog, get_changelog_info, get_changelogs,
    sort_by_category, ChangelogError, ChangelogInfo, PullRequest,
};

fn pr(number: u64, title: Option<&str>, body: Option<&str>, url: Option<&str>, author: Option<&str>) -> PullRequest {
    PullRequest {
        number,
        title: title.map(|s| s.to_string()),
        body: body.map(|s| s.to_string()),
        html_url: url.map(|s| s.to_string()),
        author_login: author.map(|s| s.to_string()),
    }
}

fn entry(category: &str, is_breaking: bool, summary: &str, migration: &str, release: &str) -> ChangelogInfo {
    ChangelogInfo {
        is_breaking,
        pr_type: category.to_string(),
        bullet_point: summary.to_string(),
        migration_note: migration.to_string(),
        release_notes: release.to_string(),
    }
}

#[test]
fn capitalize_upper_cases_first_character() {
    assert_eq!(capitalize("add foo"), "Add foo");
    assert_eq!(capitalize("élan"), "Élan");
    assert_eq!(capitalize(""), "");
    assert_eq!(capitalize("1st fix"), "1st fix");
}

#[test]
fn capitalize_is_idempotent() {
    let once = capitalize("fix bar");
    assert_eq!(capitalize(&once), once);
    assert_eq!(capitalize("Already"), "Already");
}

#[test]
fn title_with_prefix_gives_category_and_description() {
    let e = entry_from_pull_request(&pr(12, Some("feat:  add foo "), None, Some("http://x"), Some("alice")));
    assert_eq!(e.pr_type, "feat");
    assert!(!e.is_breaking);
    assert_eq!(e.bullet_point, "- http://x - Add foo, by alice");
    assert_eq!(e.migration_note, "### [12 - Add foo](http://x)\n\n");
    assert_eq!(e.release_notes, "");
}

#[test]
fn title_without_colon_is_misc() {
    let e = entry_from_pull_request(&pr(3, Some("update readme"), None, Some("http://r"), Some("carol")));
    assert_eq!(e.pr_type, "misc");
    assert_eq!(e.bullet_point, "- http://r - , by carol");
}

#[test]
fn missing_title_url_and_author_read_as_empty() {
    let e = entry_from_pull_request(&pr(5, None, None, None, None));
    assert_eq!(e.pr_type, "misc");
    assert!(!e.is_breaking);
    assert_eq!(e.bullet_point, "-  - , by ");
    assert_eq!(e.migration_note, "### [5 - ]()\n\n");
}

#[test]
fn empty_prefix_falls_back_to_misc() {
    let e = entry_from_pull_request(&pr(1, Some(": tidy up"), None, None, None));
    assert_eq!(e.pr_type, "misc");
    assert_eq!(e.bullet_point, "-  - Tidy up, by ");
}

#[test]
fn description_keeps_later_colons() {
    let e = entry_from_pull_request(&pr(1, Some("fix(api): handle a: b"), None, None, None));
    assert_eq!(e.pr_type, "fix(api)");
    assert_eq!(e.bullet_point, "-  - Handle a: b, by ");
}

#[test]
fn bang_anywhere_marks_breaking() {
    for title in ["feat!: drop api", "feat(core)!: drop api", "fix: drop api!", "wow!"] {
        let e = entry_from_pull_request(&pr(1, Some(title), None, None, None));
        assert!(e.is_breaking, "{}", title);
    }
    let e = entry_from_pull_request(&pr(1, Some("fix: nothing"), None, None, None));
    assert!(!e.is_breaking);
}

#[test]
fn breaking_changes_block_goes_into_migration_note() {
    let body = "Intro\n# Breaking Changes\n\nRemoves old API\nUse new one\n# Notes\n- done";
    let e = entry_from_pull_request(&pr(2, Some("fix!: fix bar"), Some(body), Some("http://y"), Some("bob")));
    assert!(e.is_breaking);
    assert_eq!(e.migration_note, "### [2 - Fix bar](http://y)\n\nRemoves old API\nUse new one");
}

#[test]
fn breaking_changes_block_without_closing_heading_is_empty() {
    let body = "# Breaking Changes\nRemoves old API\n";
    let e = entry_from_pull_request(&pr(2, Some("fix!: fix bar"), Some(body), Some("http://y"), Some("bob")));
    assert_eq!(e.migration_note, "### [2 - Fix bar](http://y)\n\n");
}

#[test]
fn body_without_marker_gives_heading_only() {
    let e = entry_from_pull_request(&pr(9, Some("feat: x"), Some("Just text\n# Notes\nmore"), Some("u"), Some("a")));
    assert_eq!(e.migration_note, "### [9 - X](u)\n\n");
}

#[test]
fn release_notes_are_extracted() {
    let body = "In this release, we:\n- Added foo\n- Fixed bar\n\n# Breaking Changes\nNone\n# End";
    let e = entry_from_pull_request(&pr(4, Some("feat: foo"), Some(body), None, None));
    assert_eq!(e.release_notes, "- Added foo\n- Fixed bar");
    assert_eq!(e.migration_note, "### [4 - Foo]()\n\nNone");
}

#[test]
fn commit_without_pull_request_is_an_error() {
    assert_eq!(get_changelog_info(&Vec::new()).err(), Some(ChangelogError::PullRequestNotFound));
    let first = get_changelog_info(&vec![
        pr(1, Some("feat: one"), None, None, None),
        pr(2, Some("fix: two"), None, None, None),
    ])
    .unwrap();
    assert_eq!(first.pr_type, "feat");
}

#[test]
fn changelogs_fail_when_any_commit_has_no_pull_request() {
    let resolved = vec![vec![pr(1, Some("feat: one"), None, None, None)], Vec::new()];
    assert_eq!(get_changelogs(resolved).err(), Some(ChangelogError::PullRequestNotFound));
}

#[test]
fn changelogs_are_sorted_stably_by_category() {
    let resolved = vec![
        vec![pr(1, Some("fix: first"), None, None, None)],
        vec![pr(2, Some("feat: second"), None, None, None)],
        vec![pr(3, Some("feat: third"), None, None, None)],
    ];
    let out = get_changelogs(resolved).unwrap();
    let lines: Vec<&str> = out.iter().map(|e| e.bullet_point.as_str()).collect();
    assert_eq!(lines, vec!["-  - Second, by ", "-  - Third, by ", "-  - First, by "]);
}

#[test]
fn sort_is_case_sensitive_and_stable() {
    let v = vec![
        entry("feat", false, "a", "", ""),
        entry("Feat", false, "b", "", ""),
        entry("fix", false, "c", "", ""),
        entry("feat", false, "d", "", ""),
    ];
    let out = sort_by_category(v);
    let lines: Vec<&str> = out.iter().map(|e| e.bullet_point.as_str()).collect();
    assert_eq!(lines, vec!["b", "a", "d", "c"]);
}

#[test]
fn end_to_end_document() {
    let entries = vec![
        entry("feat", false, "- http://x - Add foo, by alice", "### [1 - Add foo](http://x)\n\n", ""),
        entry("fix", true, "- http://y - Fix bar, by bob", "### [2 - Fix bar](http://y)\n\nRemoves old API", ""),
    ];
    let doc = generate_changelog(entries);
    assert_eq!(
        doc,
        "# Breaking\n\n- http://y - Fix bar, by bob\n\n- http://x - Add foo, by alice\n\n# Migration Notes\n\n### [2 - Fix bar](http://y)\n\nRemoves old API"
    );
}

#[test]
fn empty_range_gives_empty_document() {
    let entries = get_changelogs(Vec::new()).unwrap();
    assert!(entries.is_empty());
    assert_eq!(generate_changelog(entries), "");
}

#[test]
fn no_breaking_entries_leaves_out_breaking_sections() {
    let entries = vec![
        entry("feat", false, "- a", "### [1 - A]()\n\n", ""),
        entry("fix", false, "- b", "### [2 - B]()\n\n", ""),
    ];
    let doc = generate_changelog(entries);
    assert_eq!(doc, "- a\n- b");
    assert!(!doc.contains("# Breaking"));
    assert!(!doc.contains("# Migration Notes"));
}

#[test]
fn summary_section_collects_release_notes() {
    let entries = vec![
        entry("feat", false, "- a", "", "Added a"),
        entry("fix", true, "- b", "### [2 - B]()\n\nGone", ""),
        entry("perf", false, "- c", "", "Sped up c"),
    ];
    let doc = generate_changelog(entries);
    assert_eq!(
        doc,
        "# Summary\n\nIn this release, we:\nAdded a\nSped up c\n\n# Breaking\n\n- b\n\n- a\n- c\n\n# Migration Notes\n\n### [2 - B]()\n\nGone"
    );
}

#[test]
fn migration_notes_are_separated_by_blank_lines() {
    let entries = vec![
        entry("feat", true, "- a", "### [1 - A]()\n\nOne", ""),
        entry("fix", true, "- b", "### [2 - B]()\n\nTwo", ""),
    ];
    let doc = generate_changelog(entries);
    assert_eq!(
        doc,
        "# Breaking\n\n- a\n- b\n\n# Migration Notes\n\n### [1 - A]()\n\nOne\n\n### [2 - B]()\n\nTwo"
    );
}

#[test]
fn migration_heading_writes_number_in_decimal() {
    let e = entry_from_pull_request(&pr(1234, Some("feat!: big"), None, Some("http://z"), Some("dan")));
    assert_eq!(e.migration_note, "### [1234 - Big](http://z)\n\n");
    let e = entry_from_pull_request(&pr(0, Some("feat: zero"), None, None, None));
    assert_eq!(e.migration_note, "### [0 - Zero]()\n\n");
}

#[test]
fn sections_are_found_in_crlf_bodies() {
    let body = "# Breaking Changes\r\nRemoves old API\r\n# Next\r\n";
    let e = entry_from_pull_request(&pr(8, Some("fix!: x"), Some(body), None, None));
    assert_eq!(e.migration_note, "### [8 - X]()\n\nRemoves old API");
}
