use apt_history::entry::Action;
use apt_history::entry::HistoryEntry;
use apt_history::errors::HistoryError;
use apt_history::output::HistoryOutput;
use apt_history::output::history;
use apt_history::output::info;
use apt_history::output::list;
use apt_history::parser::entries_from_lines;
use apt_history::parser::history_entries;
use apt_history::query::matching_entries;
use apt_history::query::resolve_selector;

fn lines(texts: &[&str]) -> Vec<String> {
    texts.iter().map(|t| t.to_string()).collect()
}

fn store_of(records: &[&str]) -> Vec<HistoryEntry> {
    // One single-record "file" per command string, so identifiers are
    // assigned 1..=N in the given order.
    let logs: Vec<Vec<String>> = records
        .iter()
        .map(|cmd| {
            lines(&[
                "Start-Date: 1970-01-02  00:00:01",
                &format!("Commandline: {}", cmd),
                "Install: pkgX:amd64 (1.0)",
                "End-Date: 1970-01-02  00:01:01",
            ])
        })
        .collect();
    history_entries(&logs).expect("synthetic store must parse")
}

#[test]
fn round_trip_single_install_record() {
    let file = lines(&[
        "Start-Date: 1970-01-02  00:00:01",
        "Commandline: apt install pkgA pkgB",
        "Install: pkgA:amd64, pkgB:amd64 (1.0, 2.0)",
        "End-Date: 1970-01-02  00:01:01",
    ]);
    let entries = entries_from_lines(&file, 1).expect("well-formed record");
    assert_eq!(entries.len(), 1);
    let e = &entries[0];
    assert_eq!(e.id, 1);
    assert_eq!(e.altered, 2);
    assert_eq!(e.affected.len(), 2);
    for c in &e.affected {
        assert_eq!(c.action, Action::Install);
        assert_eq!(c.arch, "amd64");
    }
    assert!(e.affected.iter().any(|c| c.name == "pkgA"));
    assert!(e.affected.iter().any(|c| c.name == "pkgB"));
    // The literal invoking-program prefix is stripped.
    assert_eq!(e.command_line, "install pkgA pkgB");
}

#[test]
fn comma_inside_version_parens_does_not_split() {
    let file = lines(&[
        "Commandline: apt upgrade pkgC",
        "Upgrade: pkgC:amd64 (1.0, 2.0)",
    ]);
    let entries = entries_from_lines(&file, 1).expect("well-formed record");
    assert_eq!(entries.len(), 1);
    assert_eq!(entries[0].altered, 1);
    assert_eq!(entries[0].affected.len(), 1);
    assert_eq!(entries[0].affected[0].name, "pkgC");
    assert_eq!(entries[0].affected[0].arch, "amd64");
    assert_eq!(entries[0].affected[0].action, Action::Upgrade);
}

#[test]
fn long_command_line_is_truncated_with_ellipsis() {
    let long = "y".repeat(120);
    let file = lines(&[&format!("Commandline: {}", long)]);
    let entries = entries_from_lines(&file, 1).expect("well-formed record");
    let shown = &entries[0].command_line;
    assert_eq!(shown.len(), 100);
    let mut expected = "y".repeat(94);
    expected.push_str(" <...>");
    assert_eq!(shown, &expected);
}

#[test]
fn short_command_line_kept_and_prefix_stripped() {
    let file = lines(&["Commandline: apt update"]);
    let entries = entries_from_lines(&file, 1).expect("well-formed record");
    assert_eq!(entries[0].command_line, "update");

    let file = lines(&["Commandline: aptitude update"]);
    let entries = entries_from_lines(&file, 1).expect("well-formed record");
    assert_eq!(entries[0].command_line, "aptitude update");
}

#[test]
fn leading_blank_line_is_discarded() {
    let file = lines(&[
        "",
        "Commandline: apt install pkgA",
        "Install: pkgA:amd64 (1.0)",
        "",
    ]);
    let entries = entries_from_lines(&file, 1).expect("well-formed record");
    assert_eq!(entries.len(), 1);
    assert_eq!(entries[0].id, 1);
}

#[test]
fn record_without_command_line_is_discarded_at_end() {
    let file = lines(&["Error: some failure text"]);
    let entries = entries_from_lines(&file, 1).expect("recognized field");
    assert_eq!(entries.len(), 0);
}

#[test]
fn timestamps_parse_to_epoch_seconds() {
    let file = lines(&[
        "Start-Date: 1970-01-02  00:00:01",
        "Commandline: apt install pkgA",
        "End-Date: 1970-01-02  00:01:01",
    ]);
    let entries = entries_from_lines(&file, 1).expect("well-formed record");
    assert_eq!(entries[0].start_date, 86401);
    assert_eq!(entries[0].end_date, 86461);
    let details = info(&entries, &None);
    assert_eq!(details.len(), 1);
    assert_eq!(details[0].duration_seconds, 60);
}

#[test]
fn unknown_field_is_malformed_log() {
    let file = lines(&["Frobnicate: yes"]);
    assert!(matches!(
        entries_from_lines(&file, 1),
        Err(HistoryError::MalformedLog)
    ));
}

#[test]
fn line_without_separator_is_malformed_log() {
    let file = lines(&["no separator here"]);
    assert!(matches!(
        entries_from_lines(&file, 1),
        Err(HistoryError::MalformedLog)
    ));
}

#[test]
fn unparsable_date_is_malformed_log() {
    let file = lines(&["Start-Date: yesterday evening"]);
    assert!(matches!(
        entries_from_lines(&file, 1),
        Err(HistoryError::MalformedLog)
    ));
}

#[test]
fn package_token_without_colon_is_malformed_package() {
    let file = lines(&["Install: pkgnocolon"]);
    assert!(matches!(
        entries_from_lines(&file, 1),
        Err(HistoryError::MalformedPackage)
    ));
}

#[test]
fn ids_are_dense_across_files() {
    let f1 = lines(&[
        "",
        "Commandline: apt install pkgA",
        "Install: pkgA:amd64 (1.0)",
        "",
        "Commandline: apt remove pkgA",
        "Remove: pkgA:amd64 (1.0)",
    ]);
    let f2 = lines(&["Commandline: apt install pkgB", "Install: pkgB:i386 (2.0)"]);
    let logs = vec![f1, f2];
    let entries = history_entries(&logs).expect("well-formed logs");
    assert_eq!(entries.len(), 3);
    for (k, e) in entries.iter().enumerate() {
        assert_eq!(e.id as usize, 1 + k);
    }
}

#[test]
fn empty_current_file_contributes_nothing() {
    let f1 = lines(&["Commandline: apt install pkgA", "Install: pkgA:amd64 (1.0)"]);
    let empty: Vec<String> = Vec::new();
    let with_empty = vec![f1.clone(), empty];
    let without = vec![f1];
    let a = history_entries(&with_empty).expect("well-formed logs");
    let b = history_entries(&without).expect("well-formed logs");
    assert_eq!(a.len(), 1);
    assert_eq!(b.len(), 1);
    assert_eq!(a[0].id, 1);
    assert_eq!(a[0].command_line, b[0].command_line);
}

#[test]
fn selector_zero_resolves_to_newest() {
    assert_eq!(resolve_selector(0, 5), 5);
    assert_eq!(resolve_selector(-2, 5), 3);
    assert_eq!(resolve_selector(7, 5), 7);
}

#[test]
fn relative_and_absolute_selectors_pick_transactions() {
    let entries = store_of(&["apt one", "apt two", "apt three", "apt four", "apt five"]);
    assert_eq!(entries.len(), 5);

    let picked = matching_entries(&entries, &Some(vec!["0".to_string()]));
    assert_eq!(picked.len(), 1);
    assert_eq!(picked[0].id, 5);

    let picked = matching_entries(&entries, &Some(vec!["-2".to_string()]));
    assert_eq!(picked.len(), 1);
    assert_eq!(picked[0].id, 3);

    let picked = matching_entries(&entries, &Some(vec!["7".to_string()]));
    assert_eq!(picked.len(), 0);
}

#[test]
fn no_selector_means_single_newest() {
    let entries = store_of(&["apt one", "apt two", "apt three"]);
    let picked = matching_entries(&entries, &None);
    assert_eq!(picked.len(), 1);
    assert_eq!(picked[0].id, 3);
}

#[test]
fn package_name_selector_matches_affected_transactions() {
    let f1 = lines(&[
        "",
        "Commandline: apt install pkgA",
        "Install: pkgA:amd64 (1.0)",
        "",
        "Commandline: apt install pkgB",
        "Install: pkgB:amd64 (1.0)",
        "",
        "Commandline: apt remove pkgA",
        "Remove: pkgA:amd64 (1.0)",
    ]);
    let entries = history_entries(&vec![f1]).expect("well-formed logs");
    assert_eq!(entries.len(), 3);
    let picked = matching_entries(&entries, &Some(vec!["pkgA".to_string()]));
    assert_eq!(picked.len(), 2);
    assert_eq!(picked[0].id, 1);
    assert_eq!(picked[1].id, 3);
}

#[test]
fn listing_is_newest_first_unless_reversed() {
    let entries = store_of(&["apt one", "apt two", "apt three"]);
    let rows = list(&entries, &None, false);
    let ids: Vec<u32> = rows.iter().map(|r| r.id).collect();
    assert_eq!(ids, vec![3, 2, 1]);

    let rows = list(&entries, &None, true);
    let ids: Vec<u32> = rows.iter().map(|r| r.id).collect();
    assert_eq!(ids, vec![1, 2, 3]);
}

#[test]
fn single_action_row_shows_full_word() {
    let entries = store_of(&["apt one"]);
    let rows = list(&entries, &None, false);
    assert_eq!(rows[0].actions, "Install");
    assert_eq!(rows[0].altered, 1);
}

#[test]
fn multi_action_row_shows_sorted_initials() {
    let file = lines(&[
        "Commandline: apt full-upgrade",
        "Remove: old:amd64 (1.0)",
        "Install: new:amd64 (2.0)",
    ]);
    let entries = entries_from_lines(&file, 1).expect("well-formed record");
    let rows = list(&entries, &None, false);
    assert_eq!(rows[0].actions, "I, R");
    assert_eq!(rows[0].altered, 2);
}

#[test]
fn repeated_action_lines_union_their_packages() {
    let file = lines(&[
        "Commandline: apt install pkgA pkgB",
        "Install: pkgA:amd64 (1.0)",
        "Install: pkgB:amd64 (1.0), pkgA:amd64 (1.0)",
    ]);
    let entries = entries_from_lines(&file, 1).expect("well-formed record");
    assert_eq!(entries[0].altered, 2);
}

#[test]
fn detail_view_groups_packages_per_action() {
    let file = lines(&[
        "Start-Date: 1970-01-02  00:00:01",
        "Commandline: apt full-upgrade",
        "Remove: old:amd64 (1.0)",
        "Install: new:amd64 (2.0), extra:i386 (2.0)",
        "End-Date: 1970-01-02  00:00:02",
    ]);
    let entries = entries_from_lines(&file, 1).expect("well-formed record");
    let details = info(&entries, &None);
    assert_eq!(details.len(), 1);
    let d = &details[0];
    assert_eq!(d.id, 1);
    assert_eq!(d.affected.len(), 2);
    assert_eq!(d.affected[0].action, Action::Install);
    assert_eq!(d.affected[0].packages.len(), 2);
    assert!(d.affected[0].packages.iter().any(|p| p.name == "new" && p.arch == "amd64"));
    assert!(d.affected[0].packages.iter().any(|p| p.name == "extra" && p.arch == "i386"));
    assert_eq!(d.affected[1].action, Action::Remove);
    assert_eq!(d.affected[1].packages.len(), 1);
    assert_eq!(d.affected[1].packages[0].name, "old");
}

#[test]
fn history_dispatches_and_rejects_unknown_commands() {
    let entries = store_of(&["apt one", "apt two"]);
    match history(&entries, "list", &None, false) {
        Ok(HistoryOutput::Listing(rows)) => assert_eq!(rows.len(), 2),
        _ => panic!("list must produce a listing"),
    }
    match history(&entries, "info", &None, false) {
        Ok(HistoryOutput::Details(ds)) => assert_eq!(ds.len(), 1),
        _ => panic!("info must produce details"),
    }
    assert!(matches!(
        history(&entries, "frobnicate", &None, false),
        Err(HistoryError::UnknownCommand)
    ));
}

#[test]
fn record_with_no_actions_has_empty_summary() {
    let entries = {
        let file = lines(&["Commandline: apt moo"]);
        entries_from_lines(&file, 1).expect("well-formed record")
    };
    let rows = list(&entries, &None, false);
    assert_eq!(rows[0].actions, "");
    assert_eq!(rows[0].altered, 0);
}

#[test]
fn selector_outside_integer_range_is_a_package_name() {
    let entries = store_of(&["apt one", "apt two"]);
    // Parses as an integer, is an absolute identifier, matches nothing.
    let picked = matching_entries(&entries, &Some(vec!["2147483647".to_string()]));
    assert_eq!(picked.len(), 0);
    // Too large for the integer parser: a package-name selector, and no
    // package carries that name.
    let picked = matching_entries(&entries, &Some(vec!["2147483648".to_string()]));
    assert_eq!(picked.len(), 0);
    // The resolved identifier of a large negative selector is out of range
    // and matches nothing.
    let picked = matching_entries(&entries, &Some(vec!["-2147483648".to_string()]));
    assert_eq!(picked.len(), 0);
}
