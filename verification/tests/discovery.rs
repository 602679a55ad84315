use apt_history::discovery::order_log_files;

fn names(texts: &[&str]) -> Vec<String> {
    texts.iter().map(|t| t.to_string()).collect()
}

#[test]
fn log_files_sorted_oldest_first_current_last() {
    let listing = names(&[
        "history.log",
        "history.log.2.gz",
        "other.log",
        "history.log.1.gz",
        "history.log.10.gz",
    ]);
    let ordered = order_log_files(&listing);
    assert_eq!(
        ordered,
        names(&["history.log.10.gz", "history.log.2.gz", "history.log.1.gz", "history.log"])
    );
}

#[test]
fn non_matching_names_are_not_candidates() {
    let listing = names(&[
        "xhistory.log",
        "history.logs",
        "history.log.gz",
        "history.log.abc.gz",
        "history.log.1.gzip",
        "term.log",
    ]);
    let ordered = order_log_files(&listing);
    assert_eq!(ordered.len(), 0);
}

#[test]
fn directory_listing_order_does_not_matter() {
    let a = order_log_files(&names(&["history.log", "history.log.1.gz", "history.log.3.gz"]));
    let b = order_log_files(&names(&["history.log.3.gz", "history.log", "history.log.1.gz"]));
    assert_eq!(a, b);
    assert_eq!(a, names(&["history.log.3.gz", "history.log.1.gz", "history.log"]));
}
