use rusdu::scan::filter::Filter;

#[test]
fn test_glob_exclusions() {
    let patterns = vec!["*.tmp".to_string(), "node_modules".to_string()];
    let filter = Filter::new(&patterns, None, false, false);

    assert!(filter.should_exclude_path("test.tmp"));
    assert!(filter.should_exclude_path("node_modules"));
    assert!(!filter.should_exclude_path("main.rs"));
}

#[test]
fn test_kernfs_exclusions() {
    let filter = Filter::new(&Vec::new(), None, false, true);

    assert!(filter.should_exclude_path("/proc/cpuinfo"));
    assert!(filter.should_exclude_path("/sys/class"));
    assert!(!filter.should_exclude_path("/home/user/doc"));
}

#[test]
fn test_verify_cachedir_tag() {
    let filter = Filter::new(&Vec::new(), None, true, false);

    let valid = b"Signature: 8a477f597d28d172789f06886806bc55\nHeader info";
    assert!(filter.verify_cachedir_tag(Some(valid[..43].to_vec())));

    // "Invalid signature header" is shorter than the 43 bytes read.
    assert!(!filter.verify_cachedir_tag(None));
}

#[test]
fn cachedir_tag_needs_the_option_and_the_exact_signature() {
    let on = Filter::new(&Vec::new(), None, true, false);
    let off = Filter::new(&Vec::new(), None, false, false);
    let sig = b"Signature: 8a477f597d28d172789f06886806bc55".to_vec();
    let mut bad = sig.clone();
    bad[42] = b'6';
    assert!(!off.verify_cachedir_tag(Some(sig.clone())));
    assert!(!on.verify_cachedir_tag(Some(bad)));
    assert!(on.has_cachedir_tag(true, Some(sig.clone())));
    assert!(!on.has_cachedir_tag(false, Some(sig)));
}

#[test]
fn pattern_lines_skip_comments_and_blanks() {
    let lines = vec!["  *.log  ".to_string(), "# *.rs".to_string(), "".to_string()];
    let filter = Filter::new(&Vec::new(), Some(lines), false, false);
    assert!(filter.should_exclude_path("/var/app.log"));
    assert!(!filter.should_exclude_path("/src/main.rs"));
}

#[test]
fn invalid_pattern_is_skipped() {
    let patterns = vec!["a[".to_string(), "*.bak".to_string()];
    let filter = Filter::new(&patterns, None, false, false);
    assert!(filter.should_exclude_path("x.bak"));
    assert!(!filter.should_exclude_path("a["));
}

#[test]
fn no_pattern_and_no_kernfs_excludes_nothing() {
    let filter = Filter::new(&Vec::new(), None, false, false);
    assert!(!filter.should_exclude_path("/proc/cpuinfo"));
}
