use rusdu::cli::{Args, CliError};

#[test]
fn test_default_args() {
    let args = Args::default();
    assert!(args.path.is_none());
    assert!(!args.extended);
    assert!(!args.one_file_system);
    assert!(!args.silent);
    assert_eq!(args.read_only, 0);
    assert_eq!(args.color, "off");
    assert_eq!(args.graph_style, "hash");
    assert_eq!(args.sort, "disk-usage");
}

#[test]
fn test_short_and_long_flags() {
    let parsed = Args::try_parse_from(&["rusdu", "-e", "-x", "-0", "-L", "-c"]).unwrap();
    assert!(parsed.extended);
    assert!(parsed.one_file_system);
    assert!(!parsed.cross_file_system);
    assert!(parsed.silent);
    assert!(parsed.follow_symlinks);
    assert!(parsed.compress);

    let parsed_long = Args::try_parse_from(&[
        "rusdu",
        "--extended",
        "--one-file-system",
        "--silent",
        "--follow-symlinks",
        "--compress",
    ])
    .unwrap();
    assert!(parsed_long.extended);
    assert!(parsed_long.one_file_system);
    assert!(parsed_long.silent);
    assert!(parsed_long.follow_symlinks);
    assert!(parsed_long.compress);
}

#[test]
fn test_flag_precedence_and_overrides() {
    let args = Args::try_parse_from(&["rusdu", "--one-file-system", "--cross-file-system"]).unwrap();
    assert!(args.cross_file_system);
    assert!(!args.one_file_system);

    let args2 = Args::try_parse_from(&["rusdu", "--cross-file-system", "--one-file-system"]).unwrap();
    assert!(args2.one_file_system);
    assert!(!args2.cross_file_system);

    let args3 = Args::try_parse_from(&["rusdu", "--disable-natsort", "--enable-natsort"]).unwrap();
    assert!(args3.enable_natsort);
    assert!(!args3.disable_natsort);

    let args4 = Args::try_parse_from(&["rusdu", "--confirm-quit", "--no-confirm-quit"]).unwrap();
    assert!(args4.no_confirm_quit);
    assert!(!args4.confirm_quit);
}

#[test]
fn test_multi_occurrence_exclude() {
    let args = Args::try_parse_from(&[
        "rusdu",
        "--exclude",
        "*.tmp",
        "--exclude",
        "node_modules",
        "--exclude",
        ".git",
    ])
    .unwrap();

    assert_eq!(args.exclude, vec!["*.tmp", "node_modules", ".git"]);
}

#[test]
fn test_options_with_values() {
    let args = Args::try_parse_from(&[
        "rusdu",
        "/target/path",
        "-t",
        "16",
        "--compress-level",
        "9",
        "--delete-command",
        "trash-put",
        "--color",
        "dark",
        "--graph-style",
        "half-block",
        "--shared-column",
        "unique",
        "--sort",
        "name",
        "--log-file",
        "/var/log/rusdu.log",
    ])
    .unwrap();

    assert_eq!(args.path, Some("/target/path".to_string()));
    assert_eq!(args.threads, Some(16));
    assert_eq!(args.compress_level, Some(9));
    assert_eq!(args.delete_command, Some("trash-put".to_string()));
    assert_eq!(args.color, "dark");
    assert_eq!(args.graph_style, "half-block");
    assert_eq!(args.shared_column, "unique");
    assert_eq!(args.sort, "name");
    assert_eq!(args.log_file, Some("/var/log/rusdu.log".to_string()));
}

#[test]
fn test_read_only_stacking() {
    let args1 = Args::try_parse_from(&["rusdu", "-r"]).unwrap();
    assert_eq!(args1.read_only, 1);

    let args2 = Args::try_parse_from(&["rusdu", "-r", "-r"]).unwrap();
    assert_eq!(args2.read_only, 2);
}

#[test]
fn test_error_handling() {
    let err_unknown = Args::try_parse_from(&["rusdu", "--nonexistent-option"]);
    assert!(matches!(err_unknown, Err(CliError::UnknownOption(_))));

    let err_path = Args::try_parse_from(&["rusdu", "/first/path", "/second/path"]);
    assert!(matches!(err_path, Err(CliError::UnexpectedArgument(_))));

    let err_threads = Args::try_parse_from(&["rusdu", "-t", "not_a_number"]);
    assert!(matches!(err_threads, Err(CliError::Lexopt(_))));
}

#[test]
fn help_and_version_requests_stop_parsing() {
    assert!(matches!(Args::try_parse_from(&["rusdu", "-h"]), Err(CliError::HelpRequested)));
    assert!(matches!(Args::try_parse_from(&["rusdu", "--help"]), Err(CliError::HelpRequested)));
    assert!(matches!(Args::try_parse_from(&["rusdu", "-V"]), Err(CliError::VersionRequested)));
    assert!(matches!(Args::try_parse_from(&["rusdu", "--version"]), Err(CliError::VersionRequested)));
}

#[test]
fn toggles_exclude_each_other_whatever_their_order() {
    let a = Args::try_parse_from(&["rusdu", "--enable-delete", "--disable-delete"]).unwrap();
    assert!(a.disable_delete);
    assert!(!a.enable_delete);
    let b = Args::try_parse_from(&["rusdu", "--disable-delete", "--enable-delete"]).unwrap();
    assert!(b.enable_delete);
    assert!(!b.disable_delete);
}

#[test]
fn exclude_value_attached_with_equals() {
    let a = Args::try_parse_from(&["rusdu", "--exclude=*.log", "/data"]).unwrap();
    assert_eq!(a.exclude, vec!["*.log"]);
    assert_eq!(a.path, Some("/data".to_string()));
}

#[test]
fn short_cluster_and_missing_value() {
    let a = Args::try_parse_from(&["rusdu", "-rr"]).unwrap();
    assert_eq!(a.read_only, 2);
    let b = Args::try_parse_from(&["rusdu", "-t8"]).unwrap();
    assert_eq!(b.threads, Some(8));
    let missing = Args::try_parse_from(&["rusdu", "--exclude"]);
    assert!(matches!(missing, Err(CliError::Lexopt(_))));
}
