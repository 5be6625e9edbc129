use rusdu::cli::Args;
use rusdu::config::{config_command_line, config_line_args, load_config, split};

#[test]
fn shell_words() {
    assert_eq!(split("--exclude '*.tmp'  -x").unwrap(), vec!["--exclude", "*.tmp", "-x"]);
    assert_eq!(split("\"a b\" c\\ d").unwrap(), vec!["a b", "c d"]);
    assert_eq!(split("'it\\'s'"), Err(()));
    assert_eq!(split("\"open"), Err(()));
    assert_eq!(split("trailing\\"), Err(()));
    assert!(split("   ").unwrap().is_empty());
}

#[test]
fn config_lines() {
    let home = Some("/home/u".to_string());
    assert_eq!(config_line_args("  # comment", &home), Vec::<String>::new());
    assert_eq!(config_line_args("@--exclude ~/cache", &home), vec!["--exclude", "/home/u/cache"]);
    assert_eq!(config_line_args("-e ~", &home), vec!["-e", "/home/u"]);
    assert_eq!(config_line_args("x~/y", &home), vec!["x~/y"]);
    assert_eq!(config_line_args("--exclude ~/c", &None), vec!["--exclude", "~/c"]);
    // an open quote: whitespace-separated words instead
    assert_eq!(config_line_args("--exclude 'a b", &home), vec!["--exclude", "'a", "b"]);
}

#[test]
fn command_line_with_config() {
    let lines = vec!["-x".to_string(), "".to_string(), "--exclude .git".to_string()];
    let cli = vec!["/data".to_string()];
    let full = config_command_line("rusdu", &lines, &None, &cli);
    assert_eq!(full, vec!["rusdu", "-x", "--exclude", ".git", "/data"]);

    let mut args = Args::default();
    assert!(load_config(&mut args, "rusdu", &lines, &None, &cli).is_none());
    assert!(args.one_file_system);
    assert_eq!(args.exclude, vec![".git"]);
    assert_eq!(args.path, Some("/data".to_string()));
}

#[test]
fn config_without_words_or_with_errors_keeps_args() {
    let mut args = Args::default();
    args.si = true;
    assert!(load_config(&mut args, "rusdu", &vec!["# only".to_string()], &None, &vec![]).is_none());
    assert!(args.si);
    let err = load_config(&mut args, "rusdu", &vec!["--bogus".to_string()], &None, &vec![]);
    assert!(err.is_some());
    assert!(args.si);
}
