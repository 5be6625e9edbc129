//! The documented option table of the command line, and what each flag
//! option does to the options read.

use vstd::prelude::*;

use crate::cli::{
    args_of, classify_spec, decimal_of, effect_spec, is_initial, simple_cli_parses, simple_parses_to, takes_value_spec,
    token_count, token_limit, value_ok, applied, simple_applies, Args, CliArgV, CliError, Effect,
    Opt, ParseState,
};
use crate::lexer::simple_token;

verus! {

/// The flags of `a`, in the order of its fields.
pub open spec fn flag_fields(a: Args) -> Seq<bool> {
    seq![
        a.extended,
        a.ignore_config,
        a.one_file_system,
        a.cross_file_system,
        a.exclude_caches,
        a.include_caches,
        a.exclude_kernfs,
        a.include_kernfs,
        a.follow_symlinks,
        a.no_follow_symlinks,
        a.compress,
        a.no_compress,
        a.silent,
        a.line_progress,
        a.fullscreen_progress,
        a.slow_updates,
        a.fast_ui_updates,
        a.enable_shell,
        a.disable_shell,
        a.enable_delete,
        a.disable_delete,
        a.enable_refresh,
        a.disable_refresh,
        a.si,
        a.apparent_size,
        a.show_hidden,
        a.hide_hidden,
        a.show_itemcount,
        a.hide_itemcount,
        a.show_mtime,
        a.hide_mtime,
        a.show_graph,
        a.hide_graph,
        a.show_percent,
        a.hide_percent,
        a.enable_natsort,
        a.disable_natsort,
        a.group_directories_first,
        a.no_group_directories_first,
        a.confirm_quit,
        a.no_confirm_quit,
        a.confirm_delete,
        a.no_confirm_delete,
        a.icons,
    ]
}

/// The long flag options of the help text, each with the position in
/// `flag_fields` of the flag it turns on.
pub open spec fn long_flags() -> Seq<(Seq<char>, int)> {
    seq![
        ("extended"@, 0),
        ("ignore-config"@, 1),
        ("one-file-system"@, 2),
        ("cross-file-system"@, 3),
        ("exclude-caches"@, 4),
        ("include-caches"@, 5),
        ("exclude-kernfs"@, 6),
        ("include-kernfs"@, 7),
        ("follow-symlinks"@, 8),
        ("no-follow-symlinks"@, 9),
        ("compress"@, 10),
        ("no-compress"@, 11),
        ("silent"@, 12),
        ("line-progress"@, 13),
        ("fullscreen-progress"@, 14),
        ("slow-ui-updates"@, 15),
        ("fast-ui-updates"@, 16),
        ("enable-shell"@, 17),
        ("disable-shell"@, 18),
        ("enable-delete"@, 19),
        ("disable-delete"@, 20),
        ("enable-refresh"@, 21),
        ("disable-refresh"@, 22),
        ("si"@, 23),
        ("apparent-size"@, 24),
        ("show-hidden"@, 25),
        ("hide-hidden"@, 26),
        ("show-itemcount"@, 27),
        ("hide-itemcount"@, 28),
        ("show-mtime"@, 29),
        ("hide-mtime"@, 30),
        ("show-graph"@, 31),
        ("hide-graph"@, 32),
        ("show-percent"@, 33),
        ("hide-percent"@, 34),
        ("enable-natsort"@, 35),
        ("disable-natsort"@, 36),
        ("group-directories-first"@, 37),
        ("no-group-directories-first"@, 38),
        ("confirm-quit"@, 39),
        ("no-confirm-quit"@, 40),
        ("confirm-delete"@, 41),
        ("no-confirm-delete"@, 42),
        ("icons"@, 43),
    ]
}

/// The short flag options of the help text, each with the position in
/// `flag_fields` of the flag it turns on.
pub open spec fn short_flags() -> Seq<(char, int)> {
    seq![('e', 0), ('x', 2), ('L', 8), ('c', 10), ('0', 12), ('1', 13), ('2', 14), ('q', 15)]
}

/// The length and the characters of each option name the classifier
/// compares with.
proof fn lemma_option_names()
    ensures
        "help"@.len() == 4 && "help"@[0] == 'h' && "help"@[1] == 'e' && "help"@[2] == 'l' && "help"@[3] == 'p',
        "version"@.len() == 7 && "version"@[0] == 'v' && "version"@[1] == 'e' && "version"@[2] == 'r' && "version"@[3] == 's' && "version"@[4] == 'i' && "version"@[5] == 'o' && "version"@[6] == 'n',
        "import"@.len() == 6 && "import"@[0] == 'i' && "import"@[1] == 'm' && "import"@[2] == 'p' && "import"@[3] == 'o' && "import"@[4] == 'r' && "import"@[5] == 't',
        "export-json"@.len() == 11 && "export-json"@[0] == 'e' && "export-json"@[1] == 'x' && "export-json"@[2] == 'p' && "export-json"@[3] == 'o' && "export-json"@[4] == 'r' && "export-json"@[5] == 't' && "export-json"@[6] == '-' && "export-json"@[7] == 'j' && "export-json"@[8] == 's' && "export-json"@[9] == 'o' && "export-json"@[10] == 'n',
        "export-bin"@.len() == 10 && "export-bin"@[0] == 'e' && "export-bin"@[1] == 'x' && "export-bin"@[2] == 'p' && "export-bin"@[3] == 'o' && "export-bin"@[4] == 'r' && "export-bin"@[5] == 't' && "export-bin"@[6] == '-' && "export-bin"@[7] == 'b' && "export-bin"@[8] == 'i' && "export-bin"@[9] == 'n',
        "extended"@.len() == 8 && "extended"@[0] == 'e' && "extended"@[1] == 'x' && "extended"@[2] == 't' && "extended"@[3] == 'e' && "extended"@[4] == 'n' && "extended"@[5] == 'd' && "extended"@[6] == 'e' && "extended"@[7] == 'd',
        "ignore-config"@.len() == 13 && "ignore-config"@[0] == 'i' && "ignore-config"@[1] == 'g' && "ignore-config"@[2] == 'n' && "ignore-config"@[3] == 'o' && "ignore-config"@[4] == 'r' && "ignore-config"@[5] == 'e' && "ignore-config"@[6] == '-' && "ignore-config"@[7] == 'c' && "ignore-config"@[8] == 'o' && "ignore-config"@[9] == 'n' && "ignore-config"@[10] == 'f' && "ignore-config"@[11] == 'i' && "ignore-config"@[12] == 'g',
        "one-file-system"@.len() == 15 && "one-file-system"@[0] == 'o' && "one-file-system"@[1] == 'n' && "one-file-system"@[2] == 'e' && "one-file-system"@[3] == '-' && "one-file-system"@[4] == 'f' && "one-file-system"@[5] == 'i' && "one-file-system"@[6] == 'l' && "one-file-system"@[7] == 'e' && "one-file-system"@[8] == '-' && "one-file-system"@[9] == 's' && "one-file-system"@[10] == 'y' && "one-file-system"@[11] == 's' && "one-file-system"@[12] == 't' && "one-file-system"@[13] == 'e' && "one-file-system"@[14] == 'm',
        "cross-file-system"@.len() == 17 && "cross-file-system"@[0] == 'c' && "cross-file-system"@[1] == 'r' && "cross-file-system"@[2] == 'o' && "cross-file-system"@[3] == 's' && "cross-file-system"@[4] == 's' && "cross-file-system"@[5] == '-' && "cross-file-system"@[6] == 'f' && "cross-file-system"@[7] == 'i' && "cross-file-system"@[8] == 'l' && "cross-file-system"@[9] == 'e' && "cross-file-system"@[10] == '-' && "cross-file-system"@[11] == 's' && "cross-file-system"@[12] == 'y' && "cross-file-system"@[13] == 's' && "cross-file-system"@[14] == 't' && "cross-file-system"@[15] == 'e' && "cross-file-system"@[16] == 'm',
        "exclude"@.len() == 7 && "exclude"@[0] == 'e' && "exclude"@[1] == 'x' && "exclude"@[2] == 'c' && "exclude"@[3] == 'l' && "exclude"@[4] == 'u' && "exclude"@[5] == 'd' && "exclude"@[6] == 'e',
        "exclude-from"@.len() == 12 && "exclude-from"@[0] == 'e' && "exclude-from"@[1] == 'x' && "exclude-from"@[2] == 'c' && "exclude-from"@[3] == 'l' && "exclude-from"@[4] == 'u' && "exclude-from"@[5] == 'd' && "exclude-from"@[6] == 'e' && "exclude-from"@[7] == '-' && "exclude-from"@[8] == 'f' && "exclude-from"@[9] == 'r' && "exclude-from"@[10] == 'o' && "exclude-from"@[11] == 'm',
        "exclude-caches"@.len() == 14 && "exclude-caches"@[0] == 'e' && "exclude-caches"@[1] == 'x' && "exclude-caches"@[2] == 'c' && "exclude-caches"@[3] == 'l' && "exclude-caches"@[4] == 'u' && "exclude-caches"@[5] == 'd' && "exclude-caches"@[6] == 'e' && "exclude-caches"@[7] == '-' && "exclude-caches"@[8] == 'c' && "exclude-caches"@[9] == 'a' && "exclude-caches"@[10] == 'c' && "exclude-caches"@[11] == 'h' && "exclude-caches"@[12] == 'e' && "exclude-caches"@[13] == 's',
        "include-caches"@.len() == 14 && "include-caches"@[0] == 'i' && "include-caches"@[1] == 'n' && "include-caches"@[2] == 'c' && "include-caches"@[3] == 'l' && "include-caches"@[4] == 'u' && "include-caches"@[5] == 'd' && "include-caches"@[6] == 'e' && "include-caches"@[7] == '-' && "include-caches"@[8] == 'c' && "include-caches"@[9] == 'a' && "include-caches"@[10] == 'c' && "include-caches"@[11] == 'h' && "include-caches"@[12] == 'e' && "include-caches"@[13] == 's',
        "exclude-kernfs"@.len() == 14 && "exclude-kernfs"@[0] == 'e' && "exclude-kernfs"@[1] == 'x' && "exclude-kernfs"@[2] == 'c' && "exclude-kernfs"@[3] == 'l' && "exclude-kernfs"@[4] == 'u' && "exclude-kernfs"@[5] == 'd' && "exclude-kernfs"@[6] == 'e' && "exclude-kernfs"@[7] == '-' && "exclude-kernfs"@[8] == 'k' && "exclude-kernfs"@[9] == 'e' && "exclude-kernfs"@[10] == 'r' && "exclude-kernfs"@[11] == 'n' && "exclude-kernfs"@[12] == 'f' && "exclude-kernfs"@[13] == 's',
        "include-kernfs"@.len() == 14 && "include-kernfs"@[0] == 'i' && "include-kernfs"@[1] == 'n' && "include-kernfs"@[2] == 'c' && "include-kernfs"@[3] == 'l' && "include-kernfs"@[4] == 'u' && "include-kernfs"@[5] == 'd' && "include-kernfs"@[6] == 'e' && "include-kernfs"@[7] == '-' && "include-kernfs"@[8] == 'k' && "include-kernfs"@[9] == 'e' && "include-kernfs"@[10] == 'r' && "include-kernfs"@[11] == 'n' && "include-kernfs"@[12] == 'f' && "include-kernfs"@[13] == 's',
        "follow-symlinks"@.len() == 15 && "follow-symlinks"@[0] == 'f' && "follow-symlinks"@[1] == 'o' && "follow-symlinks"@[2] == 'l' && "follow-symlinks"@[3] == 'l' && "follow-symlinks"@[4] == 'o' && "follow-symlinks"@[5] == 'w' && "follow-symlinks"@[6] == '-' && "follow-symlinks"@[7] == 's' && "follow-symlinks"@[8] == 'y' && "follow-symlinks"@[9] == 'm' && "follow-symlinks"@[10] == 'l' && "follow-symlinks"@[11] == 'i' && "follow-symlinks"@[12] == 'n' && "follow-symlinks"@[13] == 'k' && "follow-symlinks"@[14] == 's',
        "no-follow-symlinks"@.len() == 18 && "no-follow-symlinks"@[0] == 'n' && "no-follow-symlinks"@[1] == 'o' && "no-follow-symlinks"@[2] == '-' && "no-follow-symlinks"@[3] == 'f' && "no-follow-symlinks"@[4] == 'o' && "no-follow-symlinks"@[5] == 'l' && "no-follow-symlinks"@[6] == 'l' && "no-follow-symlinks"@[7] == 'o' && "no-follow-symlinks"@[8] == 'w' && "no-follow-symlinks"@[9] == '-' && "no-follow-symlinks"@[10] == 's' && "no-follow-symlinks"@[11] == 'y' && "no-follow-symlinks"@[12] == 'm' && "no-follow-symlinks"@[13] == 'l' && "no-follow-symlinks"@[14] == 'i' && "no-follow-symlinks"@[15] == 'n' && "no-follow-symlinks"@[16] == 'k' && "no-follow-symlinks"@[17] == 's',
        "threads"@.len() == 7 && "threads"@[0] == 't' && "threads"@[1] == 'h' && "threads"@[2] == 'r' && "threads"@[3] == 'e' && "threads"@[4] == 'a' && "threads"@[5] == 'd' && "threads"@[6] == 's',
        "compress"@.len() == 8 && "compress"@[0] == 'c' && "compress"@[1] == 'o' && "compress"@[2] == 'm' && "compress"@[3] == 'p' && "compress"@[4] == 'r' && "compress"@[5] == 'e' && "compress"@[6] == 's' && "compress"@[7] == 's',
        "no-compress"@.len() == 11 && "no-compress"@[0] == 'n' && "no-compress"@[1] == 'o' && "no-compress"@[2] == '-' && "no-compress"@[3] == 'c' && "no-compress"@[4] == 'o' && "no-compress"@[5] == 'm' && "no-compress"@[6] == 'p' && "no-compress"@[7] == 'r' && "no-compress"@[8] == 'e' && "no-compress"@[9] == 's' && "no-compress"@[10] == 's',
        "compress-level"@.len() == 14 && "compress-level"@[0] == 'c' && "compress-level"@[1] == 'o' && "compress-level"@[2] == 'm' && "compress-level"@[3] == 'p' && "compress-level"@[4] == 'r' && "compress-level"@[5] == 'e' && "compress-level"@[6] == 's' && "compress-level"@[7] == 's' && "compress-level"@[8] == '-' && "compress-level"@[9] == 'l' && "compress-level"@[10] == 'e' && "compress-level"@[11] == 'v' && "compress-level"@[12] == 'e' && "compress-level"@[13] == 'l',
        "export-block-size"@.len() == 17 && "export-block-size"@[0] == 'e' && "export-block-size"@[1] == 'x' && "export-block-size"@[2] == 'p' && "export-block-size"@[3] == 'o' && "export-block-size"@[4] == 'r' && "export-block-size"@[5] == 't' && "export-block-size"@[6] == '-' && "export-block-size"@[7] == 'b' && "export-block-size"@[8] == 'l' && "export-block-size"@[9] == 'o' && "export-block-size"@[10] == 'c' && "export-block-size"@[11] == 'k' && "export-block-size"@[12] == '-' && "export-block-size"@[13] == 's' && "export-block-size"@[14] == 'i' && "export-block-size"@[15] == 'z' && "export-block-size"@[16] == 'e',
        "silent"@.len() == 6 && "silent"@[0] == 's' && "silent"@[1] == 'i' && "silent"@[2] == 'l' && "silent"@[3] == 'e' && "silent"@[4] == 'n' && "silent"@[5] == 't',
        "line-progress"@.len() == 13 && "line-progress"@[0] == 'l' && "line-progress"@[1] == 'i' && "line-progress"@[2] == 'n' && "line-progress"@[3] == 'e' && "line-progress"@[4] == '-' && "line-progress"@[5] == 'p' && "line-progress"@[6] == 'r' && "line-progress"@[7] == 'o' && "line-progress"@[8] == 'g' && "line-progress"@[9] == 'r' && "line-progress"@[10] == 'e' && "line-progress"@[11] == 's' && "line-progress"@[12] == 's',
        "fullscreen-progress"@.len() == 19 && "fullscreen-progress"@[0] == 'f' && "fullscreen-progress"@[1] == 'u' && "fullscreen-progress"@[2] == 'l' && "fullscreen-progress"@[3] == 'l' && "fullscreen-progress"@[4] == 's' && "fullscreen-progress"@[5] == 'c' && "fullscreen-progress"@[6] == 'r' && "fullscreen-progress"@[7] == 'e' && "fullscreen-progress"@[8] == 'e' && "fullscreen-progress"@[9] == 'n' && "fullscreen-progress"@[10] == '-' && "fullscreen-progress"@[11] == 'p' && "fullscreen-progress"@[12] == 'r' && "fullscreen-progress"@[13] == 'o' && "fullscreen-progress"@[14] == 'g' && "fullscreen-progress"@[15] == 'r' && "fullscreen-progress"@[16] == 'e' && "fullscreen-progress"@[17] == 's' && "fullscreen-progress"@[18] == 's',
        "slow-ui-updates"@.len() == 15 && "slow-ui-updates"@[0] == 's' && "slow-ui-updates"@[1] == 'l' && "slow-ui-updates"@[2] == 'o' && "slow-ui-updates"@[3] == 'w' && "slow-ui-updates"@[4] == '-' && "slow-ui-updates"@[5] == 'u' && "slow-ui-updates"@[6] == 'i' && "slow-ui-updates"@[7] == '-' && "slow-ui-updates"@[8] == 'u' && "slow-ui-updates"@[9] == 'p' && "slow-ui-updates"@[10] == 'd' && "slow-ui-updates"@[11] == 'a' && "slow-ui-updates"@[12] == 't' && "slow-ui-updates"@[13] == 'e' && "slow-ui-updates"@[14] == 's',
        "fast-ui-updates"@.len() == 15 && "fast-ui-updates"@[0] == 'f' && "fast-ui-updates"@[1] == 'a' && "fast-ui-updates"@[2] == 's' && "fast-ui-updates"@[3] == 't' && "fast-ui-updates"@[4] == '-' && "fast-ui-updates"@[5] == 'u' && "fast-ui-updates"@[6] == 'i' && "fast-ui-updates"@[7] == '-' && "fast-ui-updates"@[8] == 'u' && "fast-ui-updates"@[9] == 'p' && "fast-ui-updates"@[10] == 'd' && "fast-ui-updates"@[11] == 'a' && "fast-ui-updates"@[12] == 't' && "fast-ui-updates"@[13] == 'e' && "fast-ui-updates"@[14] == 's',
        "enable-shell"@.len() == 12 && "enable-shell"@[0] == 'e' && "enable-shell"@[1] == 'n' && "enable-shell"@[2] == 'a' && "enable-shell"@[3] == 'b' && "enable-shell"@[4] == 'l' && "enable-shell"@[5] == 'e' && "enable-shell"@[6] == '-' && "enable-shell"@[7] == 's' && "enable-shell"@[8] == 'h' && "enable-shell"@[9] == 'e' && "enable-shell"@[10] == 'l' && "enable-shell"@[11] == 'l',
        "disable-shell"@.len() == 13 && "disable-shell"@[0] == 'd' && "disable-shell"@[1] == 'i' && "disable-shell"@[2] == 's' && "disable-shell"@[3] == 'a' && "disable-shell"@[4] == 'b' && "disable-shell"@[5] == 'l' && "disable-shell"@[6] == 'e' && "disable-shell"@[7] == '-' && "disable-shell"@[8] == 's' && "disable-shell"@[9] == 'h' && "disable-shell"@[10] == 'e' && "disable-shell"@[11] == 'l' && "disable-shell"@[12] == 'l',
        "enable-delete"@.len() == 13 && "enable-delete"@[0] == 'e' && "enable-delete"@[1] == 'n' && "enable-delete"@[2] == 'a' && "enable-delete"@[3] == 'b' && "enable-delete"@[4] == 'l' && "enable-delete"@[5] == 'e' && "enable-delete"@[6] == '-' && "enable-delete"@[7] == 'd' && "enable-delete"@[8] == 'e' && "enable-delete"@[9] == 'l' && "enable-delete"@[10] == 'e' && "enable-delete"@[11] == 't' && "enable-delete"@[12] == 'e',
        "disable-delete"@.len() == 14 && "disable-delete"@[0] == 'd' && "disable-delete"@[1] == 'i' && "disable-delete"@[2] == 's' && "disable-delete"@[3] == 'a' && "disable-delete"@[4] == 'b' && "disable-delete"@[5] == 'l' && "disable-delete"@[6] == 'e' && "disable-delete"@[7] == '-' && "disable-delete"@[8] == 'd' && "disable-delete"@[9] == 'e' && "disable-delete"@[10] == 'l' && "disable-delete"@[11] == 'e' && "disable-delete"@[12] == 't' && "disable-delete"@[13] == 'e',
        "enable-refresh"@.len() == 14 && "enable-refresh"@[0] == 'e' && "enable-refresh"@[1] == 'n' && "enable-refresh"@[2] == 'a' && "enable-refresh"@[3] == 'b' && "enable-refresh"@[4] == 'l' && "enable-refresh"@[5] == 'e' && "enable-refresh"@[6] == '-' && "enable-refresh"@[7] == 'r' && "enable-refresh"@[8] == 'e' && "enable-refresh"@[9] == 'f' && "enable-refresh"@[10] == 'r' && "enable-refresh"@[11] == 'e' && "enable-refresh"@[12] == 's' && "enable-refresh"@[13] == 'h',
        "disable-refresh"@.len() == 15 && "disable-refresh"@[0] == 'd' && "disable-refresh"@[1] == 'i' && "disable-refresh"@[2] == 's' && "disable-refresh"@[3] == 'a' && "disable-refresh"@[4] == 'b' && "disable-refresh"@[5] == 'l' && "disable-refresh"@[6] == 'e' && "disable-refresh"@[7] == '-' && "disable-refresh"@[8] == 'r' && "disable-refresh"@[9] == 'e' && "disable-refresh"@[10] == 'f' && "disable-refresh"@[11] == 'r' && "disable-refresh"@[12] == 'e' && "disable-refresh"@[13] == 's' && "disable-refresh"@[14] == 'h',
        "si"@.len() == 2 && "si"@[0] == 's' && "si"@[1] == 'i',
        "apparent-size"@.len() == 13 && "apparent-size"@[0] == 'a' && "apparent-size"@[1] == 'p' && "apparent-size"@[2] == 'p' && "apparent-size"@[3] == 'a' && "apparent-size"@[4] == 'r' && "apparent-size"@[5] == 'e' && "apparent-size"@[6] == 'n' && "apparent-size"@[7] == 't' && "apparent-size"@[8] == '-' && "apparent-size"@[9] == 's' && "apparent-size"@[10] == 'i' && "apparent-size"@[11] == 'z' && "apparent-size"@[12] == 'e',
        "show-hidden"@.len() == 11 && "show-hidden"@[0] == 's' && "show-hidden"@[1] == 'h' && "show-hidden"@[2] == 'o' && "show-hidden"@[3] == 'w' && "show-hidden"@[4] == '-' && "show-hidden"@[5] == 'h' && "show-hidden"@[6] == 'i' && "show-hidden"@[7] == 'd' && "show-hidden"@[8] == 'd' && "show-hidden"@[9] == 'e' && "show-hidden"@[10] == 'n',
        "hide-hidden"@.len() == 11 && "hide-hidden"@[0] == 'h' && "hide-hidden"@[1] == 'i' && "hide-hidden"@[2] == 'd' && "hide-hidden"@[3] == 'e' && "hide-hidden"@[4] == '-' && "hide-hidden"@[5] == 'h' && "hide-hidden"@[6] == 'i' && "hide-hidden"@[7] == 'd' && "hide-hidden"@[8] == 'd' && "hide-hidden"@[9] == 'e' && "hide-hidden"@[10] == 'n',
        "show-itemcount"@.len() == 14 && "show-itemcount"@[0] == 's' && "show-itemcount"@[1] == 'h' && "show-itemcount"@[2] == 'o' && "show-itemcount"@[3] == 'w' && "show-itemcount"@[4] == '-' && "show-itemcount"@[5] == 'i' && "show-itemcount"@[6] == 't' && "show-itemcount"@[7] == 'e' && "show-itemcount"@[8] == 'm' && "show-itemcount"@[9] == 'c' && "show-itemcount"@[10] == 'o' && "show-itemcount"@[11] == 'u' && "show-itemcount"@[12] == 'n' && "show-itemcount"@[13] == 't',
        "hide-itemcount"@.len() == 14 && "hide-itemcount"@[0] == 'h' && "hide-itemcount"@[1] == 'i' && "hide-itemcount"@[2] == 'd' && "hide-itemcount"@[3] == 'e' && "hide-itemcount"@[4] == '-' && "hide-itemcount"@[5] == 'i' && "hide-itemcount"@[6] == 't' && "hide-itemcount"@[7] == 'e' && "hide-itemcount"@[8] == 'm' && "hide-itemcount"@[9] == 'c' && "hide-itemcount"@[10] == 'o' && "hide-itemcount"@[11] == 'u' && "hide-itemcount"@[12] == 'n' && "hide-itemcount"@[13] == 't',
        "show-mtime"@.len() == 10 && "show-mtime"@[0] == 's' && "show-mtime"@[1] == 'h' && "show-mtime"@[2] == 'o' && "show-mtime"@[3] == 'w' && "show-mtime"@[4] == '-' && "show-mtime"@[5] == 'm' && "show-mtime"@[6] == 't' && "show-mtime"@[7] == 'i' && "show-mtime"@[8] == 'm' && "show-mtime"@[9] == 'e',
        "hide-mtime"@.len() == 10 && "hide-mtime"@[0] == 'h' && "hide-mtime"@[1] == 'i' && "hide-mtime"@[2] == 'd' && "hide-mtime"@[3] == 'e' && "hide-mtime"@[4] == '-' && "hide-mtime"@[5] == 'm' && "hide-mtime"@[6] == 't' && "hide-mtime"@[7] == 'i' && "hide-mtime"@[8] == 'm' && "hide-mtime"@[9] == 'e',
        "show-graph"@.len() == 10 && "show-graph"@[0] == 's' && "show-graph"@[1] == 'h' && "show-graph"@[2] == 'o' && "show-graph"@[3] == 'w' && "show-graph"@[4] == '-' && "show-graph"@[5] == 'g' && "show-graph"@[6] == 'r' && "show-graph"@[7] == 'a' && "show-graph"@[8] == 'p' && "show-graph"@[9] == 'h',
        "hide-graph"@.len() == 10 && "hide-graph"@[0] == 'h' && "hide-graph"@[1] == 'i' && "hide-graph"@[2] == 'd' && "hide-graph"@[3] == 'e' && "hide-graph"@[4] == '-' && "hide-graph"@[5] == 'g' && "hide-graph"@[6] == 'r' && "hide-graph"@[7] == 'a' && "hide-graph"@[8] == 'p' && "hide-graph"@[9] == 'h',
        "show-percent"@.len() == 12 && "show-percent"@[0] == 's' && "show-percent"@[1] == 'h' && "show-percent"@[2] == 'o' && "show-percent"@[3] == 'w' && "show-percent"@[4] == '-' && "show-percent"@[5] == 'p' && "show-percent"@[6] == 'e' && "show-percent"@[7] == 'r' && "show-percent"@[8] == 'c' && "show-percent"@[9] == 'e' && "show-percent"@[10] == 'n' && "show-percent"@[11] == 't',
        "hide-percent"@.len() == 12 && "hide-percent"@[0] == 'h' && "hide-percent"@[1] == 'i' && "hide-percent"@[2] == 'd' && "hide-percent"@[3] == 'e' && "hide-percent"@[4] == '-' && "hide-percent"@[5] == 'p' && "hide-percent"@[6] == 'e' && "hide-percent"@[7] == 'r' && "hide-percent"@[8] == 'c' && "hide-percent"@[9] == 'e' && "hide-percent"@[10] == 'n' && "hide-percent"@[11] == 't',
        "graph-style"@.len() == 11 && "graph-style"@[0] == 'g' && "graph-style"@[1] == 'r' && "graph-style"@[2] == 'a' && "graph-style"@[3] == 'p' && "graph-style"@[4] == 'h' && "graph-style"@[5] == '-' && "graph-style"@[6] == 's' && "graph-style"@[7] == 't' && "graph-style"@[8] == 'y' && "graph-style"@[9] == 'l' && "graph-style"@[10] == 'e',
        "shared-column"@.len() == 13 && "shared-column"@[0] == 's' && "shared-column"@[1] == 'h' && "shared-column"@[2] == 'a' && "shared-column"@[3] == 'r' && "shared-column"@[4] == 'e' && "shared-column"@[5] == 'd' && "shared-column"@[6] == '-' && "shared-column"@[7] == 'c' && "shared-column"@[8] == 'o' && "shared-column"@[9] == 'l' && "shared-column"@[10] == 'u' && "shared-column"@[11] == 'm' && "shared-column"@[12] == 'n',
        "sort"@.len() == 4 && "sort"@[0] == 's' && "sort"@[1] == 'o' && "sort"@[2] == 'r' && "sort"@[3] == 't',
        "enable-natsort"@.len() == 14 && "enable-natsort"@[0] == 'e' && "enable-natsort"@[1] == 'n' && "enable-natsort"@[2] == 'a' && "enable-natsort"@[3] == 'b' && "enable-natsort"@[4] == 'l' && "enable-natsort"@[5] == 'e' && "enable-natsort"@[6] == '-' && "enable-natsort"@[7] == 'n' && "enable-natsort"@[8] == 'a' && "enable-natsort"@[9] == 't' && "enable-natsort"@[10] == 's' && "enable-natsort"@[11] == 'o' && "enable-natsort"@[12] == 'r' && "enable-natsort"@[13] == 't',
        "disable-natsort"@.len() == 15 && "disable-natsort"@[0] == 'd' && "disable-natsort"@[1] == 'i' && "disable-natsort"@[2] == 's' && "disable-natsort"@[3] == 'a' && "disable-natsort"@[4] == 'b' && "disable-natsort"@[5] == 'l' && "disable-natsort"@[6] == 'e' && "disable-natsort"@[7] == '-' && "disable-natsort"@[8] == 'n' && "disable-natsort"@[9] == 'a' && "disable-natsort"@[10] == 't' && "disable-natsort"@[11] == 's' && "disable-natsort"@[12] == 'o' && "disable-natsort"@[13] == 'r' && "disable-natsort"@[14] == 't',
        "group-directories-first"@.len() == 23 && "group-directories-first"@[0] == 'g' && "group-directories-first"@[1] == 'r' && "group-directories-first"@[2] == 'o' && "group-directories-first"@[3] == 'u' && "group-directories-first"@[4] == 'p' && "group-directories-first"@[5] == '-' && "group-directories-first"@[6] == 'd' && "group-directories-first"@[7] == 'i' && "group-directories-first"@[8] == 'r' && "group-directories-first"@[9] == 'e' && "group-directories-first"@[10] == 'c' && "group-directories-first"@[11] == 't' && "group-directories-first"@[12] == 'o' && "group-directories-first"@[13] == 'r' && "group-directories-first"@[14] == 'i' && "group-directories-first"@[15] == 'e' && "group-directories-first"@[16] == 's' && "group-directories-first"@[17] == '-' && "group-directories-first"@[18] == 'f' && "group-directories-first"@[19] == 'i' && "group-directories-first"@[20] == 'r' && "group-directories-first"@[21] == 's' && "group-directories-first"@[22] == 't',
        "no-group-directories-first"@.len() == 26 && "no-group-directories-first"@[0] == 'n' && "no-group-directories-first"@[1] == 'o' && "no-group-directories-first"@[2] == '-' && "no-group-directories-first"@[3] == 'g' && "no-group-directories-first"@[4] == 'r' && "no-group-directories-first"@[5] == 'o' && "no-group-directories-first"@[6] == 'u' && "no-group-directories-first"@[7] == 'p' && "no-group-directories-first"@[8] == '-' && "no-group-directories-first"@[9] == 'd' && "no-group-directories-first"@[10] == 'i' && "no-group-directories-first"@[11] == 'r' && "no-group-directories-first"@[12] == 'e' && "no-group-directories-first"@[13] == 'c' && "no-group-directories-first"@[14] == 't' && "no-group-directories-first"@[15] == 'o' && "no-group-directories-first"@[16] == 'r' && "no-group-directories-first"@[17] == 'i' && "no-group-directories-first"@[18] == 'e' && "no-group-directories-first"@[19] == 's' && "no-group-directories-first"@[20] == '-' && "no-group-directories-first"@[21] == 'f' && "no-group-directories-first"@[22] == 'i' && "no-group-directories-first"@[23] == 'r' && "no-group-directories-first"@[24] == 's' && "no-group-directories-first"@[25] == 't',
        "confirm-quit"@.len() == 12 && "confirm-quit"@[0] == 'c' && "confirm-quit"@[1] == 'o' && "confirm-quit"@[2] == 'n' && "confirm-quit"@[3] == 'f' && "confirm-quit"@[4] == 'i' && "confirm-quit"@[5] == 'r' && "confirm-quit"@[6] == 'm' && "confirm-quit"@[7] == '-' && "confirm-quit"@[8] == 'q' && "confirm-quit"@[9] == 'u' && "confirm-quit"@[10] == 'i' && "confirm-quit"@[11] == 't',
        "no-confirm-quit"@.len() == 15 && "no-confirm-quit"@[0] == 'n' && "no-confirm-quit"@[1] == 'o' && "no-confirm-quit"@[2] == '-' && "no-confirm-quit"@[3] == 'c' && "no-confirm-quit"@[4] == 'o' && "no-confirm-quit"@[5] == 'n' && "no-confirm-quit"@[6] == 'f' && "no-confirm-quit"@[7] == 'i' && "no-confirm-quit"@[8] == 'r' && "no-confirm-quit"@[9] == 'm' && "no-confirm-quit"@[10] == '-' && "no-confirm-quit"@[11] == 'q' && "no-confirm-quit"@[12] == 'u' && "no-confirm-quit"@[13] == 'i' && "no-confirm-quit"@[14] == 't',
        "confirm-delete"@.len() == 14 && "confirm-delete"@[0] == 'c' && "confirm-delete"@[1] == 'o' && "confirm-delete"@[2] == 'n' && "confirm-delete"@[3] == 'f' && "confirm-delete"@[4] == 'i' && "confirm-delete"@[5] == 'r' && "confirm-delete"@[6] == 'm' && "confirm-delete"@[7] == '-' && "confirm-delete"@[8] == 'd' && "confirm-delete"@[9] == 'e' && "confirm-delete"@[10] == 'l' && "confirm-delete"@[11] == 'e' && "confirm-delete"@[12] == 't' && "confirm-delete"@[13] == 'e',
        "no-confirm-delete"@.len() == 17 && "no-confirm-delete"@[0] == 'n' && "no-confirm-delete"@[1] == 'o' && "no-confirm-delete"@[2] == '-' && "no-confirm-delete"@[3] == 'c' && "no-confirm-delete"@[4] == 'o' && "no-confirm-delete"@[5] == 'n' && "no-confirm-delete"@[6] == 'f' && "no-confirm-delete"@[7] == 'i' && "no-confirm-delete"@[8] == 'r' && "no-confirm-delete"@[9] == 'm' && "no-confirm-delete"@[10] == '-' && "no-confirm-delete"@[11] == 'd' && "no-confirm-delete"@[12] == 'e' && "no-confirm-delete"@[13] == 'l' && "no-confirm-delete"@[14] == 'e' && "no-confirm-delete"@[15] == 't' && "no-confirm-delete"@[16] == 'e',
        "delete-command"@.len() == 14 && "delete-command"@[0] == 'd' && "delete-command"@[1] == 'e' && "delete-command"@[2] == 'l' && "delete-command"@[3] == 'e' && "delete-command"@[4] == 't' && "delete-command"@[5] == 'e' && "delete-command"@[6] == '-' && "delete-command"@[7] == 'c' && "delete-command"@[8] == 'o' && "delete-command"@[9] == 'm' && "delete-command"@[10] == 'm' && "delete-command"@[11] == 'a' && "delete-command"@[12] == 'n' && "delete-command"@[13] == 'd',
        "color"@.len() == 5 && "color"@[0] == 'c' && "color"@[1] == 'o' && "color"@[2] == 'l' && "color"@[3] == 'o' && "color"@[4] == 'r',
        "icons"@.len() == 5 && "icons"@[0] == 'i' && "icons"@[1] == 'c' && "icons"@[2] == 'o' && "icons"@[3] == 'n' && "icons"@[4] == 's',
        "log-file"@.len() == 8 && "log-file"@[0] == 'l' && "log-file"@[1] == 'o' && "log-file"@[2] == 'g' && "log-file"@[3] == '-' && "log-file"@[4] == 'f' && "log-file"@[5] == 'i' && "log-file"@[6] == 'l' && "log-file"@[7] == 'e',
{
    reveal_strlit("help");
    reveal_strlit("version");
    reveal_strlit("import");
    reveal_strlit("export-json");
    reveal_strlit("export-bin");
    reveal_strlit("extended");
    reveal_strlit("ignore-config");
    reveal_strlit("one-file-system");
    reveal_strlit("cross-file-system");
    reveal_strlit("exclude");
    reveal_strlit("exclude-from");
    reveal_strlit("exclude-caches");
    reveal_strlit("include-caches");
    reveal_strlit("exclude-kernfs");
    reveal_strlit("include-kernfs");
    reveal_strlit("follow-symlinks");
    reveal_strlit("no-follow-symlinks");
    reveal_strlit("threads");
    reveal_strlit("compress");
    reveal_strlit("no-compress");
    reveal_strlit("compress-level");
    reveal_strlit("export-block-size");
    reveal_strlit("silent");
    reveal_strlit("line-progress");
    reveal_strlit("fullscreen-progress");
    reveal_strlit("slow-ui-updates");
    reveal_strlit("fast-ui-updates");
    reveal_strlit("enable-shell");
    reveal_strlit("disable-shell");
    reveal_strlit("enable-delete");
    reveal_strlit("disable-delete");
    reveal_strlit("enable-refresh");
    reveal_strlit("disable-refresh");
    reveal_strlit("si");
    reveal_strlit("apparent-size");
    reveal_strlit("show-hidden");
    reveal_strlit("hide-hidden");
    reveal_strlit("show-itemcount");
    reveal_strlit("hide-itemcount");
    reveal_strlit("show-mtime");
    reveal_strlit("hide-mtime");
    reveal_strlit("show-graph");
    reveal_strlit("hide-graph");
    reveal_strlit("show-percent");
    reveal_strlit("hide-percent");
    reveal_strlit("graph-style");
    reveal_strlit("shared-column");
    reveal_strlit("sort");
    reveal_strlit("enable-natsort");
    reveal_strlit("disable-natsort");
    reveal_strlit("group-directories-first");
    reveal_strlit("no-group-directories-first");
    reveal_strlit("confirm-quit");
    reveal_strlit("no-confirm-quit");
    reveal_strlit("confirm-delete");
    reveal_strlit("no-confirm-delete");
    reveal_strlit("delete-command");
    reveal_strlit("color");
    reveal_strlit("icons");
    reveal_strlit("log-file");
}

/// How `--extended` is read.
proof fn lemma_read_extended()
    ensures
        classify_spec(CliArgV::Long("extended"@)) == Opt::Extended,
{
    lemma_option_names();
}

/// How `--ignore-config` is read.
proof fn lemma_read_ignore_config()
    ensures
        classify_spec(CliArgV::Long("ignore-config"@)) == Opt::IgnoreConfig,
{
    lemma_option_names();
}

/// How `--one-file-system` is read.
proof fn lemma_read_one_file_system()
    ensures
        classify_spec(CliArgV::Long("one-file-system"@)) == Opt::OneFileSystem,
{
    lemma_option_names();
}

/// How `--cross-file-system` is read.
proof fn lemma_read_cross_file_system()
    ensures
        classify_spec(CliArgV::Long("cross-file-system"@)) == Opt::CrossFileSystem,
{
    lemma_option_names();
}

/// How `--exclude-caches` is read.
proof fn lemma_read_exclude_caches()
    ensures
        classify_spec(CliArgV::Long("exclude-caches"@)) == Opt::ExcludeCaches,
{
    lemma_option_names();
}

/// How `--include-caches` is read.
proof fn lemma_read_include_caches()
    ensures
        classify_spec(CliArgV::Long("include-caches"@)) == Opt::IncludeCaches,
{
    lemma_option_names();
}

/// How `--exclude-kernfs` is read.
proof fn lemma_read_exclude_kernfs()
    ensures
        classify_spec(CliArgV::Long("exclude-kernfs"@)) == Opt::ExcludeKernfs,
{
    lemma_option_names();
}

/// How `--include-kernfs` is read.
proof fn lemma_read_include_kernfs()
    ensures
        classify_spec(CliArgV::Long("include-kernfs"@)) == Opt::IncludeKernfs,
{
    lemma_option_names();
}

/// How `--follow-symlinks` is read.
proof fn lemma_read_follow_symlinks()
    ensures
        classify_spec(CliArgV::Long("follow-symlinks"@)) == Opt::FollowSymlinks,
{
    lemma_option_names();
}

/// How `--no-follow-symlinks` is read.
proof fn lemma_read_no_follow_symlinks()
    ensures
        classify_spec(CliArgV::Long("no-follow-symlinks"@)) == Opt::NoFollowSymlinks,
{
    lemma_option_names();
}

/// How `--compress` is read.
proof fn lemma_read_compress()
    ensures
        classify_spec(CliArgV::Long("compress"@)) == Opt::Compress,
{
    lemma_option_names();
}

/// How `--no-compress` is read.
proof fn lemma_read_no_compress()
    ensures
        classify_spec(CliArgV::Long("no-compress"@)) == Opt::NoCompress,
{
    lemma_option_names();
}

/// How `--silent` is read.
proof fn lemma_read_silent()
    ensures
        classify_spec(CliArgV::Long("silent"@)) == Opt::Silent,
{
    lemma_option_names();
}

/// How `--line-progress` is read.
proof fn lemma_read_line_progress()
    ensures
        classify_spec(CliArgV::Long("line-progress"@)) == Opt::LineProgress,
{
    lemma_option_names();
}

/// How `--fullscreen-progress` is read.
proof fn lemma_read_fullscreen_progress()
    ensures
        classify_spec(CliArgV::Long("fullscreen-progress"@)) == Opt::FullscreenProgress,
{
    lemma_option_names();
}

/// How `--slow-ui-updates` is read.
proof fn lemma_read_slow_ui_updates()
    ensures
        classify_spec(CliArgV::Long("slow-ui-updates"@)) == Opt::SlowUpdates,
{
    lemma_option_names();
}

/// How `--fast-ui-updates` is read.
proof fn lemma_read_fast_ui_updates()
    ensures
        classify_spec(CliArgV::Long("fast-ui-updates"@)) == Opt::FastUpdates,
{
    lemma_option_names();
}

/// How `--enable-shell` is read.
proof fn lemma_read_enable_shell()
    ensures
        classify_spec(CliArgV::Long("enable-shell"@)) == Opt::EnableShell,
{
    lemma_option_names();
}

/// How `--disable-shell` is read.
proof fn lemma_read_disable_shell()
    ensures
        classify_spec(CliArgV::Long("disable-shell"@)) == Opt::DisableShell,
{
    lemma_option_names();
}

/// How `--enable-delete` is read.
proof fn lemma_read_enable_delete()
    ensures
        classify_spec(CliArgV::Long("enable-delete"@)) == Opt::EnableDelete,
{
    lemma_option_names();
}

/// How `--disable-delete` is read.
proof fn lemma_read_disable_delete()
    ensures
        classify_spec(CliArgV::Long("disable-delete"@)) == Opt::DisableDelete,
{
    lemma_option_names();
}

/// How `--enable-refresh` is read.
proof fn lemma_read_enable_refresh()
    ensures
        classify_spec(CliArgV::Long("enable-refresh"@)) == Opt::EnableRefresh,
{
    lemma_option_names();
}

/// How `--disable-refresh` is read.
proof fn lemma_read_disable_refresh()
    ensures
        classify_spec(CliArgV::Long("disable-refresh"@)) == Opt::DisableRefresh,
{
    lemma_option_names();
}

/// How `--si` is read.
proof fn lemma_read_si()
    ensures
        classify_spec(CliArgV::Long("si"@)) == Opt::Si,
{
    lemma_option_names();
}

/// How `--apparent-size` is read.
proof fn lemma_read_apparent_size()
    ensures
        classify_spec(CliArgV::Long("apparent-size"@)) == Opt::ApparentSize,
{
    lemma_option_names();
}

/// How `--show-hidden` is read.
proof fn lemma_read_show_hidden()
    ensures
        classify_spec(CliArgV::Long("show-hidden"@)) == Opt::ShowHidden,
{
    lemma_option_names();
}

/// How `--hide-hidden` is read.
proof fn lemma_read_hide_hidden()
    ensures
        classify_spec(CliArgV::Long("hide-hidden"@)) == Opt::HideHidden,
{
    lemma_option_names();
}

/// How `--show-itemcount` is read.
proof fn lemma_read_show_itemcount()
    ensures
        classify_spec(CliArgV::Long("show-itemcount"@)) == Opt::ShowItemcount,
{
    lemma_option_names();
}

/// How `--hide-itemcount` is read.
proof fn lemma_read_hide_itemcount()
    ensures
        classify_spec(CliArgV::Long("hide-itemcount"@)) == Opt::HideItemcount,
{
    lemma_option_names();
}

/// How `--show-mtime` is read.
proof fn lemma_read_show_mtime()
    ensures
        classify_spec(CliArgV::Long("show-mtime"@)) == Opt::ShowMtime,
{
    lemma_option_names();
}

/// How `--hide-mtime` is read.
proof fn lemma_read_hide_mtime()
    ensures
        classify_spec(CliArgV::Long("hide-mtime"@)) == Opt::HideMtime,
{
    lemma_option_names();
}

/// How `--show-graph` is read.
proof fn lemma_read_show_graph()
    ensures
        classify_spec(CliArgV::Long("show-graph"@)) == Opt::ShowGraph,
{
    lemma_option_names();
}

/// How `--hide-graph` is read.
proof fn lemma_read_hide_graph()
    ensures
        classify_spec(CliArgV::Long("hide-graph"@)) == Opt::HideGraph,
{
    lemma_option_names();
}

/// How `--show-percent` is read.
proof fn lemma_read_show_percent()
    ensures
        classify_spec(CliArgV::Long("show-percent"@)) == Opt::ShowPercent,
{
    lemma_option_names();
}

/// How `--hide-percent` is read.
proof fn lemma_read_hide_percent()
    ensures
        classify_spec(CliArgV::Long("hide-percent"@)) == Opt::HidePercent,
{
    lemma_option_names();
}

/// How `--enable-natsort` is read.
proof fn lemma_read_enable_natsort()
    ensures
        classify_spec(CliArgV::Long("enable-natsort"@)) == Opt::EnableNatsort,
{
    lemma_option_names();
}

/// How `--disable-natsort` is read.
proof fn lemma_read_disable_natsort()
    ensures
        classify_spec(CliArgV::Long("disable-natsort"@)) == Opt::DisableNatsort,
{
    lemma_option_names();
}

/// How `--group-directories-first` is read.
proof fn lemma_read_group_directories_first()
    ensures
        classify_spec(CliArgV::Long("group-directories-first"@)) == Opt::GroupDirsFirst,
{
    lemma_option_names();
}

/// How `--no-group-directories-first` is read.
proof fn lemma_read_no_group_directories_first()
    ensures
        classify_spec(CliArgV::Long("no-group-directories-first"@)) == Opt::NoGroupDirsFirst,
{
    lemma_option_names();
}

/// How `--confirm-quit` is read.
proof fn lemma_read_confirm_quit()
    ensures
        classify_spec(CliArgV::Long("confirm-quit"@)) == Opt::ConfirmQuit,
{
    lemma_option_names();
}

/// How `--no-confirm-quit` is read.
proof fn lemma_read_no_confirm_quit()
    ensures
        classify_spec(CliArgV::Long("no-confirm-quit"@)) == Opt::NoConfirmQuit,
{
    lemma_option_names();
}

/// How `--confirm-delete` is read.
proof fn lemma_read_confirm_delete()
    ensures
        classify_spec(CliArgV::Long("confirm-delete"@)) == Opt::ConfirmDelete,
{
    lemma_option_names();
}

/// How `--no-confirm-delete` is read.
proof fn lemma_read_no_confirm_delete()
    ensures
        classify_spec(CliArgV::Long("no-confirm-delete"@)) == Opt::NoConfirmDelete,
{
    lemma_option_names();
}

/// How `--icons` is read.
proof fn lemma_read_icons()
    ensures
        classify_spec(CliArgV::Long("icons"@)) == Opt::Icons,
{
    lemma_option_names();
}

/// Every long flag option of the table is read as an option that takes no
/// value and turns on the flag the table names.
proof fn lemma_long_flag_classified(k: int)
    requires
        0 <= k < long_flags().len(),
    ensures
        ({
            let o = classify_spec(CliArgV::Long(long_flags()[k].0));
            &&& !(o is Help || o is Version || o is Unknown || o is Positional)
            &&& !takes_value_spec(o)
            &&& effect_spec(o) matches Effect::Flags(on, x, y) && on == long_flags()[k].1 && on < 44
        }),
{
    if k == 0 {
        assert(long_flags()[k] == ("extended"@, 0int));
        lemma_read_extended();
    } else if k == 1 {
        assert(long_flags()[k] == ("ignore-config"@, 1int));
        lemma_read_ignore_config();
    } else if k == 2 {
        assert(long_flags()[k] == ("one-file-system"@, 2int));
        lemma_read_one_file_system();
    } else if k == 3 {
        assert(long_flags()[k] == ("cross-file-system"@, 3int));
        lemma_read_cross_file_system();
    } else if k == 4 {
        assert(long_flags()[k] == ("exclude-caches"@, 4int));
        lemma_read_exclude_caches();
    } else if k == 5 {
        assert(long_flags()[k] == ("include-caches"@, 5int));
        lemma_read_include_caches();
    } else if k == 6 {
        assert(long_flags()[k] == ("exclude-kernfs"@, 6int));
        lemma_read_exclude_kernfs();
    } else if k == 7 {
        assert(long_flags()[k] == ("include-kernfs"@, 7int));
        lemma_read_include_kernfs();
    } else if k == 8 {
        assert(long_flags()[k] == ("follow-symlinks"@, 8int));
        lemma_read_follow_symlinks();
    } else if k == 9 {
        assert(long_flags()[k] == ("no-follow-symlinks"@, 9int));
        lemma_read_no_follow_symlinks();
    } else if k == 10 {
        assert(long_flags()[k] == ("compress"@, 10int));
        lemma_read_compress();
    } else if k == 11 {
        assert(long_flags()[k] == ("no-compress"@, 11int));
        lemma_read_no_compress();
    } else if k == 12 {
        assert(long_flags()[k] == ("silent"@, 12int));
        lemma_read_silent();
    } else if k == 13 {
        assert(long_flags()[k] == ("line-progress"@, 13int));
        lemma_read_line_progress();
    } else if k == 14 {
        assert(long_flags()[k] == ("fullscreen-progress"@, 14int));
        lemma_read_fullscreen_progress();
    } else if k == 15 {
        assert(long_flags()[k] == ("slow-ui-updates"@, 15int));
        lemma_read_slow_ui_updates();
    } else if k == 16 {
        assert(long_flags()[k] == ("fast-ui-updates"@, 16int));
        lemma_read_fast_ui_updates();
    } else if k == 17 {
        assert(long_flags()[k] == ("enable-shell"@, 17int));
        lemma_read_enable_shell();
    } else if k == 18 {
        assert(long_flags()[k] == ("disable-shell"@, 18int));
        lemma_read_disable_shell();
    } else if k == 19 {
        assert(long_flags()[k] == ("enable-delete"@, 19int));
        lemma_read_enable_delete();
    } else if k == 20 {
        assert(long_flags()[k] == ("disable-delete"@, 20int));
        lemma_read_disable_delete();
    } else if k == 21 {
        assert(long_flags()[k] == ("enable-refresh"@, 21int));
        lemma_read_enable_refresh();
    } else if k == 22 {
        assert(long_flags()[k] == ("disable-refresh"@, 22int));
        lemma_read_disable_refresh();
    } else if k == 23 {
        assert(long_flags()[k] == ("si"@, 23int));
        lemma_read_si();
    } else if k == 24 {
        assert(long_flags()[k] == ("apparent-size"@, 24int));
        lemma_read_apparent_size();
    } else if k == 25 {
        assert(long_flags()[k] == ("show-hidden"@, 25int));
        lemma_read_show_hidden();
    } else if k == 26 {
        assert(long_flags()[k] == ("hide-hidden"@, 26int));
        lemma_read_hide_hidden();
    } else if k == 27 {
        assert(long_flags()[k] == ("show-itemcount"@, 27int));
        lemma_read_show_itemcount();
    } else if k == 28 {
        assert(long_flags()[k] == ("hide-itemcount"@, 28int));
        lemma_read_hide_itemcount();
    } else if k == 29 {
        assert(long_flags()[k] == ("show-mtime"@, 29int));
        lemma_read_show_mtime();
    } else if k == 30 {
        assert(long_flags()[k] == ("hide-mtime"@, 30int));
        lemma_read_hide_mtime();
    } else if k == 31 {
        assert(long_flags()[k] == ("show-graph"@, 31int));
        lemma_read_show_graph();
    } else if k == 32 {
        assert(long_flags()[k] == ("hide-graph"@, 32int));
        lemma_read_hide_graph();
    } else if k == 33 {
        assert(long_flags()[k] == ("show-percent"@, 33int));
        lemma_read_show_percent();
    } else if k == 34 {
        assert(long_flags()[k] == ("hide-percent"@, 34int));
        lemma_read_hide_percent();
    } else if k == 35 {
        assert(long_flags()[k] == ("enable-natsort"@, 35int));
        lemma_read_enable_natsort();
    } else if k == 36 {
        assert(long_flags()[k] == ("disable-natsort"@, 36int));
        lemma_read_disable_natsort();
    } else if k == 37 {
        assert(long_flags()[k] == ("group-directories-first"@, 37int));
        lemma_read_group_directories_first();
    } else if k == 38 {
        assert(long_flags()[k] == ("no-group-directories-first"@, 38int));
        lemma_read_no_group_directories_first();
    } else if k == 39 {
        assert(long_flags()[k] == ("confirm-quit"@, 39int));
        lemma_read_confirm_quit();
    } else if k == 40 {
        assert(long_flags()[k] == ("no-confirm-quit"@, 40int));
        lemma_read_no_confirm_quit();
    } else if k == 41 {
        assert(long_flags()[k] == ("confirm-delete"@, 41int));
        lemma_read_confirm_delete();
    } else if k == 42 {
        assert(long_flags()[k] == ("no-confirm-delete"@, 42int));
        lemma_read_no_confirm_delete();
    } else if k == 43 {
        assert(long_flags()[k] == ("icons"@, 43int));
        lemma_read_icons();
    }
}

/// How `--import` is read.
proof fn lemma_read_import()
    ensures
        classify_spec(CliArgV::Long("import"@)) == Opt::Import,
{
    lemma_option_names();
}

/// How `--export-json` is read.
proof fn lemma_read_export_json()
    ensures
        classify_spec(CliArgV::Long("export-json"@)) == Opt::ExportJson,
{
    lemma_option_names();
}

/// How `--export-bin` is read.
proof fn lemma_read_export_bin()
    ensures
        classify_spec(CliArgV::Long("export-bin"@)) == Opt::ExportBin,
{
    lemma_option_names();
}

/// How `--exclude-from` is read.
proof fn lemma_read_exclude_from()
    ensures
        classify_spec(CliArgV::Long("exclude-from"@)) == Opt::ExcludeFrom,
{
    lemma_option_names();
}

/// How `--delete-command` is read.
proof fn lemma_read_delete_command()
    ensures
        classify_spec(CliArgV::Long("delete-command"@)) == Opt::DeleteCommand,
{
    lemma_option_names();
}

/// How `--log-file` is read.
proof fn lemma_read_log_file()
    ensures
        classify_spec(CliArgV::Long("log-file"@)) == Opt::LogFile,
{
    lemma_option_names();
}

/// How `--graph-style` is read.
proof fn lemma_read_graph_style()
    ensures
        classify_spec(CliArgV::Long("graph-style"@)) == Opt::GraphStyle,
{
    lemma_option_names();
}

/// How `--shared-column` is read.
proof fn lemma_read_shared_column()
    ensures
        classify_spec(CliArgV::Long("shared-column"@)) == Opt::SharedColumn,
{
    lemma_option_names();
}

/// How `--sort` is read.
proof fn lemma_read_sort()
    ensures
        classify_spec(CliArgV::Long("sort"@)) == Opt::Sort,
{
    lemma_option_names();
}

/// How `--color` is read.
proof fn lemma_read_color()
    ensures
        classify_spec(CliArgV::Long("color"@)) == Opt::Color,
{
    lemma_option_names();
}

/// How `--exclude` is read.
proof fn lemma_read_exclude()
    ensures
        classify_spec(CliArgV::Long("exclude"@)) == Opt::Exclude,
{
    lemma_option_names();
}

/// The optional texts of `a`: the import file, the JSON export, the binary
/// export, the exclusion file, the delete command and the log file.
pub open spec fn opt_text_fields(a: Args) -> Seq<Option<String>> {
    seq![a.import_file, a.export_json, a.export_bin, a.exclude_from, a.delete_command, a.log_file]
}

/// The texts of `a`: the graph style, the shared column, the sort key and
/// the colour scheme.
pub open spec fn text_fields(a: Args) -> Seq<String> {
    seq![a.graph_style, a.shared_column, a.sort, a.color]
}

/// The long options of the help text that take a file or command, each
/// with the position in `opt_text_fields` of where it is kept.
pub open spec fn long_opt_texts() -> Seq<(Seq<char>, int)> {
    seq![("import"@, 0), ("export-json"@, 1), ("export-bin"@, 2), ("exclude-from"@, 3), ("delete-command"@, 4), ("log-file"@, 5)]
}

/// The long options of the help text that take a style, mode, column or
/// scheme, each with the position in `text_fields` of where it is kept.
pub open spec fn long_texts() -> Seq<(Seq<char>, int)> {
    seq![("graph-style"@, 0), ("shared-column"@, 1), ("sort"@, 2), ("color"@, 3)]
}

/// Every file or command option of the table is read as an option that takes a
/// value and stores it where the table names.
proof fn lemma_opt_text_classified(k: int)
    requires
        0 <= k < long_opt_texts().len(),
    ensures
        ({
            let o = classify_spec(CliArgV::Long(long_opt_texts()[k].0));
            &&& !(o is Help || o is Version || o is Unknown || o is Positional)
            &&& takes_value_spec(o)
            &&& effect_spec(o) == Effect::OptText(long_opt_texts()[k].1 as u8)
        }),
{
    if k == 0 {
        assert(long_opt_texts()[k] == ("import"@, 0int));
        lemma_read_import();
    } else if k == 1 {
        assert(long_opt_texts()[k] == ("export-json"@, 1int));
        lemma_read_export_json();
    } else if k == 2 {
        assert(long_opt_texts()[k] == ("export-bin"@, 2int));
        lemma_read_export_bin();
    } else if k == 3 {
        assert(long_opt_texts()[k] == ("exclude-from"@, 3int));
        lemma_read_exclude_from();
    } else if k == 4 {
        assert(long_opt_texts()[k] == ("delete-command"@, 4int));
        lemma_read_delete_command();
    } else if k == 5 {
        assert(long_opt_texts()[k] == ("log-file"@, 5int));
        lemma_read_log_file();
    }
}

/// Every text option of the table is read as an option that takes a
/// value and stores it where the table names.
proof fn lemma_text_classified(k: int)
    requires
        0 <= k < long_texts().len(),
    ensures
        ({
            let o = classify_spec(CliArgV::Long(long_texts()[k].0));
            &&& !(o is Help || o is Version || o is Unknown || o is Positional)
            &&& takes_value_spec(o)
            &&& effect_spec(o) == Effect::Text(long_texts()[k].1 as u8)
        }),
{
    if k == 0 {
        assert(long_texts()[k] == ("graph-style"@, 0int));
        lemma_read_graph_style();
    } else if k == 1 {
        assert(long_texts()[k] == ("shared-column"@, 1int));
        lemma_read_shared_column();
    } else if k == 2 {
        assert(long_texts()[k] == ("sort"@, 2int));
        lemma_read_sort();
    } else if k == 3 {
        assert(long_texts()[k] == ("color"@, 3int));
        lemma_read_color();
    }
}

/// Every short flag option of the table is read as an option that takes no
/// value and turns on the flag the table names.
proof fn lemma_short_flag_classified(k: int)
    requires
        0 <= k < short_flags().len(),
    ensures
        ({
            let o = classify_spec(CliArgV::Short(short_flags()[k].0));
            &&& !(o is Help || o is Version || o is Unknown || o is Positional)
            &&& !takes_value_spec(o)
            &&& effect_spec(o) matches Effect::Flags(on, x, y) && on == short_flags()[k].1 && on < 44
        }),
{
}

/// A command line holds at least one more token than arguments.
proof fn lemma_token_count_grows(args: Seq<Seq<char>>, i: int)
    requires
        0 <= i <= args.len(),
    ensures
        token_count(args, i) >= i + 1,
    decreases i,
{
    if i > 0 {
        lemma_token_count_grows(args, i - 1);
    }
}

/// A command line of the program name and one argument read as a flag
/// option that turns on flag `on` parses to options whose flags are all
/// off but that one.
proof fn lemma_one_flag(argv: Seq<Seq<char>>, on: int, r: Result<Args, CliError>)
    requires
        argv.len() == 2,
        simple_cli_parses(argv, r),
        ({
            let o = classify_spec(simple_token(argv[1]));
            &&& !(o is Help || o is Version || o is Unknown || o is Positional)
            &&& !takes_value_spec(o)
            &&& effect_spec(o) matches Effect::Flags(f, x, y) && f == on && on < 44
        }),
    ensures
        r matches Ok(a) && flag_fields(a) == Seq::new(44, |i: int| i == on),
{
    let s0 = choose|s0: ParseState|
        is_initial(s0) && #[trigger] simple_parses_to(argv, 1, s0, token_limit(argv), r);
    lemma_token_count_grows(argv, 2);
    let f = token_limit(argv);
    assert(f >= 1);
    let o = classify_spec(simple_token(argv[1]));
    let f1 = (f - 1) as nat;
    assert(simple_applies(argv, 2, s0, o, Seq::empty(), f1, r));
    assert(value_ok(effect_spec(o), Seq::empty()));
    let (val, n) = choose|val: String, n: ParseState|
        #![trigger applied(s0, effect_spec(o), val, n)]
        val@ == Seq::<char>::empty() && applied(s0, effect_spec(o), val, n) && simple_parses_to(argv, 2, n, f1, r);
    assert(simple_parses_to(argv, 2, n, f1, r));
    if let Effect::Flags(g, x, y) = effect_spec(o) {
        assert forall|i: int| 0 <= i < 44 implies n.flags@[i] == (i == on) by {
            assert(!s0.flags@[i]);
        }
    }
    if let Ok(a) = r {
        assert(args_of(n, a));
        assert(flag_fields(a) =~= Seq::new(44, |i: int| i == on));
    }
}

/// The long flag options do what the help text says: a command line of the
/// program name and one long flag `--name` of the table parses to options
/// with that flag on and every other flag off.
pub proof fn lemma_long_flag_option(prog: Seq<char>, k: int, r: Result<Args, CliError>)
    requires
        0 <= k < long_flags().len(),
        simple_cli_parses(seq![prog, "--"@ + long_flags()[k].0], r),
    ensures
        r matches Ok(a) && flag_fields(a) == Seq::new(44, |i: int| i == long_flags()[k].1),
{
    let name = long_flags()[k].0;
    let argv = seq![prog, "--"@ + name];
    lemma_long_flag_classified(k);
    reveal_strlit("--");
    let t = argv[1];
    assert(t[0] == '-' && t[1] == '-');
    assert(t.subrange(2, t.len() as int) =~= name);
    assert(simple_token(t) == CliArgV::Long(name));
    lemma_one_flag(argv, long_flags()[k].1, r);
}

/// The short flag options do what the help text says: a command line of
/// the program name and one short flag `-c` of the table parses to options
/// with that flag on and every other flag off.
pub proof fn lemma_short_flag_option(prog: Seq<char>, k: int, r: Result<Args, CliError>)
    requires
        0 <= k < short_flags().len(),
        simple_cli_parses(seq![prog, seq!['-', short_flags()[k].0]], r),
    ensures
        r matches Ok(a) && flag_fields(a) == Seq::new(44, |i: int| i == short_flags()[k].1),
{
    let argv = seq![prog, seq!['-', short_flags()[k].0]];
    lemma_short_flag_classified(k);
    let t = argv[1];
    assert(simple_token(t) == CliArgV::Short(short_flags()[k].0));
    lemma_one_flag(argv, short_flags()[k].1, r);
}

/// A command line of the program name, one option that takes a value and
/// the value parses to options that keep the value where the option says.
proof fn lemma_one_value(argv: Seq<Seq<char>>, r: Result<Args, CliError>)
    requires
        argv.len() == 3,
        simple_cli_parses(argv, r),
        ({
            let o = classify_spec(simple_token(argv[1]));
            &&& !(o is Help || o is Version || o is Unknown || o is Positional)
            &&& takes_value_spec(o)
            &&& ((effect_spec(o) matches Effect::OptText(i) && i < 6) || (effect_spec(o) matches Effect::Text(i)
                && i < 4) || effect_spec(o) is Exclude)
        }),
    ensures
        r is Ok,
        r matches Ok(a) && match effect_spec(classify_spec(simple_token(argv[1]))) {
            Effect::OptText(i) => opt_text_fields(a)[i as int] matches Some(t) && t@ == argv[2],
            Effect::Text(i) => text_fields(a)[i as int]@ == argv[2],
            _ => a.exclude@.len() == 1 && a.exclude@[0]@ == argv[2],
        },
{
    let s0 = choose|s0: ParseState|
        is_initial(s0) && #[trigger] simple_parses_to(argv, 1, s0, token_limit(argv), r);
    lemma_token_count_grows(argv, 3);
    let f = token_limit(argv);
    assert(f >= 1);
    let o = classify_spec(simple_token(argv[1]));
    let f1 = (f - 1) as nat;
    let v = argv[2];
    assert(simple_applies(argv, 3, s0, o, v, f1, r));
    assert(value_ok(effect_spec(o), v));
    let (val, n) = choose|val: String, n: ParseState|
        #![trigger applied(s0, effect_spec(o), val, n)]
        val@ == v && applied(s0, effect_spec(o), val, n) && simple_parses_to(argv, 3, n, f1, r);
    assert(simple_parses_to(argv, 3, n, f1, r));
    if let Ok(a) = r {
        assert(args_of(n, a));
        assert(opt_text_fields(a) =~= n.opt_texts@);
        assert(text_fields(a) =~= n.texts@);
    }
}

/// The long options that take a file or a command do what the help text
/// says: a command line of the program name, `--name` of the table and a
/// value parses to options that keep the value where the table names.
pub proof fn lemma_long_opt_text_option(prog: Seq<char>, k: int, v: Seq<char>, r: Result<Args, CliError>)
    requires
        0 <= k < long_opt_texts().len(),
        simple_cli_parses(seq![prog, "--"@ + long_opt_texts()[k].0, v], r),
    ensures
        r matches Ok(a) && opt_text_fields(a)[long_opt_texts()[k].1] matches Some(t) && t@ == v,
{
    let name = long_opt_texts()[k].0;
    let argv = seq![prog, "--"@ + name, v];
    lemma_opt_text_classified(k);
    reveal_strlit("--");
    let t = argv[1];
    assert(t[0] == '-' && t[1] == '-');
    assert(t.subrange(2, t.len() as int) =~= name);
    assert(simple_token(t) == CliArgV::Long(name));
    lemma_one_value(argv, r);
}

/// The long options that take a style, mode, column or scheme do what the
/// help text says: a command line of the program name, `--name` of the
/// table and a value parses to options that keep the value where the table
/// names.
pub proof fn lemma_long_text_option(prog: Seq<char>, k: int, v: Seq<char>, r: Result<Args, CliError>)
    requires
        0 <= k < long_texts().len(),
        simple_cli_parses(seq![prog, "--"@ + long_texts()[k].0, v], r),
    ensures
        r matches Ok(a) && text_fields(a)[long_texts()[k].1]@ == v,
{
    let name = long_texts()[k].0;
    let argv = seq![prog, "--"@ + name, v];
    lemma_text_classified(k);
    reveal_strlit("--");
    let t = argv[1];
    assert(t[0] == '-' && t[1] == '-');
    assert(t.subrange(2, t.len() as int) =~= name);
    assert(simple_token(t) == CliArgV::Long(name));
    lemma_one_value(argv, r);
}

/// `--exclude` does what the help text says: a command line of the program
/// name, `--exclude` and a pattern parses to options excluding that
/// pattern alone.
pub proof fn lemma_exclude_option(prog: Seq<char>, v: Seq<char>, r: Result<Args, CliError>)
    requires
        simple_cli_parses(seq![prog, "--"@ + "exclude"@, v], r),
    ensures
        r matches Ok(a) && a.exclude@.len() == 1 && a.exclude@[0]@ == v,
{
    let argv = seq![prog, "--"@ + "exclude"@, v];
    lemma_read_exclude();
    reveal_strlit("--");
    let t = argv[1];
    assert(t[0] == '-' && t[1] == '-');
    assert(t.subrange(2, t.len() as int) =~= "exclude"@);
    assert(simple_token(t) == CliArgV::Long("exclude"@));
    lemma_one_value(argv, r);
}

/// How `--threads` is read.
proof fn lemma_read_threads()
    ensures
        classify_spec(CliArgV::Long("threads"@)) == Opt::Threads,
{
    lemma_option_names();
}

/// How `--export-block-size` is read.
proof fn lemma_read_export_block_size()
    ensures
        classify_spec(CliArgV::Long("export-block-size"@)) == Opt::ExportBlockSize,
{
    lemma_option_names();
}

/// How `--compress-level` is read.
proof fn lemma_read_compress_level()
    ensures
        classify_spec(CliArgV::Long("compress-level"@)) == Opt::CompressLevel,
{
    lemma_option_names();
}

/// The sizes of `a`: the number of threads and the export block size.
pub open spec fn size_fields(a: Args) -> Seq<Option<usize>> {
    seq![a.threads, a.export_block_size]
}

/// The long options of the help text that take a number, each with the
/// position in `size_fields` of where it is kept.
pub open spec fn long_sizes() -> Seq<(Seq<char>, int)> {
    seq![("threads"@, 0), ("export-block-size"@, 1)]
}

/// The long options that take a number do what the help text says: a
/// command line of the program name, `--name` of the table and a decimal
/// number that fits parses to options keeping that number where the table
/// names.
pub proof fn lemma_long_size_option(prog: Seq<char>, k: int, v: Seq<char>, d: int, r: Result<Args, CliError>)
    requires
        0 <= k < long_sizes().len(),
        decimal_of(v, false) == Some(d),
        d <= usize::MAX,
        simple_cli_parses(seq![prog, "--"@ + long_sizes()[k].0, v], r),
    ensures
        r matches Ok(a) && size_fields(a)[long_sizes()[k].1] == Some(d as usize),
{
    let name = long_sizes()[k].0;
    let argv = seq![prog, "--"@ + name, v];
    if k == 0 {
        assert(long_sizes()[k] == ("threads"@, 0int));
        lemma_read_threads();
    } else {
        assert(long_sizes()[k] == ("export-block-size"@, 1int));
        lemma_read_export_block_size();
    }
    reveal_strlit("--");
    let t = argv[1];
    assert(t[0] == '-' && t[1] == '-');
    assert(t.subrange(2, t.len() as int) =~= name);
    assert(simple_token(t) == CliArgV::Long(name));
    let s0 = choose|s0: ParseState|
        is_initial(s0) && #[trigger] simple_parses_to(argv, 1, s0, token_limit(argv), r);
    lemma_token_count_grows(argv, 3);
    let f = token_limit(argv);
    let o = classify_spec(simple_token(t));
    let f1 = (f - 1) as nat;
    assert(simple_applies(argv, 3, s0, o, v, f1, r));
    assert(value_ok(effect_spec(o), v));
    let (val, n) = choose|val: String, n: ParseState|
        #![trigger applied(s0, effect_spec(o), val, n)]
        val@ == v && applied(s0, effect_spec(o), val, n) && simple_parses_to(argv, 3, n, f1, r);
    assert(simple_parses_to(argv, 3, n, f1, r));
    if let Ok(a) = r {
        assert(args_of(n, a));
        assert(size_fields(a) =~= n.sizes@);
    }
}

/// `--compress-level` does what the help text says: a command line of the
/// program name, `--compress-level` and a decimal number that fits an
/// `i32` parses to options with that compression level.
pub proof fn lemma_compress_level_option(prog: Seq<char>, v: Seq<char>, d: int, r: Result<Args, CliError>)
    requires
        decimal_of(v, true) == Some(d),
        i32::MIN <= d <= i32::MAX,
        simple_cli_parses(seq![prog, "--"@ + "compress-level"@, v], r),
    ensures
        r matches Ok(a) && a.compress_level == Some(d as i32),
{
    let argv = seq![prog, "--"@ + "compress-level"@, v];
    lemma_read_compress_level();
    reveal_strlit("--");
    let t = argv[1];
    assert(t[0] == '-' && t[1] == '-');
    assert(t.subrange(2, t.len() as int) =~= "compress-level"@);
    assert(simple_token(t) == CliArgV::Long("compress-level"@));
    let s0 = choose|s0: ParseState|
        is_initial(s0) && #[trigger] simple_parses_to(argv, 1, s0, token_limit(argv), r);
    lemma_token_count_grows(argv, 3);
    let f = token_limit(argv);
    let o = classify_spec(simple_token(t));
    let f1 = (f - 1) as nat;
    assert(simple_applies(argv, 3, s0, o, v, f1, r));
    assert(value_ok(effect_spec(o), v));
    let (val, n) = choose|val: String, n: ParseState|
        #![trigger applied(s0, effect_spec(o), val, n)]
        val@ == v && applied(s0, effect_spec(o), val, n) && simple_parses_to(argv, 3, n, f1, r);
    assert(simple_parses_to(argv, 3, n, f1, r));
    if let Ok(a) = r {
        assert(args_of(n, a));
    }
}

/// How `--help` and `--version` are read.
proof fn lemma_read_help_version()
    ensures
        classify_spec(CliArgV::Long("help"@)) == Opt::Help,
        classify_spec(CliArgV::Long("version"@)) == Opt::Version,
{
    lemma_option_names();
}

/// Asking for help or the version stops the parse there: a command line
/// whose first argument is `--help` or `-h` asks for the help text, and one
/// whose first argument is `--version`, `-V` or `-v` asks for the version,
/// whatever follows.
pub proof fn lemma_help_and_version(argv: Seq<Seq<char>>, r: Result<Args, CliError>)
    requires
        argv.len() >= 2,
        simple_cli_parses(argv, r),
    ensures
        argv[1] == "--"@ + "help"@ || argv[1] == seq!['-', 'h'] ==> r matches Err(CliError::HelpRequested),
        argv[1] == "--"@ + "version"@ || argv[1] == seq!['-', 'V'] || argv[1] == seq!['-', 'v'] ==> r matches Err(
            CliError::VersionRequested,
        ),
{
    lemma_read_help_version();
    reveal_strlit("--");
    lemma_token_count_grows(argv, argv.len() as int);
    let s0 = choose|s0: ParseState|
        is_initial(s0) && #[trigger] simple_parses_to(argv, 1, s0, token_limit(argv), r);
    let t = argv[1];
    if t == "--"@ + "help"@ {
        assert(t.subrange(2, t.len() as int) =~= "help"@);
    }
    if t == "--"@ + "version"@ {
        assert(t.subrange(2, t.len() as int) =~= "version"@);
    }
}

/// Every `-r` from the argument at `pos` on adds one to the read-only level
/// of the state `st`.
proof fn lemma_read_only_run(argv: Seq<Seq<char>>, pos: int, st: ParseState, fuel: nat, r: Result<Args, CliError>)
    requires
        1 <= pos <= argv.len(),
        forall|i: int| pos <= i < argv.len() ==> #[trigger] argv[i] == seq!['-', 'r'],
        st.read_only + (argv.len() - pos) <= 255,
        fuel >= argv.len() - pos,
        simple_parses_to(argv, pos, st, fuel, r),
    ensures
        r matches Ok(a) && a.read_only == st.read_only + (argv.len() - pos),
    decreases argv.len() - pos,
{
    if pos < argv.len() {
        let t = argv[pos];
        assert(simple_token(t) == CliArgV::Short('r'));
        let o = Opt::ReadOnly;
        let f1 = (fuel - 1) as nat;
        assert(simple_applies(argv, pos + 1, st, o, Seq::empty(), f1, r));
        let (val, n) = choose|val: String, n: ParseState|
            #![trigger applied(st, effect_spec(o), val, n)]
            val@ == Seq::<char>::empty() && applied(st, effect_spec(o), val, n) && simple_parses_to(
                argv,
                pos + 1,
                n,
                f1,
                r,
            );
        assert(n.read_only == st.read_only + 1);
        lemma_read_only_run(argv, pos + 1, n, f1, r);
    } else {
        if let Ok(a) = r {
            assert(args_of(st, a));
        }
    }
}

/// Each `-r` raises the read-only level by one: a command line of the
/// program name and `n` times `-r` parses to options at level `n` (for
/// levels a byte holds).
pub proof fn lemma_read_only_levels(argv: Seq<Seq<char>>, r: Result<Args, CliError>)
    requires
        1 <= argv.len() <= 256,
        forall|i: int| 1 <= i < argv.len() ==> #[trigger] argv[i] == seq!['-', 'r'],
        simple_cli_parses(argv, r),
    ensures
        r matches Ok(a) && a.read_only == argv.len() - 1,
{
    let s0 = choose|s0: ParseState|
        is_initial(s0) && #[trigger] simple_parses_to(argv, 1, s0, token_limit(argv), r);
    lemma_token_count_grows(argv, argv.len() as int);
    lemma_read_only_run(argv, 1, s0, token_limit(argv), r);
}

} // verus!
