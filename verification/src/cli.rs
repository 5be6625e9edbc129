use vstd::prelude::*;
use vstd::string::StringSliceAdditionalSpecFns;
use vstd::utf8::encode_utf8;

use crate::lexer::{
    argv_texts, lex_next, lex_value, simple_args, simple_facts, simple_token, Lexer, LexTokV, LexValV,
};
use crate::text::same_text;

verus! {

/// An error reported by the command line tokenizer.
#[derive(Debug)]
pub enum LexError {
    /// An option that takes a value came last.
    MissingValue(Option<String>),
    /// An option was not expected.
    UnexpectedOption(String),
    /// A positional argument was not expected.
    UnexpectedArgument(String),
    /// An option that takes no value was given one (`--opt=value`).
    UnexpectedValue(String, String),
    /// A value did not parse.
    ParsingFailed(String, String),
    /// A value is not valid Unicode.
    NonUnicodeValue(String),
    /// Any other error, by its message.
    Custom(String),
}

/// The mathematical value of a `LexError`.
pub enum LexErrorV {
    MissingValue(Option<Seq<char>>),
    UnexpectedOption(Seq<char>),
    UnexpectedArgument(Seq<char>),
    UnexpectedValue(Seq<char>, Seq<char>),
    ParsingFailed(Seq<char>, Seq<char>),
    NonUnicodeValue(Seq<char>),
    Custom(Seq<char>),
}

impl View for LexError {
    type V = LexErrorV;

    open spec fn view(&self) -> LexErrorV {
        match self {
            LexError::MissingValue(o) => LexErrorV::MissingValue(
                match o {
                    Some(t) => Some(t@),
                    None => None,
                },
            ),
            LexError::UnexpectedOption(o) => LexErrorV::UnexpectedOption(o@),
            LexError::UnexpectedArgument(v) => LexErrorV::UnexpectedArgument(v@),
            LexError::UnexpectedValue(o, v) => LexErrorV::UnexpectedValue(o@, v@),
            LexError::ParsingFailed(v, w) => LexErrorV::ParsingFailed(v@, w@),
            LexError::NonUnicodeValue(v) => LexErrorV::NonUnicodeValue(v@),
            LexError::Custom(c) => LexErrorV::Custom(c@),
        }
    }
}

/// Why the command line was not accepted, or what it asked for instead of a
/// run.
#[derive(Debug)]
pub enum CliError {
    /// The tokenizer failed, or an option value did not parse.
    Lexopt(LexError),
    /// A second positional argument.
    UnexpectedArgument(String),
    /// An option that is not known, in the tokenizer's notation.
    UnknownOption(String),
    /// `-h` or `--help`: print the help text and stop.
    HelpRequested,
    /// `-v`, `-V` or `--version`: print the version and stop.
    VersionRequested,
}

/// One token of the command line.
#[derive(Debug)]
pub enum CliArg {
    Short(char),
    Long(String),
    Value(String),
}

/// The mathematical value of a `CliArg`.
pub enum CliArgV {
    Short(char),
    Long(Seq<char>),
    Value(Seq<char>),
}

impl View for CliArg {
    type V = CliArgV;

    open spec fn view(&self) -> CliArgV {
        match self {
            CliArg::Short(c) => CliArgV::Short(*c),
            CliArg::Long(s) => CliArgV::Long(s@),
            CliArg::Value(s) => CliArgV::Value(s@),
        }
    }
}

/// The command line options.
#[derive(Debug, Clone)]
pub struct Args {
    pub path: Option<String>,
    pub import_file: Option<String>,
    pub export_json: Option<String>,
    pub export_bin: Option<String>,
    pub extended: bool,
    pub ignore_config: bool,
    pub one_file_system: bool,
    pub cross_file_system: bool,
    pub exclude: Vec<String>,
    pub exclude_from: Option<String>,
    pub exclude_caches: bool,
    pub include_caches: bool,
    pub exclude_kernfs: bool,
    pub include_kernfs: bool,
    pub follow_symlinks: bool,
    pub no_follow_symlinks: bool,
    pub threads: Option<usize>,
    pub compress: bool,
    pub no_compress: bool,
    pub compress_level: Option<i32>,
    pub export_block_size: Option<usize>,
    pub silent: bool,
    pub line_progress: bool,
    pub fullscreen_progress: bool,
    pub slow_updates: bool,
    pub fast_ui_updates: bool,
    pub read_only: u8,
    pub enable_shell: bool,
    pub disable_shell: bool,
    pub enable_delete: bool,
    pub disable_delete: bool,
    pub enable_refresh: bool,
    pub disable_refresh: bool,
    pub si: bool,
    pub apparent_size: bool,
    pub show_hidden: bool,
    pub hide_hidden: bool,
    pub show_itemcount: bool,
    pub hide_itemcount: bool,
    pub show_mtime: bool,
    pub hide_mtime: bool,
    pub show_graph: bool,
    pub hide_graph: bool,
    pub show_percent: bool,
    pub hide_percent: bool,
    pub graph_style: String,
    pub shared_column: String,
    pub sort: String,
    pub enable_natsort: bool,
    pub disable_natsort: bool,
    pub group_directories_first: bool,
    pub no_group_directories_first: bool,
    pub confirm_quit: bool,
    pub no_confirm_quit: bool,
    pub confirm_delete: bool,
    pub no_confirm_delete: bool,
    pub delete_command: Option<String>,
    pub color: String,
    pub icons: bool,
    pub log_file: Option<String>,
}

/// `a` holds the options before any argument is read: everything off or
/// unset, the graph style `hash`, the shared column `shared`, the sort
/// `disk-usage` and the colour scheme `off`.
pub open spec fn is_default_args(a: Args) -> bool {
    &&& a.path is None
    &&& a.import_file is None
    &&& a.export_json is None
    &&& a.export_bin is None
    &&& !a.extended
    &&& !a.ignore_config
    &&& !a.one_file_system
    &&& !a.cross_file_system
    &&& a.exclude@.len() == 0
    &&& a.exclude_from is None
    &&& !a.exclude_caches
    &&& !a.include_caches
    &&& !a.exclude_kernfs
    &&& !a.include_kernfs
    &&& !a.follow_symlinks
    &&& !a.no_follow_symlinks
    &&& a.threads is None
    &&& !a.compress
    &&& !a.no_compress
    &&& a.compress_level is None
    &&& a.export_block_size is None
    &&& !a.silent
    &&& !a.line_progress
    &&& !a.fullscreen_progress
    &&& !a.slow_updates
    &&& !a.fast_ui_updates
    &&& a.read_only == 0
    &&& !a.enable_shell
    &&& !a.disable_shell
    &&& !a.enable_delete
    &&& !a.disable_delete
    &&& !a.enable_refresh
    &&& !a.disable_refresh
    &&& !a.si
    &&& !a.apparent_size
    &&& !a.show_hidden
    &&& !a.hide_hidden
    &&& !a.show_itemcount
    &&& !a.hide_itemcount
    &&& !a.show_mtime
    &&& !a.hide_mtime
    &&& !a.show_graph
    &&& !a.hide_graph
    &&& !a.show_percent
    &&& !a.hide_percent
    &&& a.graph_style@ == "hash"@
    &&& a.shared_column@ == "shared"@
    &&& a.sort@ == "disk-usage"@
    &&& !a.enable_natsort
    &&& !a.disable_natsort
    &&& !a.group_directories_first
    &&& !a.no_group_directories_first
    &&& !a.confirm_quit
    &&& !a.no_confirm_quit
    &&& !a.confirm_delete
    &&& !a.no_confirm_delete
    &&& a.delete_command is None
    &&& a.color@ == "off"@
    &&& !a.icons
    &&& a.log_file is None
}

impl Default for Args {
    fn default() -> (r: Args)
        ensures
            is_default_args(r),
    {
        Args {
            path: None,
            import_file: None,
            export_json: None,
            export_bin: None,
            extended: false,
            ignore_config: false,
            one_file_system: false,
            cross_file_system: false,
            exclude: Vec::new(),
            exclude_from: None,
            exclude_caches: false,
            include_caches: false,
            exclude_kernfs: false,
            include_kernfs: false,
            follow_symlinks: false,
            no_follow_symlinks: false,
            threads: None,
            compress: false,
            no_compress: false,
            compress_level: None,
            export_block_size: None,
            silent: false,
            line_progress: false,
            fullscreen_progress: false,
            slow_updates: false,
            fast_ui_updates: false,
            read_only: 0,
            enable_shell: false,
            disable_shell: false,
            enable_delete: false,
            disable_delete: false,
            enable_refresh: false,
            disable_refresh: false,
            si: false,
            apparent_size: false,
            show_hidden: false,
            hide_hidden: false,
            show_itemcount: false,
            hide_itemcount: false,
            show_mtime: false,
            hide_mtime: false,
            show_graph: false,
            hide_graph: false,
            show_percent: false,
            hide_percent: false,
            graph_style: "hash".to_owned(),
            shared_column: "shared".to_owned(),
            sort: "disk-usage".to_owned(),
            enable_natsort: false,
            disable_natsort: false,
            group_directories_first: false,
            no_group_directories_first: false,
            confirm_quit: false,
            no_confirm_quit: false,
            confirm_delete: false,
            no_confirm_delete: false,
            delete_command: None,
            color: "off".to_owned(),
            icons: false,
            log_file: None,
        }
    }
}

/// What one token of the command line stands for.
#[derive(Clone, Copy, Debug, PartialEq, Eq, Structural)]
pub enum Opt {
    Help,
    Version,
    Import,
    ExportJson,
    ExportBin,
    Extended,
    IgnoreConfig,
    OneFileSystem,
    CrossFileSystem,
    Exclude,
    ExcludeFrom,
    ExcludeCaches,
    IncludeCaches,
    ExcludeKernfs,
    IncludeKernfs,
    FollowSymlinks,
    NoFollowSymlinks,
    Threads,
    Compress,
    NoCompress,
    CompressLevel,
    ExportBlockSize,
    Silent,
    LineProgress,
    FullscreenProgress,
    SlowUpdates,
    FastUpdates,
    ReadOnly,
    EnableShell,
    DisableShell,
    EnableDelete,
    DisableDelete,
    EnableRefresh,
    DisableRefresh,
    Si,
    ApparentSize,
    ShowHidden,
    HideHidden,
    ShowItemcount,
    HideItemcount,
    ShowMtime,
    HideMtime,
    ShowGraph,
    HideGraph,
    ShowPercent,
    HidePercent,
    GraphStyle,
    SharedColumn,
    Sort,
    EnableNatsort,
    DisableNatsort,
    GroupDirsFirst,
    NoGroupDirsFirst,
    ConfirmQuit,
    NoConfirmQuit,
    ConfirmDelete,
    NoConfirmDelete,
    DeleteCommand,
    Color,
    Icons,
    LogFile,
    /// A positional argument.
    Positional,
    /// An option that is not known.
    Unknown,
}

/// The option a token names: short options by their letter, long options
/// by their name; anything else is positional.
pub open spec fn classify_spec(a: CliArgV) -> Opt {
    match a {
        CliArgV::Short(c) => {
            if c == 'h' {
                Opt::Help
            } else if c == 'v' || c == 'V' {
                Opt::Version
            } else if c == 'f' {
                Opt::Import
            } else if c == 'o' {
                Opt::ExportJson
            } else if c == 'O' {
                Opt::ExportBin
            } else if c == 'e' {
                Opt::Extended
            } else if c == 'x' {
                Opt::OneFileSystem
            } else if c == 'X' {
                Opt::ExcludeFrom
            } else if c == 'L' {
                Opt::FollowSymlinks
            } else if c == 't' {
                Opt::Threads
            } else if c == 'c' {
                Opt::Compress
            } else if c == '0' {
                Opt::Silent
            } else if c == '1' {
                Opt::LineProgress
            } else if c == '2' {
                Opt::FullscreenProgress
            } else if c == 'q' {
                Opt::SlowUpdates
            } else if c == 'r' {
                Opt::ReadOnly
            } else {
                Opt::Unknown
            }
        },
        CliArgV::Long(s) => {
            if s == "help"@ {
                Opt::Help
            } else if s == "version"@ {
                Opt::Version
            } else if s == "import"@ {
                Opt::Import
            } else if s == "export-json"@ {
                Opt::ExportJson
            } else if s == "export-bin"@ {
                Opt::ExportBin
            } else if s == "extended"@ {
                Opt::Extended
            } else if s == "ignore-config"@ {
                Opt::IgnoreConfig
            } else if s == "one-file-system"@ {
                Opt::OneFileSystem
            } else if s == "cross-file-system"@ {
                Opt::CrossFileSystem
            } else if s == "exclude"@ {
                Opt::Exclude
            } else if s == "exclude-from"@ {
                Opt::ExcludeFrom
            } else if s == "exclude-caches"@ {
                Opt::ExcludeCaches
            } else if s == "include-caches"@ {
                Opt::IncludeCaches
            } else if s == "exclude-kernfs"@ {
                Opt::ExcludeKernfs
            } else if s == "include-kernfs"@ {
                Opt::IncludeKernfs
            } else if s == "follow-symlinks"@ {
                Opt::FollowSymlinks
            } else if s == "no-follow-symlinks"@ {
                Opt::NoFollowSymlinks
            } else if s == "threads"@ {
                Opt::Threads
            } else if s == "compress"@ {
                Opt::Compress
            } else if s == "no-compress"@ {
                Opt::NoCompress
            } else if s == "compress-level"@ {
                Opt::CompressLevel
            } else if s == "export-block-size"@ {
                Opt::ExportBlockSize
            } else if s == "silent"@ {
                Opt::Silent
            } else if s == "line-progress"@ {
                Opt::LineProgress
            } else if s == "fullscreen-progress"@ {
                Opt::FullscreenProgress
            } else if s == "slow-ui-updates"@ {
                Opt::SlowUpdates
            } else if s == "fast-ui-updates"@ {
                Opt::FastUpdates
            } else if s == "enable-shell"@ {
                Opt::EnableShell
            } else if s == "disable-shell"@ {
                Opt::DisableShell
            } else if s == "enable-delete"@ {
                Opt::EnableDelete
            } else if s == "disable-delete"@ {
                Opt::DisableDelete
            } else if s == "enable-refresh"@ {
                Opt::EnableRefresh
            } else if s == "disable-refresh"@ {
                Opt::DisableRefresh
            } else if s == "si"@ {
                Opt::Si
            } else if s == "apparent-size"@ {
                Opt::ApparentSize
            } else if s == "show-hidden"@ {
                Opt::ShowHidden
            } else if s == "hide-hidden"@ {
                Opt::HideHidden
            } else if s == "show-itemcount"@ {
                Opt::ShowItemcount
            } else if s == "hide-itemcount"@ {
                Opt::HideItemcount
            } else if s == "show-mtime"@ {
                Opt::ShowMtime
            } else if s == "hide-mtime"@ {
                Opt::HideMtime
            } else if s == "show-graph"@ {
                Opt::ShowGraph
            } else if s == "hide-graph"@ {
                Opt::HideGraph
            } else if s == "show-percent"@ {
                Opt::ShowPercent
            } else if s == "hide-percent"@ {
                Opt::HidePercent
            } else if s == "graph-style"@ {
                Opt::GraphStyle
            } else if s == "shared-column"@ {
                Opt::SharedColumn
            } else if s == "sort"@ {
                Opt::Sort
            } else if s == "enable-natsort"@ {
                Opt::EnableNatsort
            } else if s == "disable-natsort"@ {
                Opt::DisableNatsort
            } else if s == "group-directories-first"@ {
                Opt::GroupDirsFirst
            } else if s == "no-group-directories-first"@ {
                Opt::NoGroupDirsFirst
            } else if s == "confirm-quit"@ {
                Opt::ConfirmQuit
            } else if s == "no-confirm-quit"@ {
                Opt::NoConfirmQuit
            } else if s == "confirm-delete"@ {
                Opt::ConfirmDelete
            } else if s == "no-confirm-delete"@ {
                Opt::NoConfirmDelete
            } else if s == "delete-command"@ {
                Opt::DeleteCommand
            } else if s == "color"@ {
                Opt::Color
            } else if s == "icons"@ {
                Opt::Icons
            } else if s == "log-file"@ {
                Opt::LogFile
            } else {
                Opt::Unknown
            }
        },
        CliArgV::Value(_) => Opt::Positional,
    }
}

/// The option a token names.
pub fn classify_arg(a: &CliArg) -> (r: Opt)
    ensures
        r == classify_spec(a@),
{
    match a {
        CliArg::Short(c) => {
            let c = *c;
            if c == 'h' {
                Opt::Help
            } else if c == 'v' || c == 'V' {
                Opt::Version
            } else if c == 'f' {
                Opt::Import
            } else if c == 'o' {
                Opt::ExportJson
            } else if c == 'O' {
                Opt::ExportBin
            } else if c == 'e' {
                Opt::Extended
            } else if c == 'x' {
                Opt::OneFileSystem
            } else if c == 'X' {
                Opt::ExcludeFrom
            } else if c == 'L' {
                Opt::FollowSymlinks
            } else if c == 't' {
                Opt::Threads
            } else if c == 'c' {
                Opt::Compress
            } else if c == '0' {
                Opt::Silent
            } else if c == '1' {
                Opt::LineProgress
            } else if c == '2' {
                Opt::FullscreenProgress
            } else if c == 'q' {
                Opt::SlowUpdates
            } else if c == 'r' {
                Opt::ReadOnly
            } else {
                Opt::Unknown
            }
        },
        CliArg::Long(s) => {
            if same_text(s, "help") {
                Opt::Help
            } else if same_text(s, "version") {
                Opt::Version
            } else if same_text(s, "import") {
                Opt::Import
            } else if same_text(s, "export-json") {
                Opt::ExportJson
            } else if same_text(s, "export-bin") {
                Opt::ExportBin
            } else if same_text(s, "extended") {
                Opt::Extended
            } else if same_text(s, "ignore-config") {
                Opt::IgnoreConfig
            } else if same_text(s, "one-file-system") {
                Opt::OneFileSystem
            } else if same_text(s, "cross-file-system") {
                Opt::CrossFileSystem
            } else if same_text(s, "exclude") {
                Opt::Exclude
            } else if same_text(s, "exclude-from") {
                Opt::ExcludeFrom
            } else if same_text(s, "exclude-caches") {
                Opt::ExcludeCaches
            } else if same_text(s, "include-caches") {
                Opt::IncludeCaches
            } else if same_text(s, "exclude-kernfs") {
                Opt::ExcludeKernfs
            } else if same_text(s, "include-kernfs") {
                Opt::IncludeKernfs
            } else if same_text(s, "follow-symlinks") {
                Opt::FollowSymlinks
            } else if same_text(s, "no-follow-symlinks") {
                Opt::NoFollowSymlinks
            } else if same_text(s, "threads") {
                Opt::Threads
            } else if same_text(s, "compress") {
                Opt::Compress
            } else if same_text(s, "no-compress") {
                Opt::NoCompress
            } else if same_text(s, "compress-level") {
                Opt::CompressLevel
            } else if same_text(s, "export-block-size") {
                Opt::ExportBlockSize
            } else if same_text(s, "silent") {
                Opt::Silent
            } else if same_text(s, "line-progress") {
                Opt::LineProgress
            } else if same_text(s, "fullscreen-progress") {
                Opt::FullscreenProgress
            } else if same_text(s, "slow-ui-updates") {
                Opt::SlowUpdates
            } else if same_text(s, "fast-ui-updates") {
                Opt::FastUpdates
            } else if same_text(s, "enable-shell") {
                Opt::EnableShell
            } else if same_text(s, "disable-shell") {
                Opt::DisableShell
            } else if same_text(s, "enable-delete") {
                Opt::EnableDelete
            } else if same_text(s, "disable-delete") {
                Opt::DisableDelete
            } else if same_text(s, "enable-refresh") {
                Opt::EnableRefresh
            } else if same_text(s, "disable-refresh") {
                Opt::DisableRefresh
            } else if same_text(s, "si") {
                Opt::Si
            } else if same_text(s, "apparent-size") {
                Opt::ApparentSize
            } else if same_text(s, "show-hidden") {
                Opt::ShowHidden
            } else if same_text(s, "hide-hidden") {
                Opt::HideHidden
            } else if same_text(s, "show-itemcount") {
                Opt::ShowItemcount
            } else if same_text(s, "hide-itemcount") {
                Opt::HideItemcount
            } else if same_text(s, "show-mtime") {
                Opt::ShowMtime
            } else if same_text(s, "hide-mtime") {
                Opt::HideMtime
            } else if same_text(s, "show-graph") {
                Opt::ShowGraph
            } else if same_text(s, "hide-graph") {
                Opt::HideGraph
            } else if same_text(s, "show-percent") {
                Opt::ShowPercent
            } else if same_text(s, "hide-percent") {
                Opt::HidePercent
            } else if same_text(s, "graph-style") {
                Opt::GraphStyle
            } else if same_text(s, "shared-column") {
                Opt::SharedColumn
            } else if same_text(s, "sort") {
                Opt::Sort
            } else if same_text(s, "enable-natsort") {
                Opt::EnableNatsort
            } else if same_text(s, "disable-natsort") {
                Opt::DisableNatsort
            } else if same_text(s, "group-directories-first") {
                Opt::GroupDirsFirst
            } else if same_text(s, "no-group-directories-first") {
                Opt::NoGroupDirsFirst
            } else if same_text(s, "confirm-quit") {
                Opt::ConfirmQuit
            } else if same_text(s, "no-confirm-quit") {
                Opt::NoConfirmQuit
            } else if same_text(s, "confirm-delete") {
                Opt::ConfirmDelete
            } else if same_text(s, "no-confirm-delete") {
                Opt::NoConfirmDelete
            } else if same_text(s, "delete-command") {
                Opt::DeleteCommand
            } else if same_text(s, "color") {
                Opt::Color
            } else if same_text(s, "icons") {
                Opt::Icons
            } else if same_text(s, "log-file") {
                Opt::LogFile
            } else {
                Opt::Unknown
            }
        },
        CliArg::Value(_) => Opt::Positional,
    }
}

/// What an option does to the options read so far. Flags are numbered in
/// the order of the fields of `Args`; 44 stands for no flag.
#[derive(Clone, Copy, Debug, PartialEq, Eq, Structural)]
pub enum Effect {
    /// Turns the first flag on and the other two off.
    Flags(u8, u8, u8),
    /// Stores the value as optional text number `i`: import file, JSON
    /// export, binary export, exclusion file, delete command, log file.
    OptText(u8),
    /// Stores the value as text number `i`: graph style, shared column,
    /// sort, colour scheme.
    Text(u8),
    /// Adds the value to the exclusion patterns.
    Exclude,
    /// Stores the number the value spells as size number `i`: threads,
    /// export block size.
    Size(u8),
    /// Stores the number the value spells as the compression level.
    Level,
    /// Counts one more `-r`.
    ReadOnly,
    /// Nothing.
    Nothing,
}

/// The effect of each option.
pub open spec fn effect_spec(o: Opt) -> Effect {
    match o {
        Opt::Import => Effect::OptText(0),
        Opt::ExportJson => Effect::OptText(1),
        Opt::ExportBin => Effect::OptText(2),
        Opt::Extended => Effect::Flags(0, 44, 44),
        Opt::IgnoreConfig => Effect::Flags(1, 44, 44),
        Opt::OneFileSystem => Effect::Flags(2, 3, 44),
        Opt::CrossFileSystem => Effect::Flags(3, 2, 44),
        Opt::Exclude => Effect::Exclude,
        Opt::ExcludeFrom => Effect::OptText(3),
        Opt::ExcludeCaches => Effect::Flags(4, 5, 44),
        Opt::IncludeCaches => Effect::Flags(5, 4, 44),
        Opt::ExcludeKernfs => Effect::Flags(6, 7, 44),
        Opt::IncludeKernfs => Effect::Flags(7, 6, 44),
        Opt::FollowSymlinks => Effect::Flags(8, 9, 44),
        Opt::NoFollowSymlinks => Effect::Flags(9, 8, 44),
        Opt::Threads => Effect::Size(0),
        Opt::Compress => Effect::Flags(10, 11, 44),
        Opt::NoCompress => Effect::Flags(11, 10, 44),
        Opt::CompressLevel => Effect::Level,
        Opt::ExportBlockSize => Effect::Size(1),
        Opt::Silent => Effect::Flags(12, 13, 14),
        Opt::LineProgress => Effect::Flags(13, 12, 14),
        Opt::FullscreenProgress => Effect::Flags(14, 12, 13),
        Opt::SlowUpdates => Effect::Flags(15, 16, 44),
        Opt::FastUpdates => Effect::Flags(16, 15, 44),
        Opt::ReadOnly => Effect::ReadOnly,
        Opt::EnableShell => Effect::Flags(17, 18, 44),
        Opt::DisableShell => Effect::Flags(18, 17, 44),
        Opt::EnableDelete => Effect::Flags(19, 20, 44),
        Opt::DisableDelete => Effect::Flags(20, 19, 44),
        Opt::EnableRefresh => Effect::Flags(21, 22, 44),
        Opt::DisableRefresh => Effect::Flags(22, 21, 44),
        Opt::Si => Effect::Flags(23, 44, 44),
        Opt::ApparentSize => Effect::Flags(24, 44, 44),
        Opt::ShowHidden => Effect::Flags(25, 26, 44),
        Opt::HideHidden => Effect::Flags(26, 25, 44),
        Opt::ShowItemcount => Effect::Flags(27, 28, 44),
        Opt::HideItemcount => Effect::Flags(28, 27, 44),
        Opt::ShowMtime => Effect::Flags(29, 30, 44),
        Opt::HideMtime => Effect::Flags(30, 29, 44),
        Opt::ShowGraph => Effect::Flags(31, 32, 44),
        Opt::HideGraph => Effect::Flags(32, 31, 44),
        Opt::ShowPercent => Effect::Flags(33, 34, 44),
        Opt::HidePercent => Effect::Flags(34, 33, 44),
        Opt::GraphStyle => Effect::Text(0),
        Opt::SharedColumn => Effect::Text(1),
        Opt::Sort => Effect::Text(2),
        Opt::EnableNatsort => Effect::Flags(35, 36, 44),
        Opt::DisableNatsort => Effect::Flags(36, 35, 44),
        Opt::GroupDirsFirst => Effect::Flags(37, 38, 44),
        Opt::NoGroupDirsFirst => Effect::Flags(38, 37, 44),
        Opt::ConfirmQuit => Effect::Flags(39, 40, 44),
        Opt::NoConfirmQuit => Effect::Flags(40, 39, 44),
        Opt::ConfirmDelete => Effect::Flags(41, 42, 44),
        Opt::NoConfirmDelete => Effect::Flags(42, 41, 44),
        Opt::DeleteCommand => Effect::OptText(4),
        Opt::Color => Effect::Text(3),
        Opt::Icons => Effect::Flags(43, 44, 44),
        Opt::LogFile => Effect::OptText(5),
        _ => Effect::Nothing,
    }
}

/// The effect of an option.
pub fn effect_of(o: Opt) -> (r: Effect)
    ensures
        r == effect_spec(o),
{
    match o {
        Opt::Import => Effect::OptText(0),
        Opt::ExportJson => Effect::OptText(1),
        Opt::ExportBin => Effect::OptText(2),
        Opt::Extended => Effect::Flags(0, 44, 44),
        Opt::IgnoreConfig => Effect::Flags(1, 44, 44),
        Opt::OneFileSystem => Effect::Flags(2, 3, 44),
        Opt::CrossFileSystem => Effect::Flags(3, 2, 44),
        Opt::Exclude => Effect::Exclude,
        Opt::ExcludeFrom => Effect::OptText(3),
        Opt::ExcludeCaches => Effect::Flags(4, 5, 44),
        Opt::IncludeCaches => Effect::Flags(5, 4, 44),
        Opt::ExcludeKernfs => Effect::Flags(6, 7, 44),
        Opt::IncludeKernfs => Effect::Flags(7, 6, 44),
        Opt::FollowSymlinks => Effect::Flags(8, 9, 44),
        Opt::NoFollowSymlinks => Effect::Flags(9, 8, 44),
        Opt::Threads => Effect::Size(0),
        Opt::Compress => Effect::Flags(10, 11, 44),
        Opt::NoCompress => Effect::Flags(11, 10, 44),
        Opt::CompressLevel => Effect::Level,
        Opt::ExportBlockSize => Effect::Size(1),
        Opt::Silent => Effect::Flags(12, 13, 14),
        Opt::LineProgress => Effect::Flags(13, 12, 14),
        Opt::FullscreenProgress => Effect::Flags(14, 12, 13),
        Opt::SlowUpdates => Effect::Flags(15, 16, 44),
        Opt::FastUpdates => Effect::Flags(16, 15, 44),
        Opt::ReadOnly => Effect::ReadOnly,
        Opt::EnableShell => Effect::Flags(17, 18, 44),
        Opt::DisableShell => Effect::Flags(18, 17, 44),
        Opt::EnableDelete => Effect::Flags(19, 20, 44),
        Opt::DisableDelete => Effect::Flags(20, 19, 44),
        Opt::EnableRefresh => Effect::Flags(21, 22, 44),
        Opt::DisableRefresh => Effect::Flags(22, 21, 44),
        Opt::Si => Effect::Flags(23, 44, 44),
        Opt::ApparentSize => Effect::Flags(24, 44, 44),
        Opt::ShowHidden => Effect::Flags(25, 26, 44),
        Opt::HideHidden => Effect::Flags(26, 25, 44),
        Opt::ShowItemcount => Effect::Flags(27, 28, 44),
        Opt::HideItemcount => Effect::Flags(28, 27, 44),
        Opt::ShowMtime => Effect::Flags(29, 30, 44),
        Opt::HideMtime => Effect::Flags(30, 29, 44),
        Opt::ShowGraph => Effect::Flags(31, 32, 44),
        Opt::HideGraph => Effect::Flags(32, 31, 44),
        Opt::ShowPercent => Effect::Flags(33, 34, 44),
        Opt::HidePercent => Effect::Flags(34, 33, 44),
        Opt::GraphStyle => Effect::Text(0),
        Opt::SharedColumn => Effect::Text(1),
        Opt::Sort => Effect::Text(2),
        Opt::EnableNatsort => Effect::Flags(35, 36, 44),
        Opt::DisableNatsort => Effect::Flags(36, 35, 44),
        Opt::GroupDirsFirst => Effect::Flags(37, 38, 44),
        Opt::NoGroupDirsFirst => Effect::Flags(38, 37, 44),
        Opt::ConfirmQuit => Effect::Flags(39, 40, 44),
        Opt::NoConfirmQuit => Effect::Flags(40, 39, 44),
        Opt::ConfirmDelete => Effect::Flags(41, 42, 44),
        Opt::NoConfirmDelete => Effect::Flags(42, 41, 44),
        Opt::DeleteCommand => Effect::OptText(4),
        Opt::Color => Effect::Text(3),
        Opt::Icons => Effect::Flags(43, 44, 44),
        Opt::LogFile => Effect::OptText(5),
        _ => Effect::Nothing,
    }
}

/// Whether the option takes a value.
pub open spec fn takes_value_spec(o: Opt) -> bool {
    match o {
        Opt::Import => true,
        Opt::ExportJson => true,
        Opt::ExportBin => true,
        Opt::Exclude => true,
        Opt::ExcludeFrom => true,
        Opt::Threads => true,
        Opt::CompressLevel => true,
        Opt::ExportBlockSize => true,
        Opt::GraphStyle => true,
        Opt::SharedColumn => true,
        Opt::Sort => true,
        Opt::DeleteCommand => true,
        Opt::Color => true,
        Opt::LogFile => true,
        _ => false,
    }
}

/// Whether the option takes a value.
pub fn takes_value(o: Opt) -> (r: bool)
    ensures
        r == takes_value_spec(o),
{
    match o {
        Opt::Import => true,
        Opt::ExportJson => true,
        Opt::ExportBin => true,
        Opt::Exclude => true,
        Opt::ExcludeFrom => true,
        Opt::Threads => true,
        Opt::CompressLevel => true,
        Opt::ExportBlockSize => true,
        Opt::GraphStyle => true,
        Opt::SharedColumn => true,
        Opt::Sort => true,
        Opt::DeleteCommand => true,
        Opt::Color => true,
        Opt::LogFile => true,
        _ => false,
    }
}

/// The options read so far, grouped by kind: the flags (numbered as in
/// `Effect`), the optional texts, the texts, the exclusion patterns, the
/// sizes, the compression level and the count of `-r`.
#[derive(Debug)]
pub struct ParseState {
    pub path: Option<String>,
    pub flags: Vec<bool>,
    pub opt_texts: Vec<Option<String>>,
    pub texts: Vec<String>,
    pub exclude: Vec<String>,
    pub sizes: Vec<Option<usize>>,
    pub compress_level: Option<i32>,
    pub read_only: u8,
}

/// Every group of a parse state has its number of entries.
pub open spec fn state_wf(s: ParseState) -> bool {
    &&& s.flags@.len() == 44
    &&& s.opt_texts@.len() == 6
    &&& s.texts@.len() == 4
    &&& s.sizes@.len() == 2
}

/// The state before any argument is read.
fn initial_state() -> (s: ParseState)
    ensures
        state_wf(s),
        forall|a: Args| args_of(s, a) ==> is_default_args(a),
        s.path is None,
        flags_exclusive(s.flags@),
        is_initial(s),
{
    let mut flags: Vec<bool> = Vec::new();
    let mut i: usize = 0;
    while i < 44
        invariant
            i <= 44,
            flags@.len() == i,
            forall|k: int| 0 <= k < i ==> !flags@[k],
        decreases 44 - i,
    {
        flags.push(false);
        i = i + 1;
    }
    let mut opt_texts: Vec<Option<String>> = Vec::new();
    let mut j: usize = 0;
    while j < 6
        invariant
            j <= 6,
            opt_texts@.len() == j,
            forall|k: int| 0 <= k < j ==> opt_texts@[k] is None,
        decreases 6 - j,
    {
        opt_texts.push(None);
        j = j + 1;
    }
    let mut texts: Vec<String> = Vec::new();
    texts.push("hash".to_owned());
    texts.push("shared".to_owned());
    texts.push("disk-usage".to_owned());
    texts.push("off".to_owned());
    let mut sizes: Vec<Option<usize>> = Vec::new();
    sizes.push(None);
    sizes.push(None);
    ParseState {
        path: None,
        flags,
        opt_texts,
        texts,
        exclude: Vec::new(),
        sizes,
        compress_level: None,
        read_only: 0,
    }
}

/// The flags after turning `on` on and `x`, `y` off (an index past the
/// flags names none).
pub open spec fn flags_after(f: Seq<bool>, on: int, x: int, y: int) -> Seq<bool> {
    Seq::new(
        f.len(),
        |k: int|
            if k == on {
                true
            } else if k == x || k == y {
                false
            } else {
                f[k]
            },
    )
}

/// Whether the value `val` is acceptable for an effect: a numeric one needs
/// a decimal number that fits its type.
pub open spec fn value_ok(e: Effect, val: Seq<char>) -> bool {
    match e {
        Effect::Size(_) => decimal_of(val, false) matches Some(n) && n <= usize::MAX,
        Effect::Level => decimal_of(val, true) matches Some(n) && i32::MIN <= n <= i32::MAX,
        _ => true,
    }
}

/// `n` is what the effect `e` with the value `val` (empty for an option
/// that takes none) makes of the state `s`, the value being acceptable.
pub open spec fn applied(s: ParseState, e: Effect, val: String, n: ParseState) -> bool {
    match e {
        Effect::Flags(on, x, y) => n == (ParseState { flags: n.flags, ..s }) && n.flags@
            == flags_after(s.flags@, on as int, x as int, y as int),
        Effect::OptText(i) => n == (ParseState { opt_texts: n.opt_texts, ..s }) && n.opt_texts@
            == s.opt_texts@.update(i as int, Some(val)),
        Effect::Text(i) => n == (ParseState { texts: n.texts, ..s }) && n.texts@ == s.texts@.update(
            i as int,
            val,
        ),
        Effect::Exclude => n == (ParseState { exclude: n.exclude, ..s }) && n.exclude@
            == s.exclude@.push(val),
        Effect::Size(i) => n == (ParseState { sizes: n.sizes, ..s }) && n.sizes@ == s.sizes@.update(
            i as int,
            Some(decimal_of(val@, false).unwrap() as usize),
        ),
        Effect::Level => n == (ParseState {
            compress_level: Some(decimal_of(val@, true).unwrap() as i32),
            ..s
        }),
        Effect::ReadOnly => n == (ParseState { read_only: ((s.read_only + 1) % 256) as u8, ..s }),
        Effect::Nothing => n == s,
    }
}

/// Applies an effect with its value `val`; fails, changing nothing, when
/// the value of a numeric option does not parse.
pub fn apply_effect(s: &mut ParseState, e: Effect, val: String) -> (r: Result<(), CliError>)
    requires
        state_wf(*old(s)),
        e matches Effect::OptText(i) ==> i < 6,
        e matches Effect::Text(i) ==> i < 4,
        e matches Effect::Size(i) ==> i < 2,
        e matches Effect::Flags(on, _, _) ==> on < 44,
    ensures
        state_wf(*final(s)),
        value_ok(e, val@) ==> r is Ok && applied(*old(s), e, val, *final(s)),
        !value_ok(e, val@) ==> (r matches Err(CliError::Lexopt(LexError::ParsingFailed(v, _)))
            && v@ == val@ && *final(s) == *old(s)),
{
    match e {
        Effect::Flags(on, x, y) => {
            let ghost f0 = s.flags@;
            if (x as usize) < s.flags.len() {
                s.flags.set(x as usize, false);
            }
            if (y as usize) < s.flags.len() {
                s.flags.set(y as usize, false);
            }
            s.flags.set(on as usize, true);
            assert(s.flags@ =~= flags_after(f0, on as int, x as int, y as int));
        },
        Effect::OptText(i) => {
            s.opt_texts.set(i as usize, Some(val));
        },
        Effect::Text(i) => {
            s.texts.set(i as usize, val);
        },
        Effect::Exclude => {
            s.exclude.push(val);
        },
        Effect::Size(i) => {
            match parse_usize(&val) {
                Ok(n) => {
                    s.sizes.set(i as usize, Some(n));
                },
                Err(why) => {
                    return Err(CliError::Lexopt(LexError::ParsingFailed(val, why)));
                },
            }
        },
        Effect::Level => {
            match parse_i32(&val) {
                Ok(n) => {
                    s.compress_level = Some(n);
                },
                Err(why) => {
                    return Err(CliError::Lexopt(LexError::ParsingFailed(val, why)));
                },
            }
        },
        Effect::ReadOnly => {
            s.read_only = s.read_only.wrapping_add(1);
        },
        Effect::Nothing => {},
    }
    Ok(())
}

/// Every effect of an option names flags, texts and sizes that exist, and
/// turns off every opposite of the flag it turns on.
pub proof fn lemma_effect_table(o: Opt)
    ensures
        effect_spec(o) matches Effect::OptText(i) ==> i < 6,
        effect_spec(o) matches Effect::Text(i) ==> i < 4,
        effect_spec(o) matches Effect::Size(i) ==> i < 2,
        effect_spec(o) matches Effect::Flags(on, x, y) ==> on < 44 && effect_closed(
            on as int,
            x as int,
            y as int,
        ),
{
}

/// Applying an option never turns on a flag together with its opposite.
pub proof fn lemma_apply_keeps_exclusive(f: Seq<bool>, on: int, x: int, y: int)
    requires
        flags_exclusive(f),
        f.len() == 44,
        0 <= on < 44,
        effect_closed(on, x, y),
    ensures
        flags_exclusive(flags_after(f, on, x, y)),
{
}

/// The path plays no part in applying an option.
pub proof fn lemma_apply_path(s: ParseState, e: Effect, val: String, n: ParseState, p: Option<String>)
    requires
        applied(s, e, val, n),
    ensures
        n.path == s.path,
        applied(ParseState { path: p, ..s }, e, val, ParseState { path: p, ..n }),
{
}

/// `states` is a run of the options `trace` from the initial state, paths
/// aside: each state is what the option before it makes of the previous one.
pub open spec fn is_run(trace: Seq<(Opt, String)>, states: Seq<ParseState>) -> bool {
    &&& states.len() == trace.len() + 1
    &&& forall|a: Args| args_of(states[0], a) ==> is_default_args(a)
    &&& states[0].path is None
    &&& forall|i: int|
        0 <= i < trace.len() ==> applied(
            states[i],
            effect_spec((#[trigger] trace[i]).0),
            trace[i].1,
            states[i + 1],
        )
}

/// A run extended by one more option is a run.
proof fn lemma_run_step(trace: Seq<(Opt, String)>, states: Seq<ParseState>, o: Opt, v: String, n: ParseState)
    requires
        is_run(trace, states),
        applied(states.last(), effect_spec(o), v, n),
    ensures
        is_run(trace.push((o, v)), states.push(n)),
{
    let t2 = trace.push((o, v));
    let s2 = states.push(n);
    assert forall|i: int| 0 <= i < t2.len() implies applied(
        s2[i],
        effect_spec((#[trigger] t2[i]).0),
        t2[i].1,
        s2[i + 1],
    ) by {
        if i < trace.len() {
            assert(t2[i] == trace[i]);
        }
    }
}
/// No two opposite flags are on together, and at most one progress mode is.
pub open spec fn flags_exclusive(f: Seq<bool>) -> bool {
    &&& !(f[3] && f[2])
    &&& !(f[4] && f[5])
    &&& !(f[6] && f[7])
    &&& !(f[8] && f[9])
    &&& !(f[10] && f[11])
    &&& !(f[13] && f[12])
    &&& !(f[14] && f[12])
    &&& !(f[14] && f[13])
    &&& !(f[16] && f[15])
    &&& !(f[18] && f[17])
    &&& !(f[20] && f[19])
    &&& !(f[22] && f[21])
    &&& !(f[26] && f[25])
    &&& !(f[28] && f[27])
    &&& !(f[30] && f[29])
    &&& !(f[32] && f[31])
    &&& !(f[34] && f[33])
    &&& !(f[36] && f[35])
    &&& !(f[37] && f[38])
    &&& !(f[39] && f[40])
    &&& !(f[41] && f[42])
}

/// Turning `on` on and `x`, `y` off keeps every pair of opposite flags
/// exclusive: each opposite of `on` is among `x` and `y`.
pub open spec fn effect_closed(on: int, x: int, y: int) -> bool {
    &&& (on == 3 ==> x == 2 || y == 2)
    &&& (on == 2 ==> x == 3 || y == 3)
    &&& (on == 4 ==> x == 5 || y == 5)
    &&& (on == 5 ==> x == 4 || y == 4)
    &&& (on == 6 ==> x == 7 || y == 7)
    &&& (on == 7 ==> x == 6 || y == 6)
    &&& (on == 8 ==> x == 9 || y == 9)
    &&& (on == 9 ==> x == 8 || y == 8)
    &&& (on == 10 ==> x == 11 || y == 11)
    &&& (on == 11 ==> x == 10 || y == 10)
    &&& (on == 13 ==> x == 12 || y == 12)
    &&& (on == 12 ==> x == 13 || y == 13)
    &&& (on == 14 ==> x == 12 || y == 12)
    &&& (on == 12 ==> x == 14 || y == 14)
    &&& (on == 14 ==> x == 13 || y == 13)
    &&& (on == 13 ==> x == 14 || y == 14)
    &&& (on == 16 ==> x == 15 || y == 15)
    &&& (on == 15 ==> x == 16 || y == 16)
    &&& (on == 18 ==> x == 17 || y == 17)
    &&& (on == 17 ==> x == 18 || y == 18)
    &&& (on == 20 ==> x == 19 || y == 19)
    &&& (on == 19 ==> x == 20 || y == 20)
    &&& (on == 22 ==> x == 21 || y == 21)
    &&& (on == 21 ==> x == 22 || y == 22)
    &&& (on == 26 ==> x == 25 || y == 25)
    &&& (on == 25 ==> x == 26 || y == 26)
    &&& (on == 28 ==> x == 27 || y == 27)
    &&& (on == 27 ==> x == 28 || y == 28)
    &&& (on == 30 ==> x == 29 || y == 29)
    &&& (on == 29 ==> x == 30 || y == 30)
    &&& (on == 32 ==> x == 31 || y == 31)
    &&& (on == 31 ==> x == 32 || y == 32)
    &&& (on == 34 ==> x == 33 || y == 33)
    &&& (on == 33 ==> x == 34 || y == 34)
    &&& (on == 36 ==> x == 35 || y == 35)
    &&& (on == 35 ==> x == 36 || y == 36)
    &&& (on == 37 ==> x == 38 || y == 38)
    &&& (on == 38 ==> x == 37 || y == 37)
    &&& (on == 39 ==> x == 40 || y == 40)
    &&& (on == 40 ==> x == 39 || y == 39)
    &&& (on == 41 ==> x == 42 || y == 42)
    &&& (on == 42 ==> x == 41 || y == 41)
}

/// `a` holds what the parse state `s` records.
pub open spec fn args_of(s: ParseState, a: Args) -> bool {
    &&& a.path == s.path
    &&& a.import_file == s.opt_texts@[0]
    &&& a.export_json == s.opt_texts@[1]
    &&& a.export_bin == s.opt_texts@[2]
    &&& a.extended == s.flags@[0]
    &&& a.ignore_config == s.flags@[1]
    &&& a.one_file_system == s.flags@[2]
    &&& a.cross_file_system == s.flags@[3]
    &&& a.exclude == s.exclude
    &&& a.exclude_from == s.opt_texts@[3]
    &&& a.exclude_caches == s.flags@[4]
    &&& a.include_caches == s.flags@[5]
    &&& a.exclude_kernfs == s.flags@[6]
    &&& a.include_kernfs == s.flags@[7]
    &&& a.follow_symlinks == s.flags@[8]
    &&& a.no_follow_symlinks == s.flags@[9]
    &&& a.threads == s.sizes@[0]
    &&& a.compress == s.flags@[10]
    &&& a.no_compress == s.flags@[11]
    &&& a.compress_level == s.compress_level
    &&& a.export_block_size == s.sizes@[1]
    &&& a.silent == s.flags@[12]
    &&& a.line_progress == s.flags@[13]
    &&& a.fullscreen_progress == s.flags@[14]
    &&& a.slow_updates == s.flags@[15]
    &&& a.fast_ui_updates == s.flags@[16]
    &&& a.read_only == s.read_only
    &&& a.enable_shell == s.flags@[17]
    &&& a.disable_shell == s.flags@[18]
    &&& a.enable_delete == s.flags@[19]
    &&& a.disable_delete == s.flags@[20]
    &&& a.enable_refresh == s.flags@[21]
    &&& a.disable_refresh == s.flags@[22]
    &&& a.si == s.flags@[23]
    &&& a.apparent_size == s.flags@[24]
    &&& a.show_hidden == s.flags@[25]
    &&& a.hide_hidden == s.flags@[26]
    &&& a.show_itemcount == s.flags@[27]
    &&& a.hide_itemcount == s.flags@[28]
    &&& a.show_mtime == s.flags@[29]
    &&& a.hide_mtime == s.flags@[30]
    &&& a.show_graph == s.flags@[31]
    &&& a.hide_graph == s.flags@[32]
    &&& a.show_percent == s.flags@[33]
    &&& a.hide_percent == s.flags@[34]
    &&& a.graph_style == s.texts@[0]
    &&& a.shared_column == s.texts@[1]
    &&& a.sort == s.texts@[2]
    &&& a.enable_natsort == s.flags@[35]
    &&& a.disable_natsort == s.flags@[36]
    &&& a.group_directories_first == s.flags@[37]
    &&& a.no_group_directories_first == s.flags@[38]
    &&& a.confirm_quit == s.flags@[39]
    &&& a.no_confirm_quit == s.flags@[40]
    &&& a.confirm_delete == s.flags@[41]
    &&& a.no_confirm_delete == s.flags@[42]
    &&& a.delete_command == s.opt_texts@[4]
    &&& a.color == s.texts@[3]
    &&& a.icons == s.flags@[43]
    &&& a.log_file == s.opt_texts@[5]
}

/// The options that the parse state `s` records.
fn into_args(s: ParseState) -> (a: Args)
    requires
        state_wf(s),
    ensures
        args_of(s, a),
{
    let ghost g = s;
    let ParseState { path, flags, opt_texts, texts, exclude, sizes, compress_level, read_only } = s;
    let mut ot = opt_texts;
    let mut tx = texts;
    let import_file = ot.remove(0);
    assert(import_file == g.opt_texts@[0]);
    let export_json = ot.remove(0);
    assert(export_json == g.opt_texts@[1]);
    let export_bin = ot.remove(0);
    assert(export_bin == g.opt_texts@[2]);
    let exclude_from = ot.remove(0);
    assert(exclude_from == g.opt_texts@[3]);
    let delete_command = ot.remove(0);
    assert(delete_command == g.opt_texts@[4]);
    let log_file = ot.remove(0);
    assert(log_file == g.opt_texts@[5]);
    let graph_style = tx.remove(0);
    assert(graph_style == g.texts@[0]);
    let shared_column = tx.remove(0);
    assert(shared_column == g.texts@[1]);
    let sort = tx.remove(0);
    assert(sort == g.texts@[2]);
    let color = tx.remove(0);
    assert(color == g.texts@[3]);
    Args {
        path,
        import_file,
        export_json,
        export_bin,
        extended: flags[0],
        ignore_config: flags[1],
        one_file_system: flags[2],
        cross_file_system: flags[3],
        exclude,
        exclude_from,
        exclude_caches: flags[4],
        include_caches: flags[5],
        exclude_kernfs: flags[6],
        include_kernfs: flags[7],
        follow_symlinks: flags[8],
        no_follow_symlinks: flags[9],
        threads: sizes[0],
        compress: flags[10],
        no_compress: flags[11],
        compress_level,
        export_block_size: sizes[1],
        silent: flags[12],
        line_progress: flags[13],
        fullscreen_progress: flags[14],
        slow_updates: flags[15],
        fast_ui_updates: flags[16],
        read_only,
        enable_shell: flags[17],
        disable_shell: flags[18],
        enable_delete: flags[19],
        disable_delete: flags[20],
        enable_refresh: flags[21],
        disable_refresh: flags[22],
        si: flags[23],
        apparent_size: flags[24],
        show_hidden: flags[25],
        hide_hidden: flags[26],
        show_itemcount: flags[27],
        hide_itemcount: flags[28],
        show_mtime: flags[29],
        hide_mtime: flags[30],
        show_graph: flags[31],
        hide_graph: flags[32],
        show_percent: flags[33],
        hide_percent: flags[34],
        graph_style,
        shared_column,
        sort,
        enable_natsort: flags[35],
        disable_natsort: flags[36],
        group_directories_first: flags[37],
        no_group_directories_first: flags[38],
        confirm_quit: flags[39],
        no_confirm_quit: flags[40],
        confirm_delete: flags[41],
        no_confirm_delete: flags[42],
        delete_command,
        color,
        icons: flags[43],
        log_file,
    }
}

/// The value of the decimal digits `s`.
pub open spec fn digits_value(s: Seq<char>) -> int
    decreases s.len(),
{
    if s.len() == 0 {
        0
    } else {
        digits_value(s.drop_last()) * 10 + (s.last() as int - '0' as int)
    }
}

/// `s` is one or more ASCII decimal digits.
pub open spec fn all_digits(s: Seq<char>) -> bool {
    s.len() > 0 && forall|i: int| 0 <= i < s.len() ==> '0' <= #[trigger] s[i] <= '9'
}

/// The integer that `s` spells in decimal: an optional `+` (or `-` when
/// `signed`) followed by one or more ASCII digits, nothing else.
pub open spec fn decimal_of(s: Seq<char>, signed: bool) -> Option<int> {
    if s.len() > 0 && s[0] == '+' && all_digits(s.drop_first()) {
        Some(digits_value(s.drop_first()))
    } else if signed && s.len() > 0 && s[0] == '-' && all_digits(s.drop_first()) {
        Some(-digits_value(s.drop_first()))
    } else if all_digits(s) {
        Some(digits_value(s))
    } else {
        None
    }
}

/// Calls `str::parse::<usize>`. Claims what its documentation states: the
/// text must be an optional `+` followed by decimal digits, with a value that
/// fits; the error is described by its message.
#[verifier::external_body]
fn parse_usize(s: &String) -> (r: Result<usize, String>)
    ensures
        match decimal_of(s@, false) {
            Some(n) => if n <= usize::MAX {
                r == Ok::<usize, String>(n as usize)
            } else {
                r is Err
            },
            None => r is Err,
        },
{
    s.parse::<usize>().map_err(|e| e.to_string())
}

/// Calls `str::parse::<i32>`. Claims what its documentation states: the
/// text must be an optional `+` or `-` followed by decimal digits, with a
/// value that fits; the error is described by its message.
#[verifier::external_body]
fn parse_i32(s: &String) -> (r: Result<i32, String>)
    ensures
        match decimal_of(s@, true) {
            Some(n) => if i32::MIN <= n <= i32::MAX {
                r == Ok::<i32, String>(n as i32)
            } else {
                r is Err
            },
            None => r is Err,
        },
{
    s.parse::<i32>().map_err(|e| e.to_string())
}

/// No two opposite options are both on in the options a parse state records.
pub open spec fn toggles_exclusive(a: Args) -> bool {
    &&& !(a.one_file_system && a.cross_file_system)
    &&& !(a.exclude_caches && a.include_caches)
    &&& !(a.exclude_kernfs && a.include_kernfs)
    &&& !(a.follow_symlinks && a.no_follow_symlinks)
    &&& !(a.compress && a.no_compress)
    &&& !(a.silent && a.line_progress)
    &&& !(a.silent && a.fullscreen_progress)
    &&& !(a.line_progress && a.fullscreen_progress)
    &&& !(a.slow_updates && a.fast_ui_updates)
    &&& !(a.enable_shell && a.disable_shell)
    &&& !(a.enable_delete && a.disable_delete)
    &&& !(a.enable_refresh && a.disable_refresh)
    &&& !(a.show_hidden && a.hide_hidden)
    &&& !(a.show_itemcount && a.hide_itemcount)
    &&& !(a.show_mtime && a.hide_mtime)
    &&& !(a.show_graph && a.hide_graph)
    &&& !(a.show_percent && a.hide_percent)
    &&& !(a.enable_natsort && a.disable_natsort)
    &&& !(a.group_directories_first && a.no_group_directories_first)
    &&& !(a.confirm_quit && a.no_confirm_quit)
    &&& !(a.confirm_delete && a.no_confirm_delete)
}

/// Exclusive flags in a state give exclusive options.
proof fn lemma_toggles(s: ParseState, a: Args)
    requires
        flags_exclusive(s.flags@),
        args_of(s, a),
    ensures
        toggles_exclusive(a),
{
}

/// The length in bytes of the text `t`, as `str::len` gives it.
pub open spec fn text_len(t: Seq<char>) -> int {
    (encode_utf8(t).len() as usize) as int
}

/// One more than the number of arguments among the first `i` of `args`
/// and of the bytes they hold.
pub open spec fn token_count(args: Seq<Seq<char>>, i: int) -> int
    decreases i,
{
    if i <= 0 {
        1
    } else {
        token_count(args, i - 1) + text_len(args[i - 1]) + 1
    }
}

/// An upper bound on the number of tokens in `argv`: lexopt yields at most
/// one per character or argument. The count saturates at `usize::MAX`.
fn token_bound(argv: &[&str]) -> (r: usize)
    ensures
        r == token_limit(argv_texts(argv@)),
        r >= 1,
{
    let mut total: usize = 1;
    let mut i: usize = 0;
    while i < argv.len()
        invariant
            i <= argv@.len(),
            total >= 1,
            total == (if token_count(argv_texts(argv@), i as int) <= usize::MAX {
                token_count(argv_texts(argv@), i as int)
            } else {
                usize::MAX as int
            }),
        decreases argv@.len() - i,
    {
        let n = argv[i].len();
        assert(argv_texts(argv@)[i as int] == argv@[i as int]@);
        assert(token_count(argv_texts(argv@), i + 1) == token_count(argv_texts(argv@), i as int) + n + 1);
        total = total.saturating_add(n).saturating_add(1);
        i = i + 1;
    }
    total
}

/// Whether `a` is what a command line can parse to: its toggles exclude
/// each other, and some run of options, each applied in order from the
/// defaults, ends in `a`.
pub open spec fn parsed_args(a: Args) -> bool {
    toggles_exclusive(a) && exists|trace: Seq<(Opt, String)>, states: Seq<ParseState>|
        is_run(trace, states) && args_of(ParseState { path: a.path, ..states.last() }, a)
}

/// The state before any argument is read: no path, every flag off, no
/// optional text, the default texts, no exclusion pattern, no size, no
/// compression level and no `-r`.
pub open spec fn is_initial(s: ParseState) -> bool {
    &&& state_wf(s)
    &&& s.path is None
    &&& forall|k: int| 0 <= k < 44 ==> !#[trigger] s.flags@[k]
    &&& forall|k: int| 0 <= k < 6 ==> #[trigger] s.opt_texts@[k] is None
    &&& s.texts@[0]@ == "hash"@
    &&& s.texts@[1]@ == "shared"@
    &&& s.texts@[2]@ == "disk-usage"@
    &&& s.texts@[3]@ == "off"@
    &&& s.exclude@.len() == 0
    &&& s.sizes@[0] is None
    &&& s.sizes@[1] is None
    &&& s.compress_level is None
    &&& s.read_only == 0
}

/// The state `st` with the path `p`.
pub open spec fn with_path(st: ParseState, p: String) -> ParseState {
    ParseState { path: Some(p), ..st }
}

/// The text a positional token carries.
pub open spec fn positional_text(t: CliArgV) -> Seq<char> {
    match t {
        CliArgV::Value(v) => v,
        CliArgV::Short(_) => Seq::empty(),
        CliArgV::Long(l) => l,
    }
}

/// The number of tokens a parse reads at most from `argv`.
pub open spec fn token_limit(args: Seq<Seq<char>>) -> nat {
    if token_count(args, args.len() as int) <= usize::MAX {
        token_count(args, args.len() as int) as nat
    } else {
        usize::MAX as nat
    }
}

/// Whether `r` is what applying the option `o` with the value `v` to the
/// state `st` leads to, the lexer having been called `calls` times and at
/// most `fuel` tokens being left: a value that does not parse fails;
/// otherwise the parse goes on from the state the option makes.
pub open spec fn applies_to(
    args: Seq<Seq<char>>,
    calls: Seq<bool>,
    st: ParseState,
    o: Opt,
    v: Seq<char>,
    fuel: nat,
    r: Result<Args, CliError>,
) -> bool
    decreases fuel, 1nat,
{
    if value_ok(effect_spec(o), v) {
        exists|val: String, n: ParseState|
            #![trigger applied(st, effect_spec(o), val, n)]
            val@ == v && applied(st, effect_spec(o), val, n) && parses_to(args, calls, n, fuel, r)
    } else {
        r matches Err(CliError::Lexopt(LexError::ParsingFailed(x, _))) && x@ == v
    }
}

/// Whether `r` is what reading the command line `args` leads to from the
/// state `st`, after the calls `calls` of the lexer, with at most `fuel`
/// more tokens: each token is classified; help and version stop the parse;
/// an unknown option fails with its debug notation; the first positional
/// argument is the path and a second one fails; any other option reads its
/// value when it takes one and is applied; the end of the arguments (or of
/// the fuel) gives the options read; an error of the lexer fails with it.
pub open spec fn parses_to(
    args: Seq<Seq<char>>,
    calls: Seq<bool>,
    st: ParseState,
    fuel: nat,
    r: Result<Args, CliError>,
) -> bool
    decreases fuel, 0nat,
{
    if fuel == 0 {
        r matches Ok(a) && args_of(st, a)
    } else {
        match lex_next(args, calls) {
            LexTokV::Fail(e) => r matches Err(CliError::Lexopt(x)) && x@ == e,
            LexTokV::End => r matches Ok(a) && args_of(st, a),
            LexTokV::Token(tok, dbg) => {
                let c1 = calls.push(false);
                let o = classify_spec(tok);
                if o is Help {
                    r matches Err(CliError::HelpRequested)
                } else if o is Version {
                    r matches Err(CliError::VersionRequested)
                } else if o is Unknown {
                    r matches Err(CliError::UnknownOption(d)) && d@ == dbg
                } else if o is Positional {
                    if st.path is None {
                        exists|p: String|
                            p@ == positional_text(tok) && parses_to(
                                args,
                                c1,
                                #[trigger] with_path(st, p),
                                (fuel - 1) as nat,
                                r,
                            )
                    } else {
                        r matches Err(CliError::UnexpectedArgument(p)) && p@ == positional_text(tok)
                    }
                } else if takes_value_spec(o) {
                    match lex_value(args, c1) {
                        LexValV::Fail(e) => r matches Err(CliError::Lexopt(x)) && x@ == e,
                        LexValV::Value(v) => applies_to(args, c1.push(true), st, o, v, (fuel - 1) as nat, r),
                    }
                } else {
                    applies_to(args, c1, st, o, Seq::empty(), (fuel - 1) as nat, r)
                }
            },
        }
    }
}

/// Applying an option whose value is acceptable goes on from the state it
/// makes.
proof fn lemma_applies_ok(
    args: Seq<Seq<char>>,
    calls: Seq<bool>,
    st: ParseState,
    o: Opt,
    val: String,
    n: ParseState,
    fuel: nat,
    r: Result<Args, CliError>,
)
    requires
        value_ok(effect_spec(o), val@),
        applied(st, effect_spec(o), val, n),
        parses_to(args, calls, n, fuel, r),
    ensures
        applies_to(args, calls, st, o, val@, fuel, r),
{
}

/// A first positional argument becomes the path and the parse goes on.
proof fn lemma_positional(
    args: Seq<Seq<char>>,
    calls: Seq<bool>,
    st: ParseState,
    tok: CliArgV,
    dbg: Seq<char>,
    p: String,
    fuel: nat,
    r: Result<Args, CliError>,
)
    requires
        fuel > 0,
        lex_next(args, calls) == LexTokV::Token(tok, dbg),
        classify_spec(tok) is Positional,
        st.path is None,
        p@ == positional_text(tok),
        parses_to(args, calls.push(false), with_path(st, p), (fuel - 1) as nat, r),
    ensures
        parses_to(args, calls, st, fuel, r),
{
}

/// A value that does not parse fails the parse.
proof fn lemma_applies_fail(args: Seq<Seq<char>>, calls: Seq<bool>, st: ParseState, o: Opt, v: Seq<char>, fuel: nat, r: Result<Args, CliError>)
    requires
        !value_ok(effect_spec(o), v),
        r matches Err(CliError::Lexopt(LexError::ParsingFailed(x, _))) && x@ == v,
    ensures
        applies_to(args, calls, st, o, v, fuel, r),
{
}

/// Whether `r` is what reading the command line `argv` (the program name
/// first) leads to from the initial state.
pub open spec fn cli_parses(argv: Seq<Seq<char>>, r: Result<Args, CliError>) -> bool {
    exists|s0: ParseState|
        is_initial(s0) && #[trigger] parses_to(argv, Seq::empty(), s0, token_limit(argv), r)
}

/// Whether `r` is what applying the option `o` with the value `v` to the
/// state `st` leads to on a command line of simple arguments `args`,
/// reading on from the argument at `pos`.
pub open spec fn simple_applies(
    args: Seq<Seq<char>>,
    pos: int,
    st: ParseState,
    o: Opt,
    v: Seq<char>,
    fuel: nat,
    r: Result<Args, CliError>,
) -> bool
    decreases fuel, 1nat,
{
    if value_ok(effect_spec(o), v) {
        exists|val: String, n: ParseState|
            #![trigger applied(st, effect_spec(o), val, n)]
            val@ == v && applied(st, effect_spec(o), val, n) && simple_parses_to(args, pos, n, fuel, r)
    } else {
        r matches Err(CliError::Lexopt(LexError::ParsingFailed(x, _))) && x@ == v
    }
}

/// Whether `r` is what reading a command line of simple arguments `args`
/// (each one whole token: `--name`, `-c` or a plain value) leads to from the
/// state `st`, from the argument at `pos` on, with at most `fuel` more
/// tokens: help and version stop the parse, an unknown option fails, the
/// first positional argument is the path and a second one fails, an option
/// that takes a value takes the next argument whole (and fails when there
/// is none), and the end of the arguments gives the options read.
pub open spec fn simple_parses_to(
    args: Seq<Seq<char>>,
    pos: int,
    st: ParseState,
    fuel: nat,
    r: Result<Args, CliError>,
) -> bool
    decreases fuel, 0nat,
{
    if fuel == 0 || pos >= args.len() || pos < 1 {
        r matches Ok(a) && args_of(st, a)
    } else {
        let tok = simple_token(args[pos]);
        let o = classify_spec(tok);
        if o is Help {
            r matches Err(CliError::HelpRequested)
        } else if o is Version {
            r matches Err(CliError::VersionRequested)
        } else if o is Unknown {
            r matches Err(CliError::UnknownOption(_))
        } else if o is Positional {
            if st.path is None {
                exists|p: String|
                    p@ == positional_text(tok) && simple_parses_to(
                        args,
                        pos + 1,
                        #[trigger] with_path(st, p),
                        (fuel - 1) as nat,
                        r,
                    )
            } else {
                r matches Err(CliError::UnexpectedArgument(p)) && p@ == positional_text(tok)
            }
        } else if takes_value_spec(o) {
            if pos + 1 < args.len() {
                simple_applies(args, pos + 2, st, o, args[pos + 1], (fuel - 1) as nat, r)
            } else {
                r matches Err(CliError::Lexopt(LexError::MissingValue(_)))
            }
        } else {
            simple_applies(args, pos + 1, st, o, Seq::empty(), (fuel - 1) as nat, r)
        }
    }
}

/// Whether `r` is what reading the command line of simple arguments `argv`
/// (the program name first) leads to from the initial state.
pub open spec fn simple_cli_parses(argv: Seq<Seq<char>>, r: Result<Args, CliError>) -> bool {
    exists|s0: ParseState|
        is_initial(s0) && #[trigger] simple_parses_to(argv, 1, s0, token_limit(argv), r)
}

/// On a command line of simple arguments, the parse by lexopt's tokens is
/// the parse by whole arguments: the calls made so far have taken as many
/// arguments.
proof fn lemma_simple_parse(
    args: Seq<Seq<char>>,
    c: Seq<bool>,
    st: ParseState,
    fuel: nat,
    r: Result<Args, CliError>,
)
    requires
        simple_args(args),
        simple_facts(args),
        parses_to(args, c, st, fuel, r),
    ensures
        simple_parses_to(args, c.len() + 1int, st, fuel, r),
    decreases fuel,
{
    let pos: int = c.len() + 1int;
    if fuel > 0 && pos < args.len() {
        let tok = simple_token(args[pos]);
        if let LexTokV::Token(t, d) = lex_next(args, c) {
            assert(t == tok);
            let o = classify_spec(tok);
            let c1 = c.push(false);
            let f1 = (fuel - 1) as nat;
            if o is Help || o is Version || o is Unknown {
                assert(simple_parses_to(args, pos, st, fuel, r));
            } else if o is Positional {
                if st.path is None {
                    assert(exists|p: String|
                        p@ == positional_text(tok) && parses_to(args, c1, #[trigger] with_path(st, p), f1, r));
                    let p = choose|p: String|
                        p@ == positional_text(tok) && parses_to(args, c1, #[trigger] with_path(st, p), f1, r);
                    lemma_simple_parse(args, c1, with_path(st, p), f1, r);
                    assert(c1.len() + 1int == pos + 1);
                    assert(simple_parses_to(args, pos, st, fuel, r));
                } else {
                    assert(simple_parses_to(args, pos, st, fuel, r));
                }
            } else if takes_value_spec(o) {
                if pos + 1 < args.len() {
                    assert(lex_value(args, c1) == LexValV::Value(args[pos + 1]));
                    let c2 = c1.push(true);
                    let v = args[pos + 1];
                    assert(applies_to(args, c2, st, o, v, f1, r));
                    if value_ok(effect_spec(o), v) {
                        let (val, n) = choose|val: String, n: ParseState|
                            #![trigger applied(st, effect_spec(o), val, n)]
                            val@ == v && applied(st, effect_spec(o), val, n) && parses_to(args, c2, n, f1, r);
                        lemma_simple_parse(args, c2, n, f1, r);
                        assert(c2.len() + 1int == pos + 2);
                        assert(simple_applies(args, pos + 2, st, o, v, f1, r));
                    }
                    assert(simple_applies(args, pos + 2, st, o, v, f1, r));
                    assert(simple_parses_to(args, pos, st, fuel, r));
                } else {
                    assert(lex_value(args, c1) matches LexValV::Fail(e) && e is MissingValue);
                    assert(simple_parses_to(args, pos, st, fuel, r));
                }
            } else {
                assert(applies_to(args, c1, st, o, Seq::empty(), f1, r));
                if value_ok(effect_spec(o), Seq::empty()) {
                    let (val, n) = choose|val: String, n: ParseState|
                        #![trigger applied(st, effect_spec(o), val, n)]
                        val@ == Seq::<char>::empty() && applied(st, effect_spec(o), val, n) && parses_to(
                            args,
                            c1,
                            n,
                            f1,
                            r,
                        );
                    lemma_simple_parse(args, c1, n, f1, r);
                    assert(c1.len() + 1int == pos + 1);
                    assert(simple_applies(args, pos + 1, st, o, Seq::empty(), f1, r));
                }
                assert(simple_applies(args, pos + 1, st, o, Seq::empty(), f1, r));
                assert(simple_parses_to(args, pos, st, fuel, r));
            }
        }
    } else {
        if fuel > 0 {
            assert(lex_next(args, c) is End);
        }
        assert(r matches Ok(a) && args_of(st, a));
        assert(simple_parses_to(args, pos, st, fuel, r));
    }
}

impl Args {
    /// Reads the command line `argv` (the program name first): each option
    /// token is classified and its effect applied in order, with its value
    /// when it takes one; the first positional argument is the path to scan.
    pub fn try_parse_from(argv: &[&str]) -> (r: Result<Args, CliError>)
        ensures
            cli_parses(argv_texts(argv@), r),
            simple_args(argv_texts(argv@)) ==> simple_cli_parses(argv_texts(argv@), r),
            r matches Ok(a) ==> parsed_args(a),
    {
        let r = Args::parse_argv(argv);
        proof {
            let args = argv_texts(argv@);
            if simple_args(args) {
                let s0 = choose|s0: ParseState|
                    is_initial(s0) && #[trigger] parses_to(args, Seq::empty(), s0, token_limit(args), r);
                lemma_simple_parse(args, Seq::empty(), s0, token_limit(args), r);
                assert(Seq::<bool>::empty().len() + 1int == 1);
                assert(simple_parses_to(args, 1, s0, token_limit(args), r));
            }
        }
        r
    }

    /// The parse of `try_parse_from`, which also learns what lexopt does
    /// with simple arguments.
    fn parse_argv(argv: &[&str]) -> (r: Result<Args, CliError>)
        ensures
            cli_parses(argv_texts(argv@), r),
            simple_facts(argv_texts(argv@)),
            r matches Ok(a) ==> parsed_args(a),
    {
        let mut lex = Lexer::new(argv);
        let mut st = initial_state();
        let ghost st0 = st;
        let ghost args = argv_texts(argv@);
        let ghost mut trace: Seq<(Opt, String)> = Seq::empty();
        let ghost mut states: Seq<ParseState> = seq![st];
        let mut fuel = token_bound(argv);
        let ghost fuel0 = fuel as nat;
        assert(fuel0 == token_limit(argv_texts(argv@)));
        while fuel > 0
            invariant
                state_wf(st),
                flags_exclusive(st.flags@),
                is_run(trace, states),
                states.last() == (ParseState { path: None, ..st }),
                is_initial(st0),
                lex.texts() == args,
                args == argv_texts(argv@),
                fuel0 == token_limit(argv_texts(argv@)),
                fuel0 >= 1,
                fuel < fuel0 ==> simple_facts(args),
                forall|r: Result<Args, CliError>|
                    #[trigger] parses_to(args, lex.calls(), st, fuel as nat, r) ==> parses_to(
                        args,
                        Seq::empty(),
                        st0,
                        fuel0,
                        r,
                    ),
            decreases fuel,
        {
            let ghost f = fuel as nat;
            let ghost calls = lex.calls();
            let ghost sst = st;
            fuel = fuel - 1;
            let (tok, debug) = match lex.next() {
                Err(e) => {
                    let r = Err(CliError::Lexopt(e));
                    assert(parses_to(args, calls, sst, f, r));
                    assert(parses_to(args, Seq::<bool>::empty(), st0, fuel0, r));
                    return r;
                },
                Ok(None) => {
                    let ghost last = st;
                    let a = into_args(st);
                    proof {
                        lemma_toggles(last, a);
                        assert(ParseState { path: a.path, ..states.last() } == last);
                        assert(parses_to(args, calls, sst, f, Ok(a)));
                        assert(parses_to(args, Seq::<bool>::empty(), st0, fuel0, Ok(a)));
                    }
                    return Ok(a);
                },
                Ok(Some(t)) => t,
            };
            let ghost tv = tok@;
            let o = classify_arg(&tok);
            match o {
                Opt::Help => {
                    assert(parses_to(args, calls, sst, f, Err(CliError::HelpRequested)));
                    assert(parses_to(args, Seq::<bool>::empty(), st0, fuel0, Err(CliError::HelpRequested)));
                    return Err(CliError::HelpRequested);
                },
                Opt::Version => {
                    assert(parses_to(args, calls, sst, f, Err(CliError::VersionRequested)));
                    assert(parses_to(args, Seq::<bool>::empty(), st0, fuel0, Err(CliError::VersionRequested)));
                    return Err(CliError::VersionRequested);
                },
                Opt::Unknown => {
                    let r = Err(CliError::UnknownOption(debug));
                    assert(parses_to(args, calls, sst, f, r));
                    assert(parses_to(args, Seq::<bool>::empty(), st0, fuel0, r));
                    return r;
                },
                Opt::Positional => {
                    let v = match tok {
                        CliArg::Value(v) => v,
                        CliArg::Short(_) => String::new(),
                        CliArg::Long(l) => l,
                    };
                    if st.path.is_none() {
                        st.path = Some(v);
                        proof {
                            assert forall|r: Result<Args, CliError>|
                                #[trigger] parses_to(args, lex.calls(), st, fuel as nat, r) implies parses_to(
                                args,
                                calls,
                                sst,
                                f,
                                r,
                            ) by {
                                assert(st == with_path(sst, v));
                                assert(fuel as nat == (f - 1) as nat);
                                lemma_positional(args, calls, sst, tv, debug@, v, f, r);
                            }
                        }
                    } else {
                        let r = Err(CliError::UnexpectedArgument(v));
                        assert(parses_to(args, calls, sst, f, r));
                        assert(parses_to(args, Seq::<bool>::empty(), st0, fuel0, r));
                        return r;
                    }
                },
                _ => {
                    let ghost c1 = lex.calls();
                    let val = if takes_value(o) {
                        match lex.value() {
                            Err(e) => {
                                let r = Err(CliError::Lexopt(e));
                                assert(parses_to(args, calls, sst, f, r));
                                assert(parses_to(args, Seq::<bool>::empty(), st0, fuel0, r));
                                return r;
                            },
                            Ok(v) => v,
                        }
                    } else {
                        String::new()
                    };
                    let e = effect_of(o);
                    proof {
                        lemma_effect_table(o);
                    }
                    let ghost before = st;
                    let ghost gv = val;
                    match apply_effect(&mut st, e, val) {
                        Err(err) => {
                            let r = Err(err);
                            proof {
                                lemma_applies_fail(args, lex.calls(), sst, o, gv@, fuel as nat, r);
                            }
                            assert(applies_to(args, lex.calls(), sst, o, gv@, fuel as nat, r));
                            assert(parses_to(args, calls, sst, f, r));
                            assert(parses_to(args, Seq::<bool>::empty(), st0, fuel0, r));
                            return r;
                        },
                        Ok(()) => {},
                    }
                    proof {
                        assert forall|r: Result<Args, CliError>|
                            #[trigger] parses_to(args, lex.calls(), st, fuel as nat, r) implies parses_to(
                            args,
                            calls,
                            sst,
                            f,
                            r,
                        ) by {
                            lemma_applies_ok(args, lex.calls(), sst, o, gv, st, fuel as nat, r);
                        }
                    }
                    proof {
                        match e {
                            Effect::Flags(on, x, y) => {
                                lemma_apply_keeps_exclusive(before.flags@, on as int, x as int, y as int);
                            },
                            _ => {},
                        }
                        lemma_apply_path(before, e, gv, st, None);
                        lemma_run_step(trace, states, o, gv, ParseState { path: None, ..st });
                        trace = trace.push((o, gv));
                        states = states.push(ParseState { path: None, ..st });
                    }
                },
            }
        }
        let ghost last = st;
        let a = into_args(st);
        proof {
            lemma_toggles(last, a);
            assert(ParseState { path: a.path, ..states.last() } == last);
            assert(parses_to(args, lex.calls(), last, 0, Ok::<Args, CliError>(a)));
            assert(parses_to(args, Seq::<bool>::empty(), st0, fuel0, Ok::<Args, CliError>(a)));
        }
        Ok(a)
    }
}

} // verus!
