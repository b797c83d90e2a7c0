//! The decisions of the editor's logger.
//!
//! Records go to the main log, except records about one language server (those whose
//! target starts with the prefix `lsp/`), which go to that server's own file in the LSP log
//! directory. Opening files and writing to them is left to the caller; this module decides
//! where each record goes and what text is written.

use vstd::prelude::*;

use std::path::{Path, PathBuf};

use crate::text::{push_char, push_str};
use crate::timestamp::{is_log_timestamp, log_timestamp};

verus! {

/// The severity of a record, from the most to the least severe.
#[derive(Clone, Copy, Debug, PartialEq, Eq, Structural)]
pub enum Level {
    Error,
    Warn,
    Info,
    Debug,
    Trace,
}

/// The least severe level that is still logged, or `Off`.
#[derive(Clone, Copy, Debug, PartialEq, Eq, Structural)]
pub enum LevelFilter {
    Off,
    Error,
    Warn,
    Info,
    Debug,
    Trace,
}

pub open spec fn level_rank(level: Level) -> int {
    match level {
        Level::Error => 1,
        Level::Warn => 2,
        Level::Info => 3,
        Level::Debug => 4,
        Level::Trace => 5,
    }
}

pub open spec fn filter_rank(filter: LevelFilter) -> int {
    match filter {
        LevelFilter::Off => 0,
        LevelFilter::Error => 1,
        LevelFilter::Warn => 2,
        LevelFilter::Info => 3,
        LevelFilter::Debug => 4,
        LevelFilter::Trace => 5,
    }
}

/// A record of `level` is logged under `filter` when it is at least as severe as the filter.
pub open spec fn is_enabled(level: Level, filter: LevelFilter) -> bool {
    level_rank(level) <= filter_rank(filter)
}

/// The filters are ordered `Off < Error < Warn < Info < Debug < Trace` and the levels
/// `Error < Warn < Info < Debug < Trace`: a record passes the filter named like its own level
/// and every more verbose one, and no less verbose one; `Off` lets nothing through and
/// `Trace` everything.
pub proof fn lemma_level_filter_order()
    ensures
        forall|l: Level| !is_enabled(l, LevelFilter::Off),
        forall|l: Level| is_enabled(l, LevelFilter::Trace),
        is_enabled(Level::Error, LevelFilter::Error),
        !is_enabled(Level::Warn, LevelFilter::Error),
        is_enabled(Level::Warn, LevelFilter::Warn),
        !is_enabled(Level::Info, LevelFilter::Warn),
        is_enabled(Level::Info, LevelFilter::Info),
        !is_enabled(Level::Debug, LevelFilter::Info),
        is_enabled(Level::Debug, LevelFilter::Debug),
        !is_enabled(Level::Trace, LevelFilter::Debug),
        is_enabled(Level::Trace, LevelFilter::Trace),
        forall|l: Level, f: LevelFilter, g: LevelFilter|
            is_enabled(l, f) && filter_rank(f) <= filter_rank(g) ==> is_enabled(l, g),
{
}

/// Whether a record of `level` passes `filter`.
pub fn enabled(level: Level, filter: LevelFilter) -> (r: bool)
    ensures
        r == is_enabled(level, filter),
{
    let rank: u8 = match level {
        Level::Error => 1,
        Level::Warn => 2,
        Level::Info => 3,
        Level::Debug => 4,
        Level::Trace => 5,
    };
    let limit: u8 = match filter {
        LevelFilter::Off => 0,
        LevelFilter::Error => 1,
        LevelFilter::Warn => 2,
        LevelFilter::Info => 3,
        LevelFilter::Debug => 4,
        LevelFilter::Trace => 5,
    };
    rank <= limit
}

/// The name of a level as it appears in a log line.
pub open spec fn level_name(level: Level) -> Seq<char> {
    match level {
        Level::Error => seq!['E', 'R', 'R', 'O', 'R'],
        Level::Warn => seq!['W', 'A', 'R', 'N'],
        Level::Info => seq!['I', 'N', 'F', 'O'],
        Level::Debug => seq!['D', 'E', 'B', 'U', 'G'],
        Level::Trace => seq!['T', 'R', 'A', 'C', 'E'],
    }
}

/// Each level is written under its own name, as `log::Level` displays it, and no two levels
/// share a name.
pub proof fn lemma_level_names()
    ensures
        level_name(Level::Error) == "ERROR"@,
        level_name(Level::Warn) == "WARN"@,
        level_name(Level::Info) == "INFO"@,
        level_name(Level::Debug) == "DEBUG"@,
        level_name(Level::Trace) == "TRACE"@,
        forall|a: Level, b: Level| a != b ==> level_name(a) != level_name(b),
{
    reveal_strlit("ERROR");
    reveal_strlit("WARN");
    reveal_strlit("INFO");
    reveal_strlit("DEBUG");
    reveal_strlit("TRACE");
    assert(level_name(Level::Error) =~= "ERROR"@);
    assert(level_name(Level::Warn) =~= "WARN"@);
    assert(level_name(Level::Info) =~= "INFO"@);
    assert(level_name(Level::Debug) =~= "DEBUG"@);
    assert(level_name(Level::Trace) =~= "TRACE"@);
    assert forall|a: Level, b: Level| a != b implies level_name(a) != level_name(b) by {
        assert(level_name(a)[0] != level_name(b)[0]);
    }
}

/// The name of `level` as it appears in a log line, such as `WARN`.
pub fn level_str(level: Level) -> (r: &'static str)
    ensures
        r@ == level_name(level),
{
    match level {
        Level::Error => {
            proof {
                reveal_strlit("ERROR");
            }
            "ERROR"
        },
        Level::Warn => {
            proof {
                reveal_strlit("WARN");
            }
            "WARN"
        },
        Level::Info => {
            proof {
                reveal_strlit("INFO");
            }
            "INFO"
        },
        Level::Debug => {
            proof {
                reveal_strlit("DEBUG");
            }
            "DEBUG"
        },
        Level::Trace => {
            proof {
                reveal_strlit("TRACE");
            }
            "TRACE"
        },
    }
}

/// The prefix of the targets of records about one language server.
pub open spec fn lsp_target_prefix() -> Seq<char> {
    seq!['l', 's', 'p', '/']
}

/// `target` names a language server: it is the prefix followed by the server's name.
pub open spec fn is_lsp_target(target: Seq<char>) -> bool {
    target.len() >= 4 && target.take(4) == lsp_target_prefix()
}

/// The target of records about the language server `server`.
pub fn log_target(server: &str) -> (r: String)
    ensures
        r@ == lsp_target_prefix() + server@,
{
    let mut out = String::new();
    push_char(&mut out, 'l');
    push_char(&mut out, 's');
    push_char(&mut out, 'p');
    push_char(&mut out, '/');
    push_str(&mut out, server);
    assert(out@ =~= lsp_target_prefix() + server@);
    out
}

/// The target of a server's records names that server.
pub proof fn lemma_log_target_names_server(server: Seq<char>)
    ensures
        is_lsp_target(lsp_target_prefix() + server),
        (lsp_target_prefix() + server).skip(4) == server,
{
    assert((lsp_target_prefix() + server).take(4) =~= lsp_target_prefix());
    assert((lsp_target_prefix() + server).skip(4) =~= server);
}

/// The language server that a record's target names, if it names one.
pub fn lsp_server_name(target: &str) -> (r: Option<&str>)
    ensures
        is_lsp_target(target@) <==> r is Some,
        r matches Some(name) ==> name@ == target@.skip(4),
{
    let n = target.unicode_len();
    if n >= 4 && target.get_char(0) == 'l' && target.get_char(1) == 's' && target.get_char(2)
        == 'p' && target.get_char(3) == '/' {
        assert(target@.take(4) =~= lsp_target_prefix());
        Some(target.substring_char(4, n))
    } else {
        proof {
            if is_lsp_target(target@) {
                assert(target@.take(4)[0] == 'l');
                assert(target@.take(4)[1] == 's');
                assert(target@.take(4)[2] == 'p');
                assert(target@.take(4)[3] == '/');
            }
        }
        None
    }
}

/// Whether `c` is alphabetic or numeric in Unicode, as `char::is_alphanumeric` decides.
pub uninterp spec fn is_alphanumeric(c: char) -> bool;

/// ASCII letters and digits.
pub open spec fn is_ascii_alphanumeric(c: char) -> bool {
    ('a' <= c && c <= 'z') || ('A' <= c && c <= 'Z') || ('0' <= c && c <= '9')
}

/// Whether `c` is alphanumeric: among ASCII characters the letters and digits, otherwise
/// what `is_alphanumeric` names.
pub open spec fn alphanumeric(c: char) -> bool {
    if c <= '\u{7f}' {
        is_ascii_alphanumeric(c)
    } else {
        is_alphanumeric(c)
    }
}

/// `char::is_alphanumeric`: `is_alphabetic() || is_numeric()`, which std answers for ASCII
/// by `'a'..='z' | 'A'..='Z'` and `'0'..='9'`; for other characters its result is what
/// `is_alphanumeric` names, and no more is claimed of it.
#[verifier::external_body]
fn char_is_alphanumeric(c: char) -> (r: bool)
    ensures
        c <= '\u{7f}' ==> r == is_ascii_alphanumeric(c),
        c > '\u{7f}' ==> r == is_alphanumeric(c),
{
    c.is_alphanumeric()
}

/// The character that stands for `c` in a log file name: `-`, `_`, `.` and alphanumeric
/// characters stand for themselves, any other character is replaced by `_`.
pub open spec fn file_name_char(c: char) -> char {
    if c == '-' || c == '_' || c == '.' || alphanumeric(c) {
        c
    } else {
        '_'
    }
}

/// The name of the log file of the language server `name`: each character replaced as
/// `file_name_char` says, followed by `.log`.
pub open spec fn lsp_log_file_name_text(name: Seq<char>) -> Seq<char> {
    name.map_values(|c: char| file_name_char(c)) + seq!['.', 'l', 'o', 'g']
}

/// The file name, within the LSP log directory, of the log of the language server `name`.
pub fn lsp_log_file_name(name: &str) -> (r: String)
    ensures
        r@ == lsp_log_file_name_text(name@),
{
    let mut out = String::new();
    for c in it: name.chars()
        invariant
            out@ == it.seq().take(it.index() as int).map_values(|c: char| file_name_char(c)),
    {
        let kept = if c == '-' || c == '_' || c == '.' {
            true
        } else {
            char_is_alphanumeric(c)
        };
        push_char(
            &mut out,
            if kept {
                c
            } else {
                '_'
            },
        );
        assert(it.seq().take(it.index() + 1) =~= it.seq().take(it.index() as int).push(c));
    }
    let ghost body = out@;
    push_char(&mut out, '.');
    push_char(&mut out, 'l');
    push_char(&mut out, 'o');
    push_char(&mut out, 'g');
    assert(out@ =~= body + seq!['.', 'l', 'o', 'g']);
    out
}

/// A log file name is made of `-`, `_`, `.` and alphanumeric characters only, followed by
/// `.log`; characters of the server's name that are allowed stay in their places.
pub proof fn lemma_lsp_log_file_name_is_sanitized(name: Seq<char>)
    ensures
        ({
            let file = lsp_log_file_name_text(name);
            &&& file.len() == name.len() + 4
            &&& file.skip(name.len() as int) == seq!['.', 'l', 'o', 'g']
            &&& forall|i: int|
                0 <= i < name.len() ==> {
                    let c = #[trigger] file[i];
                    &&& (c == '-' || c == '_' || c == '.' || alphanumeric(c))
                    &&& (name[i] == '-' || name[i] == '_' || name[i] == '.' || alphanumeric(
                        name[i],
                    )) ==> c == name[i]
                }
        }),
{
    let file = lsp_log_file_name_text(name);
    assert(file.skip(name.len() as int) =~= seq!['.', 'l', 'o', 'g']);
}

/// `std::path::Path`, carried through as an opaque value.
#[verifier::external_type_specification]
#[verifier::external_body]
pub struct ExPath(std::path::Path);

/// `std::path::PathBuf`, carried through as an opaque value.
#[verifier::external_type_specification]
#[verifier::external_body]
pub struct ExPathBuf(std::path::PathBuf);

/// The path that `Path::join` makes of the directory `dir` and the relative name `file`
/// (for the platform the program is built for).
pub uninterp spec fn joined_path(dir: &Path, file: Seq<char>) -> PathBuf;

/// `Path::join`: its result is the path that `joined_path` names for `dir` and `file`, and
/// no more is claimed of it.
#[verifier::external_body]
fn join_path(dir: &Path, file: &str) -> (r: PathBuf)
    ensures
        r == joined_path(dir, file@),
{
    dir.join(file)
}

/// The log file of the language server `name` in the directory `dir`: the directory
/// joined with `lsp_log_file_name(name)`.
pub fn lsp_log_file_in(dir: &Path, name: &str) -> (r: PathBuf)
    ensures
        r == joined_path(dir, lsp_log_file_name_text(name@)),
{
    let file_name = lsp_log_file_name(name);
    join_path(dir, file_name.as_str())
}

pub open spec fn opt_text(target: Option<&str>) -> Option<Seq<char>> {
    match target {
        Some(t) => Some(t@),
        None => None,
    }
}

/// One log line: the timestamp, the target where there is one, the level in brackets and
/// the message, ended by a newline.
pub open spec fn log_line(
    timestamp: Seq<char>,
    level: Level,
    target: Option<Seq<char>>,
    message: Seq<char>,
) -> Seq<char> {
    let head = match target {
        Some(t) => timestamp + seq![' '] + t,
        None => timestamp,
    };
    head + seq![' ', '['] + level_name(level) + seq![']', ' '] + message + seq!['\n']
}

/// Formats one log line with the given timestamp.
pub fn format_line_at(timestamp: &str, level: Level, message: &str, target: Option<&str>) -> (r:
    String)
    ensures
        r@ == log_line(timestamp@, level, opt_text(target), message@),
{
    let mut out = String::new();
    push_str(&mut out, timestamp);
    match target {
        Some(t) => {
            push_char(&mut out, ' ');
            push_str(&mut out, t);
        },
        None => {},
    }
    let ghost head = out@;
    push_char(&mut out, ' ');
    push_char(&mut out, '[');
    push_str(&mut out, level_str(level));
    push_char(&mut out, ']');
    push_char(&mut out, ' ');
    push_str(&mut out, message);
    push_char(&mut out, '\n');
    assert(out@ =~= log_line(timestamp@, level, opt_text(target), message@));
    out
}

/// Formats one log line stamped with the current time. The target is omitted in
/// per-server files, where it would only repeat the file name.
pub fn format_line(level: Level, message: &str, target: Option<&str>) -> (r: String)
    ensures
        exists|ts: Seq<char>|
            is_log_timestamp(ts) && r@ == log_line(ts, level, opt_text(target), message@),
{
    let timestamp = log_timestamp();
    format_line_at(timestamp.as_str(), level, message, target)
}

/// What the logger knows of the log file of one language server.
#[derive(Clone, Copy, Debug, PartialEq, Eq, Structural)]
pub enum LspFileState {
    /// No record about the server has reached the logger yet.
    Unopened,
    /// The file is open.
    Open,
    /// The file could not be opened; the server's records go to the main log.
    Unavailable,
}

/// Where a record goes.
#[derive(Clone, Copy, Debug, PartialEq, Eq, Structural)]
pub enum Destination {
    /// The record is below the level filter.
    Discard,
    /// The main log, with the record's target in the line.
    MainLog,
    /// The server's own file, without the target.
    ServerLog,
    /// The server's file is to be opened first; `after_open` says where the record goes then.
    OpenServerLog,
}

/// Where a record of `level` with `target` goes, when the logger has the level filter
/// `filter`, keeps per-server files when `lsp_configured` holds, and knows `file` of the
/// file of the server that the target names.
pub open spec fn route(
    filter: LevelFilter,
    level: Level,
    target: Seq<char>,
    lsp_configured: bool,
    file: LspFileState,
) -> Destination {
    if !is_enabled(level, filter) {
        Destination::Discard
    } else if !is_lsp_target(target) || !lsp_configured {
        Destination::MainLog
    } else {
        match file {
            LspFileState::Unopened => Destination::OpenServerLog,
            LspFileState::Open => Destination::ServerLog,
            LspFileState::Unavailable => Destination::MainLog,
        }
    }
}

/// Once a server's file could not be opened, none of its records goes to a server file or
/// causes another attempt to open one.
pub proof fn lemma_unavailable_file_is_not_retried(
    filter: LevelFilter,
    level: Level,
    target: Seq<char>,
    lsp_configured: bool,
)
    ensures
        route(filter, level, target, lsp_configured, LspFileState::Unavailable) == if is_enabled(
            level,
            filter,
        ) {
            Destination::MainLog
        } else {
            Destination::Discard
        },
{
}

/// How records are routed, whatever their target and the state of the server's file:
/// a record below the level filter is discarded, and nothing is opened or written for it; a
/// record that passes goes to the main log unless it names a language server and the logger
/// keeps server files; a server's file is opened only for the first record that passes, and
/// a record is written to it only once it is open.
pub proof fn lemma_routing(
    filter: LevelFilter,
    level: Level,
    target: Seq<char>,
    lsp_configured: bool,
    file: LspFileState,
)
    ensures
        !is_enabled(level, filter) ==> route(filter, level, target, lsp_configured, file)
            == Destination::Discard,
        is_enabled(level, filter) ==> route(filter, level, target, lsp_configured, file)
            != Destination::Discard,
        is_enabled(level, filter) && (!is_lsp_target(target) || !lsp_configured) ==> route(
            filter,
            level,
            target,
            lsp_configured,
            file,
        ) == Destination::MainLog,
        route(filter, level, target, lsp_configured, file) == Destination::OpenServerLog
            <==> is_enabled(level, filter) && is_lsp_target(target) && lsp_configured && file
            == LspFileState::Unopened,
        route(filter, level, target, lsp_configured, file) == Destination::ServerLog
            <==> is_enabled(level, filter) && is_lsp_target(target) && lsp_configured && file
            == LspFileState::Open,
{
}

/// Decides where a record goes.
pub fn route_record(
    filter: LevelFilter,
    level: Level,
    target: &str,
    lsp_configured: bool,
    file: LspFileState,
) -> (r: Destination)
    ensures
        r == route(filter, level, target@, lsp_configured, file),
{
    if !enabled(level, filter) {
        return Destination::Discard;
    }
    if lsp_server_name(target).is_none() || !lsp_configured {
        return Destination::MainLog;
    }
    match file {
        LspFileState::Unopened => Destination::OpenServerLog,
        LspFileState::Open => Destination::ServerLog,
        LspFileState::Unavailable => Destination::MainLog,
    }
}

/// After an attempt to open a server's file: what the logger then knows of the file, and
/// where the record that caused the attempt goes.
pub fn after_open(opened: bool) -> (r: (LspFileState, Destination))
    ensures
        opened ==> r == (LspFileState::Open, Destination::ServerLog),
        !opened ==> r == (LspFileState::Unavailable, Destination::MainLog),
{
    if opened {
        (LspFileState::Open, Destination::ServerLog)
    } else {
        (LspFileState::Unavailable, Destination::MainLog)
    }
}

/// The line that a record with `destination` leaves, stamped with the current time: in the
/// main log with the record's target, in a server's file without it; none where the record
/// is discarded or still waits for its file to be opened.
pub fn record_line(destination: Destination, level: Level, message: &str, target: &str) -> (r:
    Option<String>)
    ensures
        destination == Destination::Discard || destination == Destination::OpenServerLog
            <==> r is None,
        r matches Some(line) ==> exists|ts: Seq<char>|
            is_log_timestamp(ts) && line@ == log_line(
                ts,
                level,
                if destination == Destination::MainLog {
                    Some(target@)
                } else {
                    None
                },
                message@,
            ),
{
    match destination {
        Destination::MainLog => Some(format_line(level, message, Some(target))),
        Destination::ServerLog => Some(format_line(level, message, None)),
        Destination::Discard | Destination::OpenServerLog => None,
    }
}

/// The module path that stands in the warning about a file that could not be opened.
pub open spec fn logger_module() -> Seq<char> {
    seq![
        'h', 'e', 'l', 'i', 'x', '_', 't', 'e', 'r', 'm', ':', ':', 'l', 'o', 'g', 'g', 'i', 'n', 'g',
    ]
}

/// The warning written to the main log when a server's file cannot be opened.
pub open spec fn open_failure_text(
    timestamp: Seq<char>,
    path: Seq<char>,
    error: Seq<char>,
    server: Seq<char>,
) -> Seq<char> {
    timestamp + seq![' '] + logger_module() + seq![' ', '['] + level_name(Level::Warn) + seq![
        ']',
        ' ',
    ] + seq!['c', 'o', 'u', 'l', 'd', ' ', 'n', 'o', 't', ' ', 'o', 'p', 'e', 'n', ' '] + path
        + seq![':', ' '] + error + seq![';', ' ', 'l', 'o', 'g', 'g', 'i', 'n', 'g', ' '] + server
        + seq![' ', 'h', 'e', 'r', 'e', ' ', 'i', 'n', 's', 't', 'e', 'a', 'd', '\n']
}

/// The warning, stamped with the current time, that the file `path` of the language server
/// `server` could not be opened because of `error`.
pub fn open_failure_line(path: &str, error: &str, server: &str) -> (r: String)
    ensures
        exists|ts: Seq<char>|
            is_log_timestamp(ts) && r@ == open_failure_text(ts, path@, error@, server@),
{
    let timestamp = log_timestamp();
    open_failure_line_at(timestamp.as_str(), path, error, server)
}

/// The warning, with the given timestamp, that the file `path` of the language server
/// `server` could not be opened because of `error`.
pub fn open_failure_line_at(timestamp: &str, path: &str, error: &str, server: &str) -> (r: String)
    ensures
        r@ == open_failure_text(timestamp@, path@, error@, server@),
{
    let mut out = String::new();
    push_str(&mut out, timestamp);
    push_char(&mut out, ' ');
    proof {
        reveal_strlit("helix_term::logging");
        reveal_strlit("could not open ");
        reveal_strlit("; logging ");
        reveal_strlit(" here instead\n");
    }
    push_str(&mut out, "helix_term::logging");
    push_char(&mut out, ' ');
    push_char(&mut out, '[');
    push_str(&mut out, level_str(Level::Warn));
    push_char(&mut out, ']');
    push_char(&mut out, ' ');
    push_str(&mut out, "could not open ");
    push_str(&mut out, path);
    push_char(&mut out, ':');
    push_char(&mut out, ' ');
    push_str(&mut out, error);
    push_str(&mut out, "; logging ");
    push_str(&mut out, server);
    push_str(&mut out, " here instead\n");
    assert(out@ =~= open_failure_text(timestamp@, path@, error@, server@));
    out
}

} // verus!
