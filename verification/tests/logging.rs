use std::path::Path;

use helix_base::logging::{
    after_open, enabled, format_line, format_line_at, level_str, log_target, lsp_log_file_in,
    lsp_log_file_name, lsp_server_name, open_failure_line, open_failure_line_at, record_line, route_record, Destination, Level,
    LevelFilter, LspFileState,
};

#[test]
fn lsp_log_file_names_are_sanitized() {
    let dir = Path::new("/logs");
    assert_eq!(
        lsp_log_file_in(dir, "rust-analyzer"),
        Path::new("/logs/rust-analyzer.log")
    );
    assert_eq!(
        lsp_log_file_in(dir, "my/odd server"),
        Path::new("/logs/my_odd_server.log")
    );
}

#[test]
fn file_names_keep_letters_digits_and_punctuation_of_names() {
    assert_eq!(lsp_log_file_name("clangd-18.1_x"), "clangd-18.1_x.log");
    assert_eq!(lsp_log_file_name("rúst"), "rúst.log");
    assert_eq!(lsp_log_file_name("a\\b:c*"), "a_b_c_.log");
    assert_eq!(lsp_log_file_name(""), ".log");
    assert_eq!(lsp_log_file_in(Path::new("logs/"), "x y"), Path::new("logs/x_y.log"));
}

#[test]
fn levels_pass_filters_at_most_as_verbose() {
    assert!(enabled(Level::Error, LevelFilter::Error));
    assert!(enabled(Level::Warn, LevelFilter::Info));
    assert!(enabled(Level::Info, LevelFilter::Info));
    assert!(!enabled(Level::Debug, LevelFilter::Info));
    assert!(!enabled(Level::Error, LevelFilter::Off));
    assert!(enabled(Level::Trace, LevelFilter::Trace));
    assert_eq!(level_str(Level::Warn), "WARN");
    assert_eq!(level_str(Level::Error), "ERROR");
    assert_eq!(level_str(Level::Trace), "TRACE");
}

#[test]
fn server_targets_round_trip() {
    let target = log_target("rust-analyzer");
    assert_eq!(target, "lsp/rust-analyzer");
    assert_eq!(lsp_server_name(&target), Some("rust-analyzer"));
    assert_eq!(lsp_server_name("lsp/"), Some(""));
    assert_eq!(lsp_server_name("helix_term::application"), None);
    assert_eq!(lsp_server_name("lsp"), None);
    assert_eq!(lsp_server_name("lsp:gopls"), None);
}

#[test]
fn lines_carry_the_target_only_in_the_main_log() {
    assert_eq!(
        format_line_at("2024-02-29T12:30:45.123", Level::Warn, "editor event", Some("helix_term::application")),
        "2024-02-29T12:30:45.123 helix_term::application [WARN] editor event\n"
    );
    assert_eq!(
        format_line_at("2024-02-29T12:30:45.123", Level::Info, "<- {}", None),
        "2024-02-29T12:30:45.123 [INFO] <- {}\n"
    );
    let line = format_line(Level::Error, "stderr <- \"boom\"", Some("lsp/gopls"));
    assert!(line.ends_with(" lsp/gopls [ERROR] stderr <- \"boom\"\n"), "{line:?}");
    assert_eq!(line.find(' '), Some(23));
}

#[test]
fn records_are_routed_by_level_and_target() {
    let server = "lsp/rust-analyzer";
    let editor = "helix_term::application";
    let info = LevelFilter::Info;
    assert_eq!(route_record(info, Level::Debug, server, true, LspFileState::Open), Destination::Discard);
    assert_eq!(route_record(info, Level::Warn, editor, true, LspFileState::Open), Destination::MainLog);
    assert_eq!(route_record(info, Level::Info, server, true, LspFileState::Unopened), Destination::OpenServerLog);
    assert_eq!(route_record(info, Level::Info, server, true, LspFileState::Open), Destination::ServerLog);
    assert_eq!(route_record(info, Level::Info, server, true, LspFileState::Unavailable), Destination::MainLog);
    assert_eq!(route_record(info, Level::Info, server, false, LspFileState::Unopened), Destination::MainLog);
}

#[test]
fn a_file_that_cannot_be_opened_is_reported_once() {
    let (state, destination) = after_open(false);
    assert_eq!((state, destination), (LspFileState::Unavailable, Destination::MainLog));
    assert_eq!(
        route_record(LevelFilter::Info, Level::Error, "lsp/gopls", true, state),
        Destination::MainLog
    );
    assert_eq!(after_open(true), (LspFileState::Open, Destination::ServerLog));

    let warning = open_failure_line("/tmp/lsp/gopls.log", "Not a directory (os error 20)", "gopls");
    assert!(
        warning.ends_with(
            " helix_term::logging [WARN] could not open /tmp/lsp/gopls.log: Not a directory (os error 20); logging gopls here instead\n"
        ),
        "{warning:?}"
    );
    assert_eq!(warning.matches("could not open").count(), 1);
}

#[test]
fn server_lines_leave_out_the_target() {
    let main = record_line(Destination::MainLog, Level::Warn, "editor event", "helix_term::application").unwrap();
    assert!(main.ends_with(" helix_term::application [WARN] editor event\n"), "{main:?}");
    let server = record_line(Destination::ServerLog, Level::Info, "<- {}", "lsp/rust-analyzer").unwrap();
    assert!(server.ends_with(" [INFO] <- {}\n"), "{server:?}");
    assert!(!server.contains("lsp/"));
    assert_eq!(record_line(Destination::Discard, Level::Debug, "filtered out", "lsp/rust-analyzer"), None);
    assert_eq!(record_line(Destination::OpenServerLog, Level::Info, "x", "lsp/x"), None);
}

#[test]
fn the_warning_with_a_given_timestamp_is_exact() {
    assert_eq!(
        open_failure_line_at("1970-01-01T00:00:00.000", "/l/gopls.log", "boom", "gopls"),
        "1970-01-01T00:00:00.000 helix_term::logging [WARN] could not open /l/gopls.log: boom; logging gopls here instead\n"
    );
}
