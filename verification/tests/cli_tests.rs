use cargo_upgrade_command::bytes_eq;
use cargo_upgrade_command::run_command;
use cargo_upgrade_command::strip_dashes;
use cargo_upgrade_command::trim_ascii;
use cargo_upgrade_command::CliCommand;

#[test]
fn update_spellings_select_update_all() {
    assert_eq!(run_command(b"update"), CliCommand::UpdateAll);
    assert_eq!(run_command(b"upgrade"), CliCommand::UpdateAll);
    assert_eq!(run_command(b"u"), CliCommand::UpdateAll);
}

#[test]
fn outdated_spellings_select_show_outdated() {
    assert_eq!(run_command(b"outdated"), CliCommand::ShowOutdated);
    assert_eq!(run_command(b"list"), CliCommand::ShowOutdated);
    assert_eq!(run_command(b"show"), CliCommand::ShowOutdated);
    assert_eq!(run_command(b"o"), CliCommand::ShowOutdated);
    assert_eq!(run_command(b"l"), CliCommand::ShowOutdated);
}

#[test]
fn version_spellings_select_version() {
    assert_eq!(run_command(b"version"), CliCommand::Version);
    assert_eq!(run_command(b"v"), CliCommand::Version);
}

#[test]
fn anything_else_selects_help() {
    assert_eq!(run_command(b"help"), CliCommand::Help);
    assert_eq!(run_command(b""), CliCommand::Help);
    assert_eq!(run_command(b"updates"), CliCommand::Help);
}

#[test]
fn leading_dashes_are_stripped() {
    assert_eq!(strip_dashes(b"--update"), b"update".to_vec());
    assert_eq!(strip_dashes(b"-u"), b"u".to_vec());
    assert_eq!(strip_dashes(b"update"), b"update".to_vec());
    assert_eq!(strip_dashes(b"---"), b"".to_vec());
    assert_eq!(strip_dashes(b""), b"".to_vec());
}

#[test]
fn progress_lines_are_trimmed() {
    assert_eq!(trim_ascii(b"  Compiling foo v1.2.3 \r\n"), b"Compiling foo v1.2.3".to_vec());
    assert_eq!(trim_ascii(b"\t \n"), b"".to_vec());
    assert_eq!(trim_ascii(b""), b"".to_vec());
    assert_eq!(trim_ascii(b"done"), b"done".to_vec());
}

#[test]
fn byte_equality_is_exact() {
    assert!(bytes_eq(b"abc", b"abc"));
    assert!(!bytes_eq(b"abc", b"abd"));
    assert!(!bytes_eq(b"abc", b"ab"));
    assert!(bytes_eq(b"", b""));
}
