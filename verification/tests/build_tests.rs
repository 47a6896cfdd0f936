use rke2_image_manager::image_build::{
    build_completion, clean_podman_line, event_order, image_tag, log_filename,
    save_error_detail, save_failure_message, strip_ansi_escapes, BuildEvent,
};
use rke2_image_manager::remote::tarball_filename;

#[test]
fn test_tarball_filename_format() {
    let name = "adguardhome";
    let version = "v0.107.68-1.0.2";
    let tarball = tarball_filename(name, version);
    assert_eq!(tarball, "adguardhome-v0.107.68-1.0.2.tar");
}

#[test]
fn test_dump_log_filename_uses_unix_timestamp() {
    let filename = log_filename("img", "v1", 1754300000);
    assert!(filename.starts_with("img-v1-"));
    assert!(filename.ends_with(".log"));
    let ts_part = filename.trim_start_matches("img-v1-").trim_end_matches(".log");
    assert!(ts_part.chars().all(|c| c.is_ascii_digit()));
}

#[test]
fn test_clean_podman_line_plain() {
    assert_eq!(clean_podman_line("STEP 1/5: FROM ubuntu"), "STEP 1/5: FROM ubuntu");
}

#[test]
fn test_clean_podman_line_strips_ansi_csi() {
    assert_eq!(clean_podman_line("\x1b[80C STEP 1/5: FROM ubuntu"), "STEP 1/5: FROM ubuntu");
}

#[test]
fn test_clean_podman_line_strips_ansi_color() {
    assert_eq!(clean_podman_line("\x1b[31mERROR\x1b[0m: boom"), "ERROR: boom");
}

#[test]
fn test_clean_podman_line_strips_ansi_osc() {
    assert_eq!(clean_podman_line("before\x1b]0;title\x07after"), "beforeafter");
}

#[test]
fn test_clean_podman_line_takes_last_cr_segment() {
    assert_eq!(clean_podman_line("old\roverwrite"), "overwrite");
}

#[test]
fn test_clean_podman_line_handles_trailing_cr() {
    assert_eq!(clean_podman_line("hello\r"), "hello");
}

#[test]
fn test_clean_podman_line_strips_whitespace_padding() {
    assert_eq!(
        clean_podman_line("                    Using cache abc123"),
        "Using cache abc123"
    );
}

#[test]
fn test_clean_podman_line_preserves_internal_spaces() {
    assert_eq!(
        clean_podman_line("STEP 1/5: RUN apt-get install -y curl"),
        "STEP 1/5: RUN apt-get install -y curl"
    );
}

#[test]
fn clean_line_is_idempotent_on_examples() {
    let samples = [
        "\x1b[31mERROR\x1b[0m: boom\r",
        "a\rb\r\r",
        "  \x1b]0;t\x1b\\x  ",
        "plain",
        "\x1b",
    ];
    for s in samples {
        let once = clean_podman_line(s);
        assert_eq!(clean_podman_line(&once), once);
        assert!(!once.contains('\x1b'));
        assert!(!once.contains('\r'));
    }
}

#[test]
fn strip_ansi_handles_escape_forms() {
    assert_eq!(strip_ansi_escapes("a\x1b(Bb"), "aBb");
    assert_eq!(strip_ansi_escapes("x\x1b"), "x");
    assert_eq!(strip_ansi_escapes("\x1b]title"), "");
    assert_eq!(strip_ansi_escapes("\x1b]0;t\x1b\\rest"), "rest");
    assert_eq!(strip_ansi_escapes("\x1b[1;2"), "");
}

#[test]
fn image_tag_joins_registry_name_version() {
    assert_eq!(image_tag("registry.local", "caddy", "2.10.2-0.4.0"), "registry.local/caddy:2.10.2-0.4.0");
}

#[test]
fn log_filename_exact() {
    assert_eq!(log_filename("img", "v1", 1754300000), "img-v1-1754300000.log");
    assert_eq!(log_filename("a", "b", 0), "a-b-0.log");
}

#[test]
fn save_detail_joins_stderr_lines() {
    assert_eq!(save_error_detail(&vec![]), "");
    assert_eq!(save_error_detail(&vec!["one".to_string()]), ": one");
    assert_eq!(
        save_error_detail(&vec!["one".to_string(), "two".to_string()]),
        ": one | two"
    );
    assert_eq!(
        save_failure_message("exit status: 125", &vec!["Error: no space".to_string()]),
        "podman save exited with status: exit status: 125: Error: no space"
    );
}

fn line(seq: u64, text: &str) -> BuildEvent {
    BuildEvent::LogLine { image_name: "img".to_string(), line: text.to_string(), seq }
}

#[test]
fn events_are_ordered_by_sequence_with_completion_last() {
    let events = vec![
        BuildEvent::BuildComplete { image_name: "img".to_string(), result: Ok(()), tarball_written: true },
        line(5, "e"),
        line(2, "b"),
        line(2, "b2"),
        line(0, "a"),
    ];
    assert_eq!(event_order(&events), vec![4, 2, 3, 1, 0]);
}

#[test]
fn completion_reports_build_then_save() {
    match build_completion("img".to_string(), Err("podman build exited".to_string()), None) {
        BuildEvent::BuildComplete { result, tarball_written, .. } => {
            assert_eq!(result, Err("podman build exited".to_string()));
            assert!(!tarball_written);
        }
        _ => panic!("expected completion"),
    }
    match build_completion("img".to_string(), Ok(()), Some(Err("disk full".to_string()))) {
        BuildEvent::BuildComplete { result, tarball_written, .. } => {
            assert_eq!(result, Err("Save error: disk full".to_string()));
            assert!(!tarball_written);
        }
        _ => panic!("expected completion"),
    }
    match build_completion("img".to_string(), Ok(()), Some(Ok(()))) {
        BuildEvent::BuildComplete { image_name, result, tarball_written } => {
            assert_eq!(image_name, "img");
            assert_eq!(result, Ok(()));
            assert!(tarball_written);
        }
        _ => panic!("expected completion"),
    }
}
