use conway::input::{path_text, MAX_PATH_INPUT};
use std::path::PathBuf;

/// What the program follows when `buffer` is piped in: the file it names,
/// if there is one.
fn path_from(buffer: &[u8]) -> Option<PathBuf> {
    path_text(buffer).map(PathBuf::from).filter(|path| path.is_file())
}

/// A file that every Linux system has, in place of one of this package.
fn manifest(name: &str) -> String {
    match name {
        "Cargo.toml" => "/etc/passwd".to_string(),
        other => format!("/etc/{other}"),
    }
}

#[test]
fn a_lone_existing_path_is_followed() {
    let text = manifest("Cargo.toml");
    assert_eq!(path_from(text.as_bytes()), Some(PathBuf::from(&text)));
}

#[test]
fn surrounding_whitespace_is_trimmed() {
    let text = format!("  {}\n", manifest("Cargo.toml"));
    assert_eq!(path_from(text.as_bytes()), Some(PathBuf::from(manifest("Cargo.toml"))));
}

#[test]
fn multiple_lines_stay_data() {
    let text = format!("{}\n{}", manifest("Cargo.toml"), manifest("Cargo.lock"));
    assert_eq!(path_from(text.as_bytes()), None);
}

#[test]
fn directories_are_not_followed() {
    assert_eq!(path_from(b"/etc"), None);
}

#[test]
fn missing_paths_stay_data() {
    assert_eq!(path_from(b"/definitely/not/here.bin"), None);
}

#[test]
fn empty_and_binary_input_stays_data() {
    assert_eq!(path_from(b""), None);
    assert_eq!(path_from(b"   \n"), None);
    assert_eq!(path_from(&[0xff, 0xfe, 0x00, 0x01]), None);
}

#[test]
fn oversized_input_stays_data() {
    let text = manifest("Cargo.toml");
    let padded = format!("{text}{}", " ".repeat(MAX_PATH_INPUT));
    assert_eq!(path_from(padded.as_bytes()), None);
}
