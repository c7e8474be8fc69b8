use ghostty_web::active_process::{active_process, command_text, pgrep_args, pgrep_child, ps_args};
use ghostty_web::assets::snippet_asset;

#[test]
fn active_process_falls_back_to_idle() {
    assert_eq!(active_process(Some("vim".to_string())), "vim");
    assert_eq!(active_process(Some(String::new())), "(idle)");
    assert_eq!(active_process(None), "(idle)");
}

#[test]
fn command_arguments() {
    assert_eq!(pgrep_args(1234), vec!["-n", "-P", "1234"]);
    assert_eq!(pgrep_args(0), vec!["-n", "-P", "0"]);
    assert_eq!(ps_args("99"), vec!["-o", "comm=", "-p", "99"]);
}

#[test]
fn command_output_is_trimmed() {
    assert_eq!(command_text(true, b"  bash\n"), Some("bash".to_string()));
    assert_eq!(command_text(false, b"bash\n"), None);
    assert_eq!(command_text(true, &[b'x', 0xFF, b'\n']), Some("x\u{FFFD}".to_string()));
}

#[test]
fn pgrep_child_needs_output() {
    assert_eq!(pgrep_child(true, b"4321\n"), Some("4321".to_string()));
    assert_eq!(pgrep_child(true, b"\n"), None);
    assert_eq!(pgrep_child(false, b"4321\n"), None);
}

#[test]
fn snippet_assets_get_guessed_types() {
    let (path, mime) = snippet_asset("abc/dyn_import.js");
    assert_eq!(path, "snippets/abc/dyn_import.js");
    assert_eq!(mime, "text/javascript");
    let (path, mime) = snippet_asset("noext");
    assert_eq!(path, "snippets/noext");
    assert_eq!(mime, "application/octet-stream");
}
