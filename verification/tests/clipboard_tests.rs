use pbcat::clipboard::{delivery_verdict, preferred_clipboard_tools, AttemptOutcome, Platform};
use pbcat::errors::PbError;

fn attempt(spawned: bool, wrote: bool, exit_ok: bool, bytes: usize, error: &str) -> AttemptOutcome {
    AttemptOutcome { spawned, wrote, exit_ok, bytes, error: error.to_string() }
}

#[test]
fn macos_prefers_pbcopy() {
    let tools = preferred_clipboard_tools(Platform::MacOs);
    assert_eq!(tools.len(), 1);
    assert_eq!(tools[0].program, "pbcopy");
    assert!(tools[0].args.is_empty());
}

#[test]
fn linux_tries_wayland_then_x11_tools() {
    let tools = preferred_clipboard_tools(Platform::Linux);
    assert_eq!(tools.len(), 3);
    assert_eq!(tools[0].program, "wl-copy");
    assert!(tools[0].args.is_empty());
    assert_eq!(tools[1].program, "xclip");
    assert_eq!(tools[1].args, vec!["-selection".to_string(), "clipboard".to_string()]);
    assert_eq!(tools[2].program, "xsel");
    assert_eq!(tools[2].args, vec!["--clipboard".to_string(), "--input".to_string()]);
}

#[test]
fn windows_tries_clip_then_powershell() {
    let tools = preferred_clipboard_tools(Platform::Windows);
    assert_eq!(tools.len(), 2);
    assert_eq!(tools[0].program, "clip");
    assert!(tools[0].args.is_empty());
    assert_eq!(tools[1].program, "powershell");
    assert_eq!(
        tools[1].args,
        vec!["-NoProfile".to_string(), "-Command".to_string(), "Set-Clipboard".to_string()]
    );
}

#[test]
fn unknown_platform_has_no_tools() {
    let tools = preferred_clipboard_tools(Platform::Other);
    assert!(tools.is_empty());
}

#[test]
fn first_successful_attempt_wins() {
    let attempts = vec![
        attempt(false, false, false, 0, "pbcopy: not found"),
        attempt(true, true, true, 42, ""),
        attempt(true, true, true, 99, ""),
    ];
    assert_eq!(delivery_verdict(&attempts).unwrap(), 42);
}

#[test]
fn all_failures_surface_the_last_error() {
    let attempts = vec![
        attempt(false, false, false, 0, "wl-copy: not found"),
        attempt(true, true, false, 0, "xclip exited with status 1"),
        attempt(true, false, true, 0, "xsel exited with status 0"),
    ];
    let err = delivery_verdict(&attempts).unwrap_err();
    assert_eq!(
        err,
        PbError::ClipboardUnavailable { detail: "xsel exited with status 0".to_string() }
    );
}

#[test]
fn no_candidates_reports_fixed_message() {
    let attempts: Vec<AttemptOutcome> = Vec::new();
    let err = delivery_verdict(&attempts).unwrap_err();
    assert_eq!(
        err,
        PbError::ClipboardUnavailable {
            detail: "No supported clipboard utility found (tried pbcopy/wl-copy/xclip/xsel)"
                .to_string()
        }
    );
}

#[test]
fn a_write_failure_disqualifies_a_candidate() {
    let attempts = vec![attempt(true, false, true, 7, "pbcopy exited with status 0")];
    let err = delivery_verdict(&attempts).unwrap_err();
    assert_eq!(
        err,
        PbError::ClipboardUnavailable { detail: "pbcopy exited with status 0".to_string() }
    );
}
