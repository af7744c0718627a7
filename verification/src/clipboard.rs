use vstd::prelude::*;
use vstd::string::StringExecFns;
use crate::errors::PbError;
use crate::text::str_views;

verus! {

/// One candidate clipboard program: what to launch and with which arguments.
#[derive(Debug)]
pub struct ClipboardTool {
    pub program: String,
    pub args: Vec<String>,
}

/// The platform the tool list is chosen for, detected at run time.
#[derive(Clone, Copy, PartialEq, Eq, Structural, Debug)]
pub enum Platform {
    MacOs,
    Linux,
    Windows,
    Other,
}

/// The ordered candidate clipboard programs for a platform. Candidates are
/// tried first to last; an unknown platform has none.
pub fn preferred_clipboard_tools(platform: Platform) -> (r: Vec<ClipboardTool>)
    ensures
        platform == Platform::MacOs ==> (r@.len() == 1 && r@[0].program@ == "pbcopy"@
            && r@[0].args@.len() == 0),
        platform == Platform::Linux ==> (r@.len() == 3 && r@[0].program@ == "wl-copy"@
            && r@[0].args@.len() == 0 && r@[1].program@ == "xclip"@ && str_views(r@[1].args@)
            == seq!["-selection"@, "clipboard"@] && r@[2].program@ == "xsel"@ && str_views(
            r@[2].args@,
        ) == seq!["--clipboard"@, "--input"@]),
        platform == Platform::Windows ==> (r@.len() == 2 && r@[0].program@ == "clip"@
            && r@[0].args@.len() == 0 && r@[1].program@ == "powershell"@ && str_views(r@[1].args@)
            == seq!["-NoProfile"@, "-Command"@, "Set-Clipboard"@]),
        platform == Platform::Other ==> r@.len() == 0,
{
    let mut tools: Vec<ClipboardTool> = Vec::new();
    match platform {
        Platform::MacOs => {
            tools.push(ClipboardTool { program: String::from_str("pbcopy"), args: Vec::new() });
        },
        Platform::Linux => {
            tools.push(ClipboardTool { program: String::from_str("wl-copy"), args: Vec::new() });
            let mut xclip_args: Vec<String> = Vec::new();
            xclip_args.push(String::from_str("-selection"));
            xclip_args.push(String::from_str("clipboard"));
            proof {
                assert(str_views(xclip_args@) =~= seq!["-selection"@, "clipboard"@]);
            }
            tools.push(ClipboardTool { program: String::from_str("xclip"), args: xclip_args });
            let mut xsel_args: Vec<String> = Vec::new();
            xsel_args.push(String::from_str("--clipboard"));
            xsel_args.push(String::from_str("--input"));
            proof {
                assert(str_views(xsel_args@) =~= seq!["--clipboard"@, "--input"@]);
            }
            tools.push(ClipboardTool { program: String::from_str("xsel"), args: xsel_args });
        },
        Platform::Windows => {
            tools.push(ClipboardTool { program: String::from_str("clip"), args: Vec::new() });
            let mut ps_args: Vec<String> = Vec::new();
            ps_args.push(String::from_str("-NoProfile"));
            ps_args.push(String::from_str("-Command"));
            ps_args.push(String::from_str("Set-Clipboard"));
            proof {
                assert(str_views(ps_args@) =~= seq!["-NoProfile"@, "-Command"@, "Set-Clipboard"@]);
            }
            tools.push(ClipboardTool { program: String::from_str("powershell"), args: ps_args });
        },
        Platform::Other => {},
    }
    tools
}

/// What one candidate attempt came to: whether the process spawned, whether
/// the whole output was written to its input, whether it exited successfully,
/// how many bytes were delivered, and a description of any failure.
#[derive(Debug)]
pub struct AttemptOutcome {
    pub spawned: bool,
    pub wrote: bool,
    pub exit_ok: bool,
    pub bytes: usize,
    pub error: String,
}

/// A candidate succeeds only when it spawned, took the whole stream, and
/// exited with a success status.
pub open spec fn attempt_ok(a: AttemptOutcome) -> bool {
    a.spawned && a.wrote && a.exit_ok
}

/// Index of the first successful attempt, or the length when none succeeded.
pub open spec fn first_ok(attempts: Seq<AttemptOutcome>) -> int
    decreases attempts.len(),
{
    if attempts.len() == 0 {
        0
    } else if attempt_ok(attempts[0]) {
        0
    } else {
        1 + first_ok(attempts.drop_first())
    }
}

proof fn lemma_first_ok(s: Seq<AttemptOutcome>, i: int)
    requires
        0 <= i < s.len(),
        attempt_ok(s[i]),
        forall|j: int| 0 <= j < i ==> !attempt_ok(s[j]),
    ensures
        first_ok(s) == i,
    decreases i,
{
    if i > 0 {
        assert(!attempt_ok(s[0]));
        assert(s.drop_first()[i - 1] == s[i]);
        assert forall|j: int| 0 <= j < i - 1 implies !attempt_ok(s.drop_first()[j]) by {
            assert(s.drop_first()[j] == s[j + 1]);
        }
        lemma_first_ok(s.drop_first(), i - 1);
    }
}

/// Judge a fallback chain of candidate attempts, first to last: the first
/// success delivers its byte count; when every candidate failed, the
/// clipboard is unavailable and the last failure explains why; with no
/// candidate at all, a fixed explanation stands in.
pub fn delivery_verdict(attempts: &Vec<AttemptOutcome>) -> (r: Result<usize, PbError>)
    ensures
        (exists|i: int| 0 <= i < attempts@.len() && attempt_ok(attempts@[i])) ==> (r matches Ok(b)
            && 0 <= first_ok(attempts@) < attempts@.len() && attempt_ok(
            attempts@[first_ok(attempts@)],
        ) && b == attempts@[first_ok(attempts@)].bytes),
        (forall|i: int| 0 <= i < attempts@.len() ==> !attempt_ok(attempts@[i]))
            && attempts@.len() > 0 ==> (r matches Err(e) && e matches PbError::ClipboardUnavailable {
            detail,
        } && detail@ == attempts@.last().error@),
        attempts@.len() == 0 ==> (r matches Err(e) && e matches PbError::ClipboardUnavailable {
            detail,
        } && detail@ == "No supported clipboard utility found (tried pbcopy/wl-copy/xclip/xsel)"@),
{
    let n = attempts.len();
    let mut i: usize = 0;
    while i < n
        invariant
            n == attempts@.len(),
            i <= n,
            forall|j: int| 0 <= j < i ==> !attempt_ok(attempts@[j]),
        decreases n - i,
    {
        let a = &attempts[i];
        if a.spawned && a.wrote && a.exit_ok {
            proof {
                lemma_first_ok(attempts@, i as int);
            }
            return Ok(a.bytes);
        }
        i += 1;
    }
    if n == 0 {
        Err(
            PbError::ClipboardUnavailable {
                detail: String::from_str(
                    "No supported clipboard utility found (tried pbcopy/wl-copy/xclip/xsel)",
                ),
            },
        )
    } else {
        Err(PbError::ClipboardUnavailable { detail: attempts[n - 1].error.clone() })
    }
}

} // verus!
