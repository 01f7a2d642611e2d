//! The autostart orchestrator's decisions. For each descriptor file the
//! orchestrator parses the lines and decides: skip a file that could not be
//! read, skip one marked `Hidden=true`, skip one without an `Exec` entry, and
//! for any other build the shell command from its sanitized `Exec` value. Each
//! file's outcome is independent of every other file's: a best-effort batch,
//! never all-or-nothing.

use vstd::prelude::*;

use crate::desktop::{parse_desktop_file, parse_lines};
use crate::sanitize::{sanitize_spec, shell_command, wrap_spec};
use crate::text::str_eq;

verus! {

/// The supervisor of session child processes. It carries no state of its own:
/// it decides, per descriptor, what to launch, and the caller owns the
/// resulting registry.
#[derive(PartialEq, Eq, Structural, Clone, Copy, Debug)]
pub struct Nanny {}

impl Nanny {
    /// A new supervisor.
    pub fn new() -> (n: Nanny)
        ensures
            n == (Nanny {  }),
    {
        Nanny {  }
    }
}

impl Default for Nanny {
    fn default() -> (n: Nanny)
        ensures
            n == (Nanny {  }),
    {
        Nanny {  }
    }
}

/// The orchestrator's decision for one descriptor file.
pub enum BootPlan {
    /// Launch the descriptor: the string to hand the shell.
    Launch(String),
    /// Skip the descriptor: it says `Hidden=true`.
    SkippedHidden,
    /// Skip the descriptor: it has no `Exec` entry.
    SkippedNoExec,
    /// Skip the descriptor: its file could not be read as text. Parsing
    /// itself cannot fail; only reading can.
    ReadFailed,
}

/// Whether the parsed entries mark the descriptor hidden.
pub open spec fn hidden_set(m: Map<Seq<char>, Seq<char>>) -> bool {
    m.contains_key("Hidden"@) && m["Hidden"@] == "true"@
}

/// Whether `p` is the decision owed for the entry map `m` of a readable
/// descriptor: hidden descriptors are skipped whatever else they hold, then
/// descriptors without `Exec`, and every other descriptor launches the
/// wrapped, sanitized `Exec` value.
pub open spec fn plan_for(m: Map<Seq<char>, Seq<char>>, p: BootPlan) -> bool {
    match p {
        BootPlan::Launch(cmd) => !hidden_set(m) && m.contains_key("Exec"@) && cmd@ == wrap_spec(
            sanitize_spec(m["Exec"@]),
        ),
        BootPlan::SkippedHidden => hidden_set(m),
        BootPlan::SkippedNoExec => !hidden_set(m) && !m.contains_key("Exec"@),
        BootPlan::ReadFailed => false,
    }
}

/// A descriptor whose entries say `Hidden=true` is excluded from the
/// orchestration result regardless of its other keys: the only decision owed
/// for it is the hidden skip, never a launch.
pub proof fn lemma_hidden_is_excluded(m: Map<Seq<char>, Seq<char>>, p: BootPlan)
    requires
        hidden_set(m),
        plan_for(m, p),
    ensures
        p is SkippedHidden,
{
}

/// A descriptor without an `Exec` entry is excluded from the orchestration
/// result: the only decision owed for it is a skip, never a launch.
pub proof fn lemma_missing_exec_is_excluded(m: Map<Seq<char>, Seq<char>>, p: BootPlan)
    requires
        !m.contains_key("Exec"@),
        plan_for(m, p),
    ensures
        p is SkippedHidden || p is SkippedNoExec,
{
}

/// Decide one descriptor file, given its lines.
pub fn boot_plan(lines: &Vec<String>) -> (p: BootPlan)
    ensures
        plan_for(parse_lines(lines.deep_view()), p),
{
    let entries = parse_desktop_file(lines);
    let hidden = entries.get("Hidden");
    match hidden {
        Some(v) => {
            if str_eq(v.as_str(), "true") {
                return BootPlan::SkippedHidden;
            }
        },
        None => {},
    }
    let cmd = entries.get("Exec");
    match cmd {
        Some(v) => BootPlan::Launch(shell_command(v.as_str())),
        None => BootPlan::SkippedNoExec,
    }
}

/// Decide one descriptor file from its read outcome: a file that could not be
/// read or decoded is skipped as a read failure, without aborting the batch.
pub fn plan_file(read: &Option<Vec<String>>) -> (p: BootPlan)
    ensures
        read matches Some(lines) ==> plan_for(parse_lines(lines.deep_view()), p),
        read is None <==> p is ReadFailed,
{
    match read {
        Some(lines) => {
            let p = boot_plan(lines);
            proof {
                assert(!(p is ReadFailed));
            }
            p
        },
        None => BootPlan::ReadFailed,
    }
}

/// The script the theme launcher runs, relative to the configuration base
/// directory. Its absence is a normal, expected state, not an error.
pub fn theme_script_path() -> (r: &'static str)
    ensures
        r@ == "themes/current/up"@,
{
    "themes/current/up"
}

} // verus!
