//! The decisions behind system introspection and sandboxed shell command
//! execution: the timeout, the shell invocation, the output budget, and
//! the shape of what is reported.

use vstd::prelude::*;
use crate::errors::CoreError;
use crate::guardrails::truncation::{is_truncation_of, truncate_output};
use crate::text::{decimal, decimal_chars, parse_u64, parse_unsigned, string_of};

verus! {

/// Timeout when a call gives none and `AI_COMMAND_TIMEOUT_SECONDS` is
/// unset or does not parse.
pub const DEFAULT_TIMEOUT_SECS: u64 = 30;

/// Ceiling every timeout is clamped to, whatever its source.
pub const MAX_TIMEOUT_SECS: u64 = 300;

/// The timeout configured by the text of `AI_COMMAND_TIMEOUT_SECONDS`:
/// its value when it parses as a `u64`, else the default.
pub open spec fn timeout_from_setting(setting: Option<Seq<char>>) -> nat {
    match setting {
        Some(s) => match parse_unsigned(s, u64::MAX as nat) {
            Some(v) => v,
            None => DEFAULT_TIMEOUT_SECS as nat,
        },
        None => DEFAULT_TIMEOUT_SECS as nat,
    }
}

/// `v` clamped to `1..=MAX_TIMEOUT_SECS`.
pub open spec fn clamp_timeout(v: nat) -> nat {
    if v < 1 {
        1
    } else if v > MAX_TIMEOUT_SECS {
        MAX_TIMEOUT_SECS as nat
    } else {
        v
    }
}

/// The timeout of a command: the requested one, else the configured one,
/// clamped.
pub open spec fn timeout_secs(requested: Option<u64>, setting: Option<Seq<char>>) -> nat {
    clamp_timeout(
        match requested {
            Some(r) => r as nat,
            None => timeout_from_setting(setting),
        },
    )
}

/// The view of an optional text.
pub open spec fn opt_view(s: Option<&str>) -> Option<Seq<char>> {
    match s {
        Some(t) => Some(t@),
        None => None,
    }
}

/// Resolves the wall-clock timeout, in seconds, of a command: an explicit
/// `requested` value wins, then the text of `AI_COMMAND_TIMEOUT_SECONDS`
/// (`setting`), then [`DEFAULT_TIMEOUT_SECS`]; always clamped to
/// `1..=`[`MAX_TIMEOUT_SECS`].
pub fn resolve_timeout(requested: Option<u64>, setting: Option<&str>) -> (r: u64)
    ensures
        r as nat == timeout_secs(requested, opt_view(setting)),
{
    let chosen = match requested {
        Some(v) => v,
        None => match setting {
            Some(s) => match parse_u64(s) {
                Some(v) => v,
                None => DEFAULT_TIMEOUT_SECS,
            },
            None => DEFAULT_TIMEOUT_SECS,
        },
    };
    if chosen < 1 {
        1
    } else if chosen > MAX_TIMEOUT_SECS {
        MAX_TIMEOUT_SECS
    } else {
        chosen
    }
}

/// Every resolved timeout lies in `1..=MAX_TIMEOUT_SECS`, and an explicit
/// request within those bounds is used as given.
pub proof fn law_timeouts_are_bounded_and_requests_win(requested: Option<u64>, setting: Option<Seq<char>>)
    ensures
        1 <= timeout_secs(requested, setting) <= MAX_TIMEOUT_SECS,
        (requested matches Some(r) && 1 <= r <= MAX_TIMEOUT_SECS) ==> timeout_secs(
            requested,
            setting,
        ) == requested->Some_0,
{
}

/// The message of a command that ran past its timeout of `secs` seconds.
pub open spec fn timeout_text(secs: nat) -> Seq<char> {
    "Command execution timed out after "@ + decimal(secs)
        + "s; pass a larger timeout_seconds (at most 300) if the command needs more time"@
}

/// The error reported when a command runs past its timeout of `secs`
/// seconds.
pub fn timeout_error(secs: u64) -> (r: CoreError)
    requires
        secs <= MAX_TIMEOUT_SECS,
    ensures
        r matches CoreError::Command(m) && m@ == timeout_text(secs as nat),
{
    let n = string_of(decimal_chars(secs as usize).as_slice());
    let mut m = String::from_str("Command execution timed out after ");
    m.append(n.as_str());
    m.append("s; pass a larger timeout_seconds (at most 300) if the command needs more time");
    CoreError::Command(m)
}

/// How a command is run: the shell, its arguments, the directory it runs
/// in (the server's own when `None`) and its timeout.
#[derive(Debug)]
pub struct CommandPlan {
    pub program: String,
    pub args: Vec<String>,
    pub working_directory: Option<String>,
    pub timeout_secs: u64,
}

/// Plans the shell invocation of `command` (`cmd /C` on Windows, `sh -c`
/// elsewhere): in `working_directory` when given, else in `workspace_root`
/// (the text of `AI_WORKSPACE_ROOT`) when set, with the resolved timeout.
pub fn plan_command(
    command: &str,
    working_directory: Option<&str>,
    workspace_root: Option<&str>,
    timeout_seconds: Option<u64>,
    timeout_setting: Option<&str>,
    windows: bool,
) -> (r: CommandPlan)
    ensures
        r.program@ == (if windows {
            "cmd"@
        } else {
            "sh"@
        }),
        r.args@.len() == 2,
        r.args@[0]@ == (if windows {
            "/C"@
        } else {
            "-c"@
        }),
        r.args@[1]@ == command@,
        match r.working_directory {
            Some(d) => match working_directory {
                Some(w) => d@ == w@,
                None => (workspace_root matches Some(w) && d@ == w@),
            },
            None => working_directory is None && workspace_root is None,
        },
        r.timeout_secs as nat == timeout_secs(timeout_seconds, opt_view(timeout_setting)),
{
    let mut args: Vec<String> = Vec::new();
    args.push(String::from_str(if windows {
        "/C"
    } else {
        "-c"
    }));
    args.push(String::from_str(command));
    let dir = match working_directory {
        Some(w) => Some(String::from_str(w)),
        None => match workspace_root {
            Some(w) => Some(String::from_str(w)),
            None => None,
        },
    };
    CommandPlan {
        program: String::from_str(if windows {
            "cmd"
        } else {
            "sh"
        }),
        args,
        working_directory: dir,
        timeout_secs: resolve_timeout(timeout_seconds, timeout_setting),
    }
}

/// Whether `buffered` bytes of standard output exceed the budget of four
/// times the character limit, at which point the command is killed.
pub fn exceeds_output_budget(buffered: usize, limit: usize) -> (r: bool)
    ensures
        r == (buffered > 4 * limit),
{
    if limit > usize::MAX / 4 {
        false
    } else {
        buffered > 4 * limit
    }
}

/// The text of `bytes` decoded as UTF-8, each invalid sequence replaced by
/// U+FFFD (`String::from_utf8_lossy`).
pub uninterp spec fn utf8_lossy_text(bytes: Seq<u8>) -> Seq<char>;

/// Decodes `bytes` as UTF-8, replacing invalid sequences
/// (`String::from_utf8_lossy`). The text is named, not stated.
#[verifier::external_body]
fn utf8_lossy(bytes: &[u8]) -> (r: String)
    ensures
        r@ == utf8_lossy_text(bytes@),
{
    String::from_utf8_lossy(bytes).into_owned()
}

/// What a finished command reports.
#[derive(Debug)]
pub struct CommandOutcome {
    /// The exit code, `-1` when the command was ended by a signal.
    pub exit_code: i32,
    /// Standard output, truncated to the character limit.
    pub stdout: String,
    /// `"success"` or `"truncated"`, for standard output.
    pub status: String,
    /// Where the rest of standard output begins when it was truncated.
    pub next_offset: Option<usize>,
    /// Standard error, whole.
    pub stderr: String,
}

/// Assembles the report of a finished command from its exit code and the
/// bytes it wrote: standard output decoded and truncated to `limit`
/// characters, standard error decoded whole.
pub fn command_outcome(exit_code: Option<i32>, stdout: &[u8], stderr: &[u8], limit: usize) -> (r: CommandOutcome)
    ensures
        r.exit_code == match exit_code {
            Some(c) => c,
            None => -1i32,
        },
        ({
            let out = utf8_lossy_text(stdout@);
            let t = crate::guardrails::truncation::TruncateResult {
                content: r.stdout,
                status: r.status,
                next_offset: r.next_offset,
            };
            is_truncation_of(t, out, limit as nat)
        }),
        r.stderr@ == utf8_lossy_text(stderr@),
{
    let out = utf8_lossy(stdout);
    let err = utf8_lossy(stderr);
    let t = truncate_output(out.as_str(), limit);
    CommandOutcome {
        exit_code: match exit_code {
            Some(c) => c,
            None => -1,
        },
        stdout: t.content,
        status: t.status,
        next_offset: t.next_offset,
        stderr: err,
    }
}

/// The free space of all disks together.
pub open spec fn total_free(disks: Seq<u64>) -> nat
    decreases disks.len(),
{
    if disks.len() == 0 {
        0
    } else {
        total_free(disks.drop_last()) + disks.last() as nat
    }
}

/// A snapshot of the system a command would run on.
#[derive(Debug)]
pub struct SystemContext {
    pub os: String,
    pub cpu_cores: usize,
    pub hostname: String,
    pub disk_free_bytes: u64,
    pub uid: String,
    pub gid: String,
}

/// `s`, or `fallback` when absent.
pub open spec fn or_text(s: Option<String>, fallback: Seq<char>) -> Seq<char> {
    match s {
        Some(t) => t@,
        None => fallback,
    }
}

fn or_string(s: Option<String>, fallback: &str) -> (r: String)
    ensures
        r@ == or_text(s, fallback@),
{
    match s {
        Some(t) => t,
        None => String::from_str(fallback),
    }
}

/// Builds the system context: the OS and host names (`"Unknown"` when not
/// reported), the CPU core count, the free space summed over all disks,
/// and the process's user and group ids (`"N/A"` when not reported).
pub fn system_context(
    os_name: Option<String>,
    host_name: Option<String>,
    cpu_cores: usize,
    disk_free: &[u64],
    uid: Option<String>,
    gid: Option<String>,
) -> (r: SystemContext)
    requires
        total_free(disk_free@) <= u64::MAX,
    ensures
        r.os@ == or_text(os_name, "Unknown"@),
        r.hostname@ == or_text(host_name, "Unknown"@),
        r.cpu_cores == cpu_cores,
        r.disk_free_bytes == total_free(disk_free@),
        r.uid@ == or_text(uid, "N/A"@),
        r.gid@ == or_text(gid, "N/A"@),
{
    let mut total: u64 = 0;
    let mut i: usize = 0;
    while i < disk_free.len()
        invariant
            i <= disk_free@.len(),
            total == total_free(disk_free@.take(i as int)),
            total_free(disk_free@) <= u64::MAX,
        decreases disk_free.len() - i,
    {
        assert(disk_free@.take(i + 1).drop_last() == disk_free@.take(i as int));
        proof {
            lemma_total_free_prefix(disk_free@, i + 1);
        }
        total = total + disk_free[i];
        i = i + 1;
    }
    assert(disk_free@.take(disk_free@.len() as int) == disk_free@);
    SystemContext {
        os: or_string(os_name, "Unknown"),
        cpu_cores,
        hostname: or_string(host_name, "Unknown"),
        disk_free_bytes: total,
        uid: or_string(uid, "N/A"),
        gid: or_string(gid, "N/A"),
    }
}

proof fn lemma_total_free_prefix(disks: Seq<u64>, k: int)
    requires
        0 <= k <= disks.len(),
    ensures
        total_free(disks.take(k)) <= total_free(disks),
    decreases disks.len() - k,
{
    if k < disks.len() {
        lemma_total_free_prefix(disks, k + 1);
        assert(disks.take(k + 1).drop_last() == disks.take(k));
    } else {
        assert(disks.take(k) == disks);
    }
}

/// The documented timeout rule: 30 seconds when nothing is asked for or
/// configured, a request above 300 seconds capped at 300, and a request of
/// 0 raised to 1.
pub proof fn law_timeout_defaults_and_cap(requested: Option<u64>, setting: Option<Seq<char>>)
    ensures
        timeout_secs(None, None) == 30,
        (requested matches Some(r) && r > 300) ==> timeout_secs(requested, setting) == 300,
        requested == Some(0u64) ==> timeout_secs(requested, setting) == 1,
{
}

} // verus!
