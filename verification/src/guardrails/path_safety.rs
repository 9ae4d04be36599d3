//! Path safety validation: rejecting catastrophic mutation targets and,
//! optionally, anything outside a configured workspace root.

use vstd::prelude::*;
use crate::errors::{CoreError, CoreResult};
use crate::guardrails::lexical::{
    components, components_exec, is_current_dir_equivalent, is_absolute, is_prefix_of,
    is_prefix_of_exec, join_path, join_path_exec, normalized_components,
    normalized_components_exec,
};
use crate::text::{
    chars_eq, chars_of, contains_char, ends_with, ends_with_chars, lowercase, lowercase_text,
    string_of, trim, trim_chars, lemma_trim_idempotent,
};

verus! {

/// What the optional workspace confinement (`AI_WORKSPACE_ROOT`) is.
pub enum WorkspaceRoot {
    /// Not configured: no confinement.
    Unset,
    /// Configured, but the setting does not name a directory.
    Invalid { setting: String, reason: String },
    /// Configured: the canonical root, and the current directory (or why
    /// it could not be determined) against which relative paths resolve.
    Root { root: String, cwd: Result<String, String> },
}

/// Why a path is refused.
#[derive(Debug, PartialEq, Eq, Structural, Clone, Copy)]
pub enum PathRejection {
    Empty,
    CurrentDir,
    NulByte,
    DangerousTarget,
    Wildcard,
    CriticalDir,
    InvalidWorkspaceRoot,
    CurrentDirUnavailable,
    OutsideWorkspace,
}

/// `s` without its trailing `/` and `\` characters.
pub open spec fn trim_end_separators(s: Seq<char>) -> Seq<char>
    decreases s.len(),
{
    if s.len() > 0 && (s.last() == '/' || s.last() == '\\') {
        trim_end_separators(s.drop_last())
    } else {
        s
    }
}

/// One of the top-level system directories no mutation may target directly.
pub open spec fn is_critical_dir_name(n: Seq<char>) -> bool {
    ||| n == "/etc"@
    ||| n == "/bin"@
    ||| n == "/sbin"@
    ||| n == "/usr"@
    ||| n == "/boot"@
    ||| n == "/dev"@
    ||| n == "/proc"@
    ||| n == "/sys"@
    ||| n == "/root"@
    ||| n == "/system"@
    ||| n == "/library"@
    ||| n == "c:\\windows"@
    ||| n == "c:\\program files"@
    ||| n == "c:\\program files (x86)"@
}

/// `t` names a critical system directory exactly: case-insensitively,
/// ignoring trailing separators.
pub open spec fn is_critical_system_dir(t: Seq<char>) -> bool {
    is_critical_dir_name(lowercase_text(trim_end_separators(t)))
}

/// `t` ends in a wildcard pattern (`/*`, `/.*`, `\*`, `\.*`).
pub open spec fn ends_in_wildcard(t: Seq<char>) -> bool {
    ||| ends_with(t, "/*"@)
    ||| ends_with(t, "/.*"@)
    ||| ends_with(t, "\\*"@)
    ||| ends_with(t, "\\.*"@)
}

/// The reason confinement to `ws` refuses the (trimmed) path `t`, if any:
/// `t` resolved against the current directory and collapsed lexically must
/// start with the root, component by component.
pub open spec fn workspace_rejection(t: Seq<char>, ws: WorkspaceRoot) -> Option<PathRejection> {
    match ws {
        WorkspaceRoot::Unset => None,
        WorkspaceRoot::Invalid { .. } => Some(PathRejection::InvalidWorkspaceRoot),
        WorkspaceRoot::Root { root, cwd } => {
            if !is_absolute(t) && cwd is Err {
                Some(PathRejection::CurrentDirUnavailable)
            } else {
                let resolved = if is_absolute(t) {
                    t
                } else {
                    join_path(cwd->Ok_0@, t)
                };
                if is_prefix_of(components(root@), normalized_components(resolved)) {
                    None
                } else {
                    Some(PathRejection::OutsideWorkspace)
                }
            }
        },
    }
}

/// The checks both validations share, on the trimmed path `t`, in order.
pub open spec fn common_rejection(t: Seq<char>, ws: WorkspaceRoot) -> Option<PathRejection> {
    if t.contains('\0') {
        Some(PathRejection::NulByte)
    } else if t == "/"@ || t == "*"@ || t == "~"@ {
        Some(PathRejection::DangerousTarget)
    } else if ends_in_wildcard(t) {
        Some(PathRejection::Wildcard)
    } else if is_critical_system_dir(t) {
        Some(PathRejection::CriticalDir)
    } else {
        workspace_rejection(t, ws)
    }
}

/// Why `path` may not be the target of a mutation, if it may not.
pub open spec fn mutation_rejection(path: Seq<char>, ws: WorkspaceRoot) -> Option<PathRejection> {
    let t = trim(path);
    if t.len() == 0 {
        Some(PathRejection::Empty)
    } else if is_current_dir_equivalent(t) {
        Some(PathRejection::CurrentDir)
    } else {
        common_rejection(t, ws)
    }
}

/// Why `path` may not be read, if it may not: the mutation checks except
/// that the current directory is allowed.
pub open spec fn read_rejection(path: Seq<char>, ws: WorkspaceRoot) -> Option<PathRejection> {
    let t = trim(path);
    if t.len() == 0 {
        Some(PathRejection::Empty)
    } else {
        common_rejection(t, ws)
    }
}

/// The message for each rejection of the trimmed path `t`.
pub open spec fn rejection_text(r: PathRejection, t: Seq<char>, ws: WorkspaceRoot) -> Seq<char> {
    match r {
        PathRejection::Empty => "path is empty"@,
        PathRejection::CurrentDir => "dangerous path sequence '"@ + t
            + "' — this would target the entire current directory; pass a specific file or subdirectory instead"@,
        PathRejection::NulByte => "path contains a NUL byte"@,
        PathRejection::DangerousTarget => "dangerous path sequence '"@ + t
            + "' — this would target an entire filesystem root or every entry in a directory; pass a specific file or subdirectory instead"@,
        PathRejection::Wildcard => "wildcard target pattern '"@ + t
            + "' — pass an explicit file or directory path instead of a shell glob"@,
        PathRejection::CriticalDir => "operation targets a critical system directory '"@ + t
            + "' — operate on a specific path beneath it instead, e.g. '"@ + t + "/some-file'"@,
        PathRejection::InvalidWorkspaceRoot => match ws {
            WorkspaceRoot::Invalid { setting, reason } => "AI_WORKSPACE_ROOT '"@ + setting@
                + "' is not a valid directory: "@ + reason@,
            _ => Seq::<char>::empty(),
        },
        PathRejection::CurrentDirUnavailable => match ws {
            WorkspaceRoot::Root { cwd: Err(reason), .. } => "failed to resolve current directory: "@
                + reason@,
            _ => Seq::<char>::empty(),
        },
        PathRejection::OutsideWorkspace => match ws {
            WorkspaceRoot::Root { root, .. } => "path '"@ + t
                + "' is outside the configured workspace root '"@ + root@
                + "' — pass a path inside that directory instead"@,
            _ => Seq::<char>::empty(),
        },
    }
}

/// `s` without its trailing `/` and `\` characters.
pub fn trim_end_separators_exec(s: &[char]) -> (r: Vec<char>)
    ensures
        r@ == trim_end_separators(s@),
{
    let mut i: usize = s.len();
    assert(s@.take(s@.len() as int) == s@);
    while i > 0 && (s[i - 1] == '/' || s[i - 1] == '\\')
        invariant
            i <= s@.len(),
            trim_end_separators(s@.take(i as int)) == trim_end_separators(s@),
        decreases i,
    {
        assert(s@.take(i as int).drop_last() == s@.take(i - 1));
        i = i - 1;
    }
    assert(s@.take(s@.len() as int) == s@);
    crate::text::slice_range(s, 0, i)
}

fn is_literal(s: &[char], lit: &str) -> (r: bool)
    ensures
        r == (s@ == lit@),
{
    let l = chars_of(lit);
    chars_eq(s, l.as_slice())
}

/// Whether the trimmed path `t` names a critical system directory.
pub fn is_critical_system_dir_exec(t: &[char]) -> (r: bool)
    ensures
        r == is_critical_system_dir(t@),
{
    let trimmed = trim_end_separators_exec(t);
    let lower = lowercase(string_of(trimmed.as_slice()).as_str());
    let n = chars_of(lower.as_str());
    is_literal(n.as_slice(), "/etc") || is_literal(n.as_slice(), "/bin") || is_literal(
        n.as_slice(),
        "/sbin",
    ) || is_literal(n.as_slice(), "/usr") || is_literal(n.as_slice(), "/boot") || is_literal(
        n.as_slice(),
        "/dev",
    ) || is_literal(n.as_slice(), "/proc") || is_literal(n.as_slice(), "/sys") || is_literal(
        n.as_slice(),
        "/root",
    ) || is_literal(n.as_slice(), "/system") || is_literal(n.as_slice(), "/library")
        || is_literal(n.as_slice(), "c:\\windows") || is_literal(n.as_slice(), "c:\\program files")
        || is_literal(n.as_slice(), "c:\\program files (x86)")
}

fn ends_with_literal(s: &[char], lit: &str) -> (r: bool)
    ensures
        r == ends_with(s@, lit@),
{
    let l = chars_of(lit);
    ends_with_chars(s, l.as_slice())
}

/// The workspace-confinement check on the trimmed path `t`.
pub fn workspace_rejection_exec(t: &[char], ws: &WorkspaceRoot) -> (r: Option<PathRejection>)
    ensures
        r == workspace_rejection(t@, *ws),
{
    match ws {
        WorkspaceRoot::Unset => None,
        WorkspaceRoot::Invalid { .. } => Some(PathRejection::InvalidWorkspaceRoot),
        WorkspaceRoot::Root { root, cwd } => {
            let absolute = t.len() > 0 && t[0] == '/';
            assert(absolute == is_absolute(t@));
            let resolved = if absolute {
                let r = crate::text::slice_range(t, 0, t.len());
                assert(r@ == t@);
                r
            } else {
                match cwd {
                    Err(_) => {
                        return Some(PathRejection::CurrentDirUnavailable);
                    },
                    Ok(c) => {
                        let cc = chars_of(c.as_str());
                        join_path_exec(cc.as_slice(), t)
                    },
                }
            };
            let rc = chars_of(root.as_str());
            let root_components = components_exec(rc.as_slice());
            let resolved_components = normalized_components_exec(resolved.as_slice());
            if is_prefix_of_exec(&root_components, &resolved_components) {
                None
            } else {
                Some(PathRejection::OutsideWorkspace)
            }
        },
    }
}

/// The shared checks on the trimmed path `t`.
pub fn common_rejection_exec(t: &[char], ws: &WorkspaceRoot) -> (r: Option<PathRejection>)
    ensures
        r == common_rejection(t@, *ws),
{
    if contains_char(t, '\0') {
        Some(PathRejection::NulByte)
    } else if is_literal(t, "/") || is_literal(t, "*") || is_literal(t, "~") {
        Some(PathRejection::DangerousTarget)
    } else if ends_with_literal(t, "/*") || ends_with_literal(t, "/.*") || ends_with_literal(
        t,
        "\\*",
    ) || ends_with_literal(t, "\\.*") {
        Some(PathRejection::Wildcard)
    } else if is_critical_system_dir_exec(t) {
        Some(PathRejection::CriticalDir)
    } else {
        workspace_rejection_exec(t, ws)
    }
}

/// The message for a rejection of the trimmed path `t`.
pub fn rejection_message(r: PathRejection, t: &str, ws: &WorkspaceRoot) -> (m: String)
    ensures
        m@ == rejection_text(r, t@, *ws),
{
    match r {
        PathRejection::Empty => String::from_str("path is empty"),
        PathRejection::CurrentDir => {
            let mut m = String::from_str("dangerous path sequence '");
            m.append(t);
            m.append(
                "' — this would target the entire current directory; pass a specific file or subdirectory instead",
            );
            m
        },
        PathRejection::NulByte => String::from_str("path contains a NUL byte"),
        PathRejection::DangerousTarget => {
            let mut m = String::from_str("dangerous path sequence '");
            m.append(t);
            m.append(
                "' — this would target an entire filesystem root or every entry in a directory; pass a specific file or subdirectory instead",
            );
            m
        },
        PathRejection::Wildcard => {
            let mut m = String::from_str("wildcard target pattern '");
            m.append(t);
            m.append("' — pass an explicit file or directory path instead of a shell glob");
            m
        },
        PathRejection::CriticalDir => {
            let mut m = String::from_str("operation targets a critical system directory '");
            m.append(t);
            m.append("' — operate on a specific path beneath it instead, e.g. '");
            m.append(t);
            m.append("/some-file'");
            m
        },
        PathRejection::InvalidWorkspaceRoot => match ws {
            WorkspaceRoot::Invalid { setting, reason } => {
                let mut m = String::from_str("AI_WORKSPACE_ROOT '");
                m.append(setting.as_str());
                m.append("' is not a valid directory: ");
                m.append(reason.as_str());
                m
            },
            _ => String::new(),
        },
        PathRejection::CurrentDirUnavailable => match ws {
            WorkspaceRoot::Root { cwd: Err(reason), .. } => {
                let mut m = String::from_str("failed to resolve current directory: ");
                m.append(reason.as_str());
                m
            },
            _ => String::new(),
        },
        PathRejection::OutsideWorkspace => match ws {
            WorkspaceRoot::Root { root, .. } => {
                let mut m = String::from_str("path '");
                m.append(t);
                m.append("' is outside the configured workspace root '");
                m.append(root.as_str());
                m.append("' — pass a path inside that directory instead");
                m
            },
            _ => String::new(),
        },
    }
}

/// Validates a path before it is used as the target of a mutation
/// (delete, move, copy, mkdir, write, edit) under the workspace
/// confinement `ws`.
pub fn validate_path_safety_within(path: &str, ws: &WorkspaceRoot) -> (r: CoreResult<()>)
    ensures
        r is Ok <==> mutation_rejection(path@, *ws) is None,
        r matches Err(e) ==> e matches CoreError::Guardrail(m) && m@ == rejection_text(
            mutation_rejection(path@, *ws)->Some_0,
            trim(path@),
            *ws,
        ),
{
    let pc = chars_of(path);
    let t = trim_chars(pc.as_slice());
    let ts = string_of(t.as_slice());
    if t.len() == 0 {
        return Err(CoreError::Guardrail(rejection_message(PathRejection::Empty, ts.as_str(), ws)));
    }
    let nc = normalized_components_exec(t.as_slice());
    if nc.len() == 0 {
        return Err(
            CoreError::Guardrail(rejection_message(PathRejection::CurrentDir, ts.as_str(), ws)),
        );
    }
    match common_rejection_exec(t.as_slice(), ws) {
        Some(reason) => Err(CoreError::Guardrail(rejection_message(reason, ts.as_str(), ws))),
        None => Ok(()),
    }
}

/// Validates a path before it is used in a read-only operation (list,
/// stat, read, search) under the workspace confinement `ws`: the mutation
/// checks, except that the current directory is allowed.
pub fn validate_read_path_safety_within(path: &str, ws: &WorkspaceRoot) -> (r: CoreResult<()>)
    ensures
        r is Ok <==> read_rejection(path@, *ws) is None,
        r matches Err(e) ==> e matches CoreError::Guardrail(m) && m@ == rejection_text(
            read_rejection(path@, *ws)->Some_0,
            trim(path@),
            *ws,
        ),
{
    let pc = chars_of(path);
    let t = trim_chars(pc.as_slice());
    let ts = string_of(t.as_slice());
    if t.len() == 0 {
        return Err(CoreError::Guardrail(rejection_message(PathRejection::Empty, ts.as_str(), ws)));
    }
    match common_rejection_exec(t.as_slice(), ws) {
        Some(reason) => Err(CoreError::Guardrail(rejection_message(reason, ts.as_str(), ws))),
        None => Ok(()),
    }
}

/// Validates a mutation target with no workspace confinement configured.
pub fn validate_path_safety(path: &str) -> (r: CoreResult<()>)
    ensures
        r is Ok <==> mutation_rejection(path@, WorkspaceRoot::Unset) is None,
        r matches Err(e) ==> e matches CoreError::Guardrail(m) && m@ == rejection_text(
            mutation_rejection(path@, WorkspaceRoot::Unset)->Some_0,
            trim(path@),
            WorkspaceRoot::Unset,
        ),
{
    validate_path_safety_within(path, &WorkspaceRoot::Unset)
}

/// Validates a read-only target with no workspace confinement configured.
pub fn validate_read_path_safety(path: &str) -> (r: CoreResult<()>)
    ensures
        r is Ok <==> read_rejection(path@, WorkspaceRoot::Unset) is None,
        r matches Err(e) ==> e matches CoreError::Guardrail(m) && m@ == rejection_text(
            read_rejection(path@, WorkspaceRoot::Unset)->Some_0,
            trim(path@),
            WorkspaceRoot::Unset,
        ),
{
    validate_read_path_safety_within(path, &WorkspaceRoot::Unset)
}

/// Whether something exists at `path` (`std::path::Path::exists`). The
/// answer depends on the filesystem at the moment of the call, so nothing
/// is stated of it.
#[verifier::external_body]
fn path_exists(path: &str) -> (r: bool) {
    std::path::Path::new(path).exists()
}

/// The message for a read target that passed the checks but is missing.
pub open spec fn missing_path_text(path: Seq<char>) -> Seq<char> {
    "Path does not exist: "@ + path
}

/// What a read target comes to once the filesystem has answered whether
/// it exists: the checks' refusal if any, else the path itself when it
/// exists and the missing-path error when it does not.
pub fn existing_read_path_outcome(path: &str, ws: &WorkspaceRoot, exists: bool) -> (r: CoreResult<String>)
    ensures
        read_rejection(path@, *ws) is Some ==> (r matches Err(CoreError::Guardrail(m)) && m@
            == rejection_text(read_rejection(path@, *ws)->Some_0, trim(path@), *ws)),
        read_rejection(path@, *ws) is None ==> {
            &&& (r is Ok <==> exists)
            &&& r matches Ok(p) ==> p@ == path@
            &&& r matches Err(e) ==> (e matches CoreError::File(m) && m@ == missing_path_text(path@))
        },
{
    validate_read_path_safety_within(path, ws)?;
    if !exists {
        let mut m = String::from_str("Path does not exist: ");
        m.append(path);
        return Err(CoreError::File(m));
    }
    Ok(String::from_str(path))
}

/// Validates `path` as a read target under the workspace confinement `ws`
/// and checks that it exists, giving the path back. Whether it exists is
/// the filesystem's answer at the moment of the call (asked of `path`
/// itself, once the checks pass); whatever the answer, the result is the
/// one [`existing_read_path_outcome`] gives for it.
pub fn ensure_existing_read_path_within(path: &str, ws: &WorkspaceRoot) -> (r: CoreResult<String>)
    ensures
        read_rejection(path@, *ws) is Some ==> (r matches Err(CoreError::Guardrail(m)) && m@
            == rejection_text(read_rejection(path@, *ws)->Some_0, trim(path@), *ws)),
        read_rejection(path@, *ws) is None ==> match r {
            Ok(p) => p@ == path@,
            Err(e) => e matches CoreError::File(m) && m@ == missing_path_text(path@),
        },
{
    if validate_read_path_safety_within(path, ws).is_err() {
        return existing_read_path_outcome(path, ws, false);
    }
    let exists = path_exists(path);
    existing_read_path_outcome(path, ws, exists)
}

/// Validates `path` as a read target, with no workspace confinement
/// configured, and checks that it exists, giving the path back.
pub fn ensure_existing_read_path(path: &str) -> (r: CoreResult<String>)
    ensures
        read_rejection(path@, WorkspaceRoot::Unset) is Some ==> (r matches Err(
            CoreError::Guardrail(m),
        ) && m@ == rejection_text(
            read_rejection(path@, WorkspaceRoot::Unset)->Some_0,
            trim(path@),
            WorkspaceRoot::Unset,
        )),
        read_rejection(path@, WorkspaceRoot::Unset) is None ==> match r {
            Ok(p) => p@ == path@,
            Err(e) => e matches CoreError::File(m) && m@ == missing_path_text(path@),
        },
{
    ensure_existing_read_path_within(path, &WorkspaceRoot::Unset)
}

/// A character of `s` that is not whitespace survives trimming.
proof fn lemma_trim_keeps_non_ws(s: Seq<char>, k: int)
    requires
        0 <= k < s.len(),
        !crate::text::is_ws(s[k]),
    ensures
        trim(s).contains(s[k]),
{
    crate::text::lemma_ws_prefix_props(s);
    crate::text::lemma_ws_prefix_len_bound(s);
    let p = ws_prefix_len_of(s);
    if k < p {
        assert(crate::text::is_ws(s[k]));
    }
    let a = crate::text::trim_start(s);
    assert(a[k - p] == s[k]);
    crate::text::lemma_ws_suffix_props(a);
    crate::text::lemma_ws_suffix_len_bound(a);
    let q = crate::text::ws_suffix_len(a) as int;
    if k - p >= a.len() - q {
        assert(crate::text::is_ws(a[k - p]));
    }
    assert(trim(s)[k - p] == s[k]);
}

spec fn ws_prefix_len_of(s: Seq<char>) -> int {
    crate::text::ws_prefix_len(s) as int
}

/// Reading is refused wherever a mutation is, and for the same reason,
/// except that the current directory (in any spelling) may be read.
pub proof fn law_read_checks_are_mutation_checks_but_current_dir(path: Seq<char>, ws: WorkspaceRoot)
    ensures
        mutation_rejection(path, ws) is None ==> read_rejection(path, ws) is None,
        mutation_rejection(path, ws) != Some(PathRejection::CurrentDir) ==> mutation_rejection(
            path,
            ws,
        ) == read_rejection(path, ws),
        mutation_rejection(path, ws) == Some(PathRejection::CurrentDir) <==> (trim(path).len() > 0
            && is_current_dir_equivalent(trim(path))),
{
}

/// Surrounding whitespace changes nothing: every check sees the path
/// trimmed.
pub proof fn law_surrounding_whitespace_is_ignored(path: Seq<char>, ws: WorkspaceRoot)
    ensures
        mutation_rejection(trim(path), ws) == mutation_rejection(path, ws),
        read_rejection(trim(path), ws) == read_rejection(path, ws),
{
    lemma_trim_idempotent(path);
}

/// A path holding a NUL byte is always refused: a read names the NUL byte
/// as the reason.
pub proof fn law_nul_byte_is_always_refused(path: Seq<char>, ws: WorkspaceRoot)
    requires
        path.contains('\0'),
    ensures
        read_rejection(path, ws) == Some(PathRejection::NulByte),
        mutation_rejection(path, ws) is Some,
{
    let k = choose|k: int| 0 <= k < path.len() && path[k] == '\0';
    lemma_trim_keeps_non_ws(path, k);
}

/// A workspace setting that does not name a directory refuses every path
/// that passes the other checks: confinement fails closed.
pub proof fn law_invalid_workspace_root_refuses_everything(path: Seq<char>, setting: String, reason: String)
    ensures
        read_rejection(path, WorkspaceRoot::Invalid { setting, reason }) is Some,
        mutation_rejection(path, WorkspaceRoot::Invalid { setting, reason }) is Some,
{
}

/// Under a workspace root, every accepted path, resolved against the
/// current directory with `.` and `..` collapsed, lies at or beneath the
/// root, component by component.
pub proof fn law_accepted_paths_stay_under_the_root(path: Seq<char>, root: String, cwd: String)
    requires
        read_rejection(path, WorkspaceRoot::Root { root, cwd: Ok(cwd) }) is None,
    ensures
        is_prefix_of(components(root@), normalized_components(join_path(cwd@, trim(path)))),
{
}

} // verus!
