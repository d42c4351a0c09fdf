//! Asking mise to install a version, so that mise users keep a single store of tools.

use crate::text;
use vstd::prelude::*;

verus! {

/// How many lines of mise's output an error carries.
pub const TAIL_LINES: usize = 20;

/// Why mise did not install a version.
#[derive(Debug)]
pub struct MiseInstallFailed {
    /// What was to be installed, as `tool@version`.
    pub version: String,
    pub reason: String,
}

/// The `mise` executable, if there is one: what was found when it was first looked for, and
/// `found` if this is the first time.
pub fn mise_on_path(memo: &mut Option<Option<String>>, found: Option<String>) -> (r: Option<
    String,
>)
    ensures
        *old(memo) matches Some(m) ==> text::view_opt(r) == text::view_opt(m) && *final(memo)
            == *old(memo),
        *old(memo) is None ==> text::view_opt(r) == text::view_opt(found),
        *final(memo) matches Some(m) && text::view_opt(m) == text::view_opt(r),
{
    match memo {
        Some(m) => copy(m),
        None => {
            let r = copy(&found);
            *memo = Some(found);
            r
        },
    }
}

fn copy(s: &Option<String>) -> (r: Option<String>)
    ensures
        text::view_opt(r) == text::view_opt(*s),
{
    match s {
        Some(t) => Some(t.clone()),
        None => None,
    }
}

/// A tool and its version, as `tool@version`.
pub open spec fn tool_at(tool: Seq<char>, version: Seq<char>) -> Seq<char> {
    tool + "@"@ + version
}

/// A tool and its version, as `tool@version`.
pub fn tool_spec(tool: &str, version: &str) -> (r: String)
    ensures
        r@ == tool_at(tool@, version@),
{
    text::cat(text::cat(tool, "@").as_str(), version)
}

/// An exit status in decimal.
pub open spec fn status_text(code: int) -> Seq<char> {
    if code < 0 {
        "-"@ + text::decimal_text((-code) as nat)
    } else {
        text::decimal_text(code as nat)
    }
}

/// The last lines of an output.
pub open spec fn tail_of(output: Seq<char>) -> Seq<char> {
    let lines = text::lines_from(output, 0);
    let from = if lines.len() > TAIL_LINES {
        lines.len() - TAIL_LINES
    } else {
        0
    };
    text::joined(lines.skip(from), "\n"@)
}

/// What is said of a run of mise that failed: the exit status, -1 if a signal ended it, and
/// the last lines of what it printed.
pub open spec fn failure_text(code: Option<i32>, stderr: Seq<char>) -> Seq<char> {
    let head = "exit status "@ + status_text(match code {
        Some(c) => c as int,
        None => -1,
    });
    if tail_of(stderr).len() == 0 {
        head
    } else {
        head + "\n"@ + tail_of(stderr)
    }
}

fn format_status(code: i32) -> (r: String)
    ensures
        r@ == status_text(code as int),
{
    if code < 0 {
        let magnitude: i64 = -(code as i64);
        text::cat("-", text::format_u64(magnitude as u64).as_str())
    } else {
        text::format_u64(code as u64)
    }
}

/// What is said of a run of mise that failed.
pub fn failure_reason(code: Option<i32>, stderr: &str) -> (r: String)
    ensures
        r@ == failure_text(code, stderr@),
{
    let lines = text::lines(stderr);
    let from: usize = if lines.len() > TAIL_LINES {
        lines.len() - TAIL_LINES
    } else {
        0
    };
    let tail = text::join(&lines, from, "\n");
    let status = format_status(
        match code {
            Some(c) => c,
            None => -1,
        },
    );
    let mut r = text::cat("exit status ", status.as_str());
    if text::to_chars(tail.as_str()).len() > 0 {
        r.append("\n");
        r.append(tail.as_str());
    }
    r
}

/// What a run of `mise install tool@version` means: success and failure are told by the exit
/// status alone.
pub fn install_tool_via_mise(
    tool: &str,
    version: &str,
    succeeded: bool,
    code: Option<i32>,
    stderr: &str,
) -> (r: Result<(), MiseInstallFailed>)
    ensures
        r is Ok <==> succeeded,
        r matches Err(e) ==> e.version@ == tool_at(tool@, version@) && e.reason@ == failure_text(
            code,
            stderr@,
        ),
{
    if succeeded {
        Ok(())
    } else {
        Err(
            MiseInstallFailed {
                version: tool_spec(tool, version),
                reason: failure_reason(code, stderr),
            },
        )
    }
}

/// What is said when mise succeeded and there is still no installation of node.
pub open spec fn node_not_found_text(version: Seq<char>, dir: Seq<char>) -> Seq<char> {
    "mise reported success but "@ + tool_at("node"@, version) + " was not found under "@ + dir
        + " — if mise uses a custom data dir, export MISE_DATA_DIR so aube sees the same path"@
}

/// What an installation of node through mise leads to: what was found where mise keeps its
/// installations, or an error that names the place.
pub fn install_via_mise<T>(version: &str, found: Option<T>, installs_dir: &str) -> (r: Result<
    T,
    MiseInstallFailed,
>)
    ensures
        match found {
            Some(t) => r == Ok::<T, MiseInstallFailed>(t),
            None => r matches Err(e) && e.version@ == tool_at("node"@, version@) && e.reason@
                == node_not_found_text(version@, installs_dir@),
        },
{
    match found {
        Some(t) => Ok(t),
        None => {
            let mut reason = "mise reported success but ".to_owned();
            reason.append(tool_spec("node", version).as_str());
            reason.append(" was not found under ");
            reason.append(installs_dir);
            reason.append(
                " — if mise uses a custom data dir, export MISE_DATA_DIR so aube sees the same path",
            );
            Err(MiseInstallFailed { version: tool_spec("node", version), reason })
        },
    }
}

/// The error carries all lines of what mise printed, or the last twenty if there are more, and
/// the exit status before them; a status that there is none of counts as -1.
pub proof fn failures_carry_status_and_last_lines(code: Option<i32>, stderr: Seq<char>)
    ensures
        ({
            let lines = text::lines_from(stderr, 0);
            let status = if code is Some {
                status_text(code->0 as int)
            } else {
                status_text(-1)
            };
            let tail = tail_of(stderr);
            &&& lines.len() <= 20 ==> tail == text::joined(lines, "\n"@)
            &&& lines.len() > 20 ==> tail == text::joined(
                lines.subrange(lines.len() - 20, lines.len() as int),
                "\n"@,
            )
            &&& tail.len() == 0 ==> failure_text(code, stderr) == "exit status "@ + status
            &&& tail.len() > 0 ==> failure_text(code, stderr) == "exit status "@ + status + "\n"@
                + tail
        }),
{
    let lines = text::lines_from(stderr, 0);
    if lines.len() <= 20 {
        assert(lines.skip(0) == lines);
    } else {
        assert(lines.skip(lines.len() - 20) == lines.subrange(
            lines.len() - 20,
            lines.len() as int,
        ));
    }
}

/// An exit status is written in decimal, a negative one with a minus before it.
pub proof fn statuses_are_written_in_decimal(code: int)
    ensures
        code >= 0 ==> text::decimal(status_text(code)) == Some(code as nat),
        code < 0 ==> status_text(code).len() > 0 && status_text(code)[0] == '-' && text::decimal(
            status_text(code).skip(1),
        ) == Some((-code) as nat),
{
    reveal_strlit("-");
    if code >= 0 {
        text::written_numbers_are_read_back(code as nat);
    } else {
        let t = text::decimal_text((-code) as nat);
        text::written_numbers_are_read_back((-code) as nat);
        assert(("-"@ + t).skip(1) == t);
    }
}

/// A tool stands before its version with an `@` between them, and the message about a node that
/// is not there names the version and the place.
pub proof fn tools_are_named_with_their_versions(
    tool: Seq<char>,
    version: Seq<char>,
    dir: Seq<char>,
)
    ensures
        tool_at(tool, version) == tool + seq!['@'] + version,
        text::begins_with(
            node_not_found_text(version, dir),
            "mise reported success but "@ + ("node"@ + seq!['@'] + version)
                + " was not found under "@ + dir,
        ),
{
    reveal_strlit("@");
    assert("@"@ == seq!['@']);
    let head = "mise reported success but "@ + ("node"@ + seq!['@'] + version)
        + " was not found under "@ + dir;
    let rest = " — if mise uses a custom data dir, export MISE_DATA_DIR so aube sees the same path"@;
    text::beginnings_and_ends_are_cut_off(head, rest, dir, dir);
    assert(node_not_found_text(version, dir) == head + rest);
}

} // verus!
