//! The decisions taken around the SSH session: which host to reach, whether
//! its key may be trusted, whether the login was accepted, and what a remote
//! command's exit status means.  The session itself is driven elsewhere;
//! these functions take what it reported as plain values.

use vstd::prelude::*;
use crate::text::{chars_of, i64_to_chars, int_text, string_from_chars, trim, trim_chars};
use vstd::string::StringExecFns;

verus! {

broadcast use vstd::string::group_string_axioms;

/// The port of the SSH service.
pub const SSH_PORT: u16 = 22;

/// The host used when none is given: the local machine.
pub open spec fn default_host() -> Seq<char> {
    "127.0.0.1"@
}

/// The host to connect to: the one given, else the local machine.
pub fn target_host(host: Option<String>) -> (r: String)
    ensures
        r@ == match host {
            Some(h) => h@,
            None => default_host(),
        },
{
    match host {
        Some(h) => h,
        None => String::from_str("127.0.0.1"),
    }
}

/// What looking the server's key up in `~/.ssh/known_hosts` found.
#[derive(Clone, Copy, Debug, PartialEq, Eq)]
pub enum HostKeyCheck {
    /// The host is listed with this key.
    Match,
    /// The host is not listed.
    NotFound,
    /// The host is listed with another key.
    Mismatch,
    /// The lookup itself failed.
    Failure,
}

/// The warning printed when the host is not listed.
pub open spec fn unknown_host_warning(host: Seq<char>) -> Seq<char> {
    "Warning: "@ + host + " is not in ~/.ssh/known_hosts; its identity could not be verified."@
}

/// The refusal for a host listed with another key.
pub open spec fn mismatch_error(host: Seq<char>) -> Seq<char> {
    "Host key for "@ + host
        + " does NOT match ~/.ssh/known_hosts! Refusing to connect (possible MITM)."@
}

/// The refusal when the lookup failed.
pub open spec fn check_failure_error(host: Seq<char>) -> Seq<char> {
    "Failed to check host key for "@ + host
}

/// The plain content of a verdict on a host key.
pub open spec fn verdict_view(r: Result<Option<String>, String>) -> Result<
    Option<Seq<char>>,
    Seq<char>,
> {
    match r {
        Ok(None) => Ok(None),
        Ok(Some(w)) => Ok(Some(w@)),
        Err(e) => Err(e@),
    }
}

/// Whether to go on with a server whose key lookup gave `check`: a listed,
/// matching key is trusted (`Ok(None)`); an unlisted host is accepted with a
/// warning to print (`Ok(Some(warning))`), since requiring a prior manual
/// login to every target would be impractical; a different key or a failed
/// lookup refuses the connection with an error message.
pub open spec fn verdict(check: HostKeyCheck, host: Seq<char>) -> Result<
    Option<Seq<char>>,
    Seq<char>,
> {
    match check {
        HostKeyCheck::Match => Ok(None),
        HostKeyCheck::NotFound => Ok(Some(unknown_host_warning(host))),
        HostKeyCheck::Mismatch => Err(mismatch_error(host)),
        HostKeyCheck::Failure => Err(check_failure_error(host)),
    }
}

/// Executable `verdict`.
pub fn host_key_verdict(check: HostKeyCheck, host: &str) -> (r: Result<Option<String>, String>)
    ensures
        verdict_view(r) == verdict(check, host@),
{
    match check {
        HostKeyCheck::Match => Ok(None),
        HostKeyCheck::NotFound => {
            let mut w = String::from_str("Warning: ");
            w.append(host);
            w.append(" is not in ~/.ssh/known_hosts; its identity could not be verified.");
            Ok(Some(w))
        },
        HostKeyCheck::Mismatch => {
            let mut e = String::from_str("Host key for ");
            e.append(host);
            e.append(" does NOT match ~/.ssh/known_hosts! Refusing to connect (possible MITM).");
            Err(e)
        },
        HostKeyCheck::Failure => {
            let mut e = String::from_str("Failed to check host key for ");
            e.append(host);
            Err(e)
        },
    }
}

#[verifier::external_type_specification]
#[verifier::external_body]
pub struct ExKnownHosts(ssh2::KnownHosts);

/// Whether `c` is an answer that looking `host` up with `key` among the
/// known hosts may give.  Which answer comes back depends on the entries
/// loaded from disk, so nothing more is said of it: the name only ties the
/// answer to the host name and key that were looked up.
pub uninterp spec fn lookup_answer(host: Seq<char>, key: Seq<u8>, c: HostKeyCheck) -> bool;

/// Trusted: `ssh2::KnownHosts::check`, which asks libssh2 whether `host` is
/// listed with `key` among the entries loaded into `known`, and maps each
/// libssh2 answer to the matching variant.  The contract claims only that
/// the lookup is made for this host name and this key, unchanged; which
/// answer comes back is not claimed, as it depends on the file read into
/// `known`.  The outside function panics (in `CString::new`) on a host name
/// holding a NUL character, which `requires` leaves out.
#[verifier::external_body]
fn check_known_host(known: &ssh2::KnownHosts, host: &str, key: &[u8]) -> (r: HostKeyCheck)
    requires
        !host@.contains('\0'),
    ensures
        lookup_answer(host@, key@, r),
{
    match known.check(host, key) {
        ssh2::CheckResult::Match => HostKeyCheck::Match,
        ssh2::CheckResult::NotFound => HostKeyCheck::NotFound,
        ssh2::CheckResult::Mismatch => HostKeyCheck::Mismatch,
        ssh2::CheckResult::Failure => HostKeyCheck::Failure,
    }
}

/// Looks the server's key up among the known hosts and decides whether to go
/// on: the lookup is made for `host` and `key`, and the result is the
/// [`verdict`] for the answer it gave.
pub fn verify_known_host(known: &ssh2::KnownHosts, host: &str, key: &[u8]) -> (r: Result<
    Option<String>,
    String,
>)
    requires
        !host@.contains('\0'),
    ensures
        exists|c: HostKeyCheck| lookup_answer(host@, key@, c) && verdict_view(r) == verdict(
            c,
            host@,
        ),
{
    let check = check_known_host(known, host, key);
    host_key_verdict(check, host)
}

/// The refusal when `~/.ssh/known_hosts` exists but could not be read or
/// parsed (`reason` says why).
pub open spec fn known_hosts_read_error(reason: Seq<char>) -> Seq<char> {
    "Failed to read ~/.ssh/known_hosts: "@ + reason
}

/// Decides whether to go on with the server at `host` that showed `key`.
/// When the known hosts could not be read (`read_error` holds why), the
/// connection is refused and no lookup is made; an absent file is no read
/// error but an empty list, so the host is then simply unknown.  Otherwise
/// the key is looked up as [`verify_known_host`] does.
pub fn verify_host_key(
    known: &ssh2::KnownHosts,
    read_error: Option<String>,
    host: &str,
    key: &[u8],
) -> (r: Result<Option<String>, String>)
    requires
        !host@.contains('\0'),
    ensures
        match read_error {
            Some(e) => verdict_view(r) == Err::<Option<Seq<char>>, Seq<char>>(
                known_hosts_read_error(e@),
            ),
            None => exists|c: HostKeyCheck| lookup_answer(host@, key@, c) && verdict_view(r)
                == verdict(c, host@),
        },
{
    match read_error {
        Some(e) => {
            let mut msg = String::from_str("Failed to read ~/.ssh/known_hosts: ");
            msg.append(e.as_str());
            Err(msg)
        },
        None => verify_known_host(known, host, key),
    }
}

/// The refusal when the server did not accept the login.
pub open spec fn auth_error(user: Seq<char>) -> Seq<char> {
    "SSH authentication as "@ + user + " was not accepted"@
}

/// Whether the login as `user` went through, as the session reports it.
pub fn auth_outcome(authenticated: bool, user: &str) -> (r: Result<(), String>)
    ensures
        authenticated ==> r is Ok,
        !authenticated ==> (r matches Err(e) && e@ == auth_error(user@)),
{
    if authenticated {
        Ok(())
    } else {
        let mut e = String::from_str("SSH authentication as ");
        e.append(user);
        e.append(" was not accepted");
        Err(e)
    }
}

/// The error for a remote command that exited with a non-zero status.
pub open spec fn exit_error(status: int, stderr: Seq<char>, cmd: Seq<char>) -> Seq<char> {
    "Remote command exited with status "@ + int_text(status) + ": "@ + trim(stderr)
        + "\ncommand: "@ + cmd
}

/// What a finished remote command gives: its standard output when it exited
/// with status 0, else an error naming the status, the trimmed standard
/// error and the command.
pub fn command_outcome(status: i32, stdout: String, stderr: &str, cmd: &str) -> (r: Result<
    String,
    String,
>)
    ensures
        status == 0 ==> r == Ok::<String, String>(stdout),
        status != 0 ==> (r matches Err(e) && e@ == exit_error(status as int, stderr@, cmd@)),
{
    if status == 0 {
        return Ok(stdout);
    }
    let code = string_from_chars(&i64_to_chars(status as i64));
    let detail = string_from_chars(&trim_chars(&chars_of(stderr)));
    let mut e = String::from_str("Remote command exited with status ");
    e.append(code.as_str());
    e.append(": ");
    e.append(detail.as_str());
    e.append("\ncommand: ");
    e.append(cmd);
    Err(e)
}

/// The warning for a header line that names no domain.
pub open spec fn domain_warning_text(line: Seq<char>) -> Seq<char> {
    "Warning: could not parse domain name from line: "@ + line
}

/// Executable `domain_warning_text`.
pub fn domain_warning(line: &str) -> (r: String)
    ensures
        r@ == domain_warning_text(line@),
{
    let mut w = String::from_str("Warning: could not parse domain name from line: ");
    w.append(line);
    w
}

} // verus!
