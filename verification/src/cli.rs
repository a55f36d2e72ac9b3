//! Command-line surface: the parsed flag values, the merge with the
//! configuration file, and the fallback rule for pure pass-through
//! invocations.
//!
//! Reading the real process arguments is done outside the library; the
//! decisions on the values live here.

use vstd::prelude::*;
use crate::config::{opt_or, ProxyConfigToml};
use crate::text::{ascii_bytes, is_prefix, starts_with, str_bytes};

verus! {

/// The command-line flags. Every field overrides the configuration file.
pub struct Cli {
    /// Container for attachment.
    pub container: Option<Vec<u8>>,
    /// Container-internal workspace path.
    pub docker_path: Option<Vec<u8>>,
    /// Host workspace path.
    pub local_path: Option<Vec<u8>>,
    /// Executable for the language server.
    pub executable: Option<Vec<u8>>,
    /// Executables whose process id is patched to null.
    pub pids: Option<Vec<Vec<u8>>>,
    /// Substring pattern on the working directory deciding container use.
    pub pattern: Option<Vec<u8>>,
    /// Log level.
    pub log_level: Option<Vec<u8>>,
    /// Arguments forwarded verbatim to the language server.
    pub args: Vec<Vec<u8>>,
}

impl Cli {
    /// The pass-through invocation: no flag recognized, every argument goes
    /// to the language server.
    pub fn passthrough(args: Vec<Vec<u8>>) -> (r: Cli)
        ensures
            r.container is None,
            r.docker_path is None,
            r.local_path is None,
            r.executable is None,
            r.pids is None,
            r.pattern is None,
            r.log_level is None,
            r.args == args,
    {
        Cli {
            container: None,
            docker_path: None,
            local_path: None,
            executable: None,
            pids: None,
            pattern: None,
            log_level: None,
            args,
        }
    }
}

impl ProxyConfigToml {
    /// Merge the command line over the file: a flag given on the command
    /// line wins over the file's value.
    pub fn merge_cli(self, cli: Cli) -> (r: ProxyConfigToml)
        ensures
            r.container == opt_or(cli.container, self.container),
            r.local_path == opt_or(cli.local_path, self.local_path),
            r.docker_internal_path == opt_or(cli.docker_path, self.docker_internal_path),
            r.executable == opt_or(cli.executable, self.executable),
            r.pattern == opt_or(cli.pattern, self.pattern),
            r.patch_pid == opt_or(cli.pids, self.patch_pid),
            r.log_level == opt_or(cli.log_level, self.log_level),
    {
        ProxyConfigToml {
            container: or_field(cli.container, self.container),
            local_path: or_field(cli.local_path, self.local_path),
            docker_internal_path: or_field(cli.docker_path, self.docker_internal_path),
            executable: or_field(cli.executable, self.executable),
            pattern: or_field(cli.pattern, self.pattern),
            patch_pid: or_list_field(cli.pids, self.patch_pid),
            log_level: or_field(cli.log_level, self.log_level),
        }
    }
}

fn or_field(a: Option<Vec<u8>>, b: Option<Vec<u8>>) -> (r: Option<Vec<u8>>)
    ensures
        r == opt_or(a, b),
{
    match a {
        Some(v) => Some(v),
        None => b,
    }
}

fn or_list_field(a: Option<Vec<Vec<u8>>>, b: Option<Vec<Vec<u8>>>) -> (r: Option<Vec<Vec<u8>>>)
    ensures
        r == opt_or(a, b),
{
    match a {
        Some(v) => Some(v),
        None => b,
    }
}

/// True when `s` begins with one of the proxy's own flags. An unrecognized
/// command line whose first argument is such a flag is a malformed proxy
/// invocation; otherwise the whole command line is passed through to the
/// language server.
pub open spec fn is_known_flag_prefix(s: Seq<u8>) -> bool {
    ||| is_prefix(s, ascii_bytes("-c"@))
    ||| is_prefix(s, ascii_bytes("--container"@))
    ||| is_prefix(s, ascii_bytes("-d"@))
    ||| is_prefix(s, ascii_bytes("--docker-path"@))
    ||| is_prefix(s, ascii_bytes("-L"@))
    ||| is_prefix(s, ascii_bytes("--local-path"@))
    ||| is_prefix(s, ascii_bytes("-e"@))
    ||| is_prefix(s, ascii_bytes("--exec"@))
    ||| is_prefix(s, ascii_bytes("--pids"@))
    ||| is_prefix(s, ascii_bytes("-p"@))
    ||| is_prefix(s, ascii_bytes("--pattern"@))
    ||| is_prefix(s, ascii_bytes("-l"@))
    ||| is_prefix(s, ascii_bytes("--log-level"@))
    ||| is_prefix(s, ascii_bytes("-h"@))
    ||| is_prefix(s, ascii_bytes("--help"@))
    ||| is_prefix(s, ascii_bytes("-V"@))
    ||| is_prefix(s, ascii_bytes("--version"@))
}

/// Flag-prefix test on the first argument, as executable code.
pub fn first_arg_is_known_flag(first: &[u8]) -> (r: bool)
    ensures
        r == is_known_flag_prefix(first@),
{
    proof {
        reveal_strlit("-c");
        reveal_strlit("--container");
        reveal_strlit("-d");
        reveal_strlit("--docker-path");
        reveal_strlit("-L");
        reveal_strlit("--local-path");
        reveal_strlit("-e");
        reveal_strlit("--exec");
        reveal_strlit("--pids");
        reveal_strlit("-p");
        reveal_strlit("--pattern");
        reveal_strlit("-l");
        reveal_strlit("--log-level");
        reveal_strlit("-h");
        reveal_strlit("--help");
        reveal_strlit("-V");
        reveal_strlit("--version");
    }
    if starts_with(first, str_bytes("-c").as_slice()) {
        return true;
    }
    if starts_with(first, str_bytes("--container").as_slice()) {
        return true;
    }
    if starts_with(first, str_bytes("-d").as_slice()) {
        return true;
    }
    if starts_with(first, str_bytes("--docker-path").as_slice()) {
        return true;
    }
    if starts_with(first, str_bytes("-L").as_slice()) {
        return true;
    }
    if starts_with(first, str_bytes("--local-path").as_slice()) {
        return true;
    }
    if starts_with(first, str_bytes("-e").as_slice()) {
        return true;
    }
    if starts_with(first, str_bytes("--exec").as_slice()) {
        return true;
    }
    if starts_with(first, str_bytes("--pids").as_slice()) {
        return true;
    }
    if starts_with(first, str_bytes("-p").as_slice()) {
        return true;
    }
    if starts_with(first, str_bytes("--pattern").as_slice()) {
        return true;
    }
    if starts_with(first, str_bytes("-l").as_slice()) {
        return true;
    }
    if starts_with(first, str_bytes("--log-level").as_slice()) {
        return true;
    }
    if starts_with(first, str_bytes("-h").as_slice()) {
        return true;
    }
    if starts_with(first, str_bytes("--help").as_slice()) {
        return true;
    }
    if starts_with(first, str_bytes("-V").as_slice()) {
        return true;
    }
    if starts_with(first, str_bytes("--version").as_slice()) {
        return true;
    }
    false
}

} // verus!
