//! Proxy configuration: the immutable settings the pipeline runs under, the
//! raw shape read from the configuration file, and the rules that derive the
//! former from the latter.
//!
//! Reading the file, the command line and the environment happens outside the
//! library; everything here works on the plain values handed in.

use vstd::prelude::*;
use crate::search::{contains_seq, replace_seq, replace_all, contains_sub};
use crate::text::{
    ascii_bytes, str_bytes, bytes_eq, last_index_of, lemma_last_index_of_props, rfind_byte,
    subrange_bytes,
};

verus! {

/// Settings the forwarding pipeline runs under, fixed after startup.
#[derive(Clone, Debug)]
pub struct ProxyConfig {
    pub container: Vec<u8>,
    pub docker_internal_path: Vec<u8>,
    pub local_path: Vec<u8>,
    pub executable: Vec<u8>,
    /// Executable basenames whose `initialize` request gets its process id
    /// patched to `null`: such a server would look for the host process id
    /// inside the container, fail to find it, and exit.
    pub patch_pid: Option<Vec<Vec<u8>>>,
    pub log_level: Vec<u8>,
    pub use_docker: bool,
}

/// The raw configuration as the file and the command line provide it: every
/// field optional, merged and completed by [`ProxyConfig::from_proxy_config_toml`].
#[derive(Clone, Debug)]
pub struct ProxyConfigToml {
    pub container: Option<Vec<u8>>,
    pub docker_internal_path: Option<Vec<u8>>,
    pub local_path: Option<Vec<u8>>,
    pub executable: Option<Vec<u8>>,
    /// Substring pattern on the current working directory deciding whether
    /// the container is used at all.
    pub pattern: Option<Vec<u8>>,
    pub patch_pid: Option<Vec<Vec<u8>>>,
    pub log_level: Option<Vec<u8>>,
}

/// Why a configuration could not be built.
#[derive(Debug)]
pub enum ConfigParseError {
    /// The file could not be read; holds the reported reason.
    FileError(Vec<u8>),
    /// The file could not be parsed; holds the reported reason.
    DeserializationError(Vec<u8>),
    /// A required field is absent; holds the field name.
    MissingField(Vec<u8>),
}

impl ConfigParseError {
    /// Human-readable description of the failure.
    pub fn message(&self) -> (r: Vec<u8>)
        ensures
            match self {
                ConfigParseError::FileError(e) => r@ == ascii_bytes(
                    "File cannot be readed: "@,
                ) + e@,
                ConfigParseError::DeserializationError(e) => r@ == ascii_bytes(
                    "Error parsing config file: "@,
                ) + e@,
                ConfigParseError::MissingField(f) => r@ == f@ + ascii_bytes(
                    " must be provided"@,
                ),
            },
    {
        match self {
            ConfigParseError::FileError(e) => {
                proof {
                    reveal_strlit("File cannot be readed: ");
                }
                crate::text::concat_bytes(str_bytes("File cannot be readed: ").as_slice(), e.as_slice())
            },
            ConfigParseError::DeserializationError(e) => {
                proof {
                    reveal_strlit("Error parsing config file: ");
                }
                crate::text::concat_bytes(str_bytes("Error parsing config file: ").as_slice(), e.as_slice())
            },
            ConfigParseError::MissingField(f) => {
                proof {
                    reveal_strlit(" must be provided");
                }
                crate::text::concat_bytes(f.as_slice(), str_bytes(" must be provided").as_slice())
            },
        }
    }
}

impl Default for ProxyConfigToml {
    fn default() -> (r: ProxyConfigToml)
        ensures
            r.container is None,
            r.docker_internal_path is None,
            r.local_path is None,
            r.executable is None,
            r.pattern is None,
            r.patch_pid is None,
            r.log_level is None,
    {
        ProxyConfigToml {
            container: None,
            docker_internal_path: None,
            local_path: None,
            executable: None,
            pattern: None,
            patch_pid: None,
            log_level: None,
        }
    }
}

/// Index of the last path separator in `s`, counting both `/` and `\`.
pub open spec fn last_sep(s: Seq<u8>) -> Option<int> {
    match (last_index_of(s, 47u8), last_index_of(s, 92u8)) {
        (None, None) => None,
        (Some(i), None) => Some(i),
        (None, Some(j)) => Some(j),
        (Some(i), Some(j)) => Some(if i >= j { i } else { j }),
    }
}

/// The path component after the last separator (the whole path when there is
/// no separator).
pub open spec fn base_component(s: Seq<u8>) -> Seq<u8> {
    match last_sep(s) {
        None => s,
        Some(i) => s.skip(i + 1),
    }
}

/// The component with a trailing `.extension` removed, unless the dot is the
/// first byte.
pub open spec fn stem_of(name: Seq<u8>) -> Seq<u8> {
    match last_index_of(name, 46u8) {
        Some(i) => if i > 0 {
            name.take(i)
        } else {
            name
        },
        None => name,
    }
}

/// The executable name derived from a path: last component, extension
/// stripped, defaulting to `lspdock` when empty.
pub open spec fn binary_name_spec(s: Seq<u8>) -> Seq<u8> {
    let st = stem_of(base_component(s));
    if st.len() == 0 {
        ascii_bytes("lspdock"@)
    } else {
        st
    }
}

/// One past the last separator of `s`, or 0, as executable code.
fn component_start(s: &[u8]) -> (r: usize)
    ensures
        r <= s@.len(),
        match last_sep(s@) {
            None => r == 0,
            Some(i) => r == i + 1,
        },
{
    let n = s.len();
    let a = rfind_byte(s, 47u8);
    let b = rfind_byte(s, 92u8);
    proof {
        lemma_last_index_of_props(s@, 47u8);
        lemma_last_index_of_props(s@, 92u8);
    }
    match (a, b) {
        (None, None) => 0,
        (Some(i), None) => {
            proof {
                assert(last_index_of(s@, 47u8) == Some(i as int));
            }
            i + 1
        },
        (None, Some(j)) => {
            proof {
                assert(last_index_of(s@, 92u8) == Some(j as int));
            }
            j + 1
        },
        (Some(i), Some(j)) => {
            proof {
                assert(last_index_of(s@, 47u8) == Some(i as int));
                assert(last_index_of(s@, 92u8) == Some(j as int));
            }
            if i >= j {
                i + 1
            } else {
                j + 1
            }
        },
    }
}

/// Executable name from a full path, falling back to the proxy's own name
/// when the path yields nothing usable.
pub fn extract_binary_name(full_path: &[u8]) -> (r: Vec<u8>)
    ensures
        r@ == binary_name_spec(full_path@),
{
    let start = component_start(full_path);
    let comp = subrange_bytes(full_path, start, full_path.len());
    proof {
        assert(comp@ =~= base_component(full_path@));
    }
    let stem_end: usize = match rfind_byte(comp.as_slice(), 46u8) {
        Some(i) => if i > 0 {
            i
        } else {
            comp.len()
        },
        None => comp.len(),
    };
    proof {
        lemma_last_index_of_props(comp@, 46u8);
    }
    let st = subrange_bytes(comp.as_slice(), 0, stem_end);
    proof {
        assert(st@ =~= stem_of(comp@));
    }
    if st.len() == 0 {
        proof {
            reveal_strlit("lspdock");
        }
        str_bytes("lspdock")
    } else {
        st
    }
}

/// Whether this configuration asks for the process-id patch: the executable's
/// basename must be listed in `patch_pid`.
pub open spec fn name_listed(list: Seq<Vec<u8>>, name: Seq<u8>) -> bool {
    exists|i: int| 0 <= i < list.len() && #[trigger] list[i]@ == name
}

pub open spec fn requires_patch_pid_spec(c: ProxyConfig) -> bool {
    match c.patch_pid {
        None => false,
        Some(list) => {
            let name = base_component(c.executable@);
            name.len() > 0 && name_listed(list@, name)
        },
    }
}

impl ProxyConfig {
    /// Indicate if the executable requires the process-id patch.
    pub fn requires_patch_pid(&self) -> (r: bool)
        ensures
            r == requires_patch_pid_spec(*self),
    {
        match self.patch_pid {
            None => false,
            Some(ref list) => {
                let start = component_start(self.executable.as_slice());
                let name = subrange_bytes(
                    self.executable.as_slice(),
                    start,
                    self.executable.len(),
                );
                proof {
                    assert(name@ =~= base_component(self.executable@));
                }
                if name.len() == 0 {
                    return false;
                }
                let mut i: usize = 0;
                while i < list.len()
                    invariant
                        i <= list@.len(),
                        list@.len() == list.len(),
                        self.patch_pid == Some(*list),
                        name@ == base_component(self.executable@),
                        name@.len() > 0,
                        forall|j: int| 0 <= j < i ==> list@[j]@ != name@,
                    decreases list@.len() - i,
                {
                    if bytes_eq(list[i].as_slice(), name.as_slice()) {
                        proof {
                            assert(list@[i as int]@ == base_component(self.executable@));
                            assert(name_listed(list@, name@)) by {
                                assert(0 <= i < list@.len() && list@[i as int]@ == name@);
                            }
                        }
                        return true;
                    }
                    i = i + 1;
                }
                false
            },
        }
    }
}

/// Byte-wise path normalization for pattern matching: `\` becomes `/`.
pub open spec fn norm_byte(b: u8) -> u8 {
    if b == 92 {
        47u8
    } else {
        b
    }
}

/// A path with every backslash turned into a forward slash.
pub open spec fn norm_seq(s: Seq<u8>) -> Seq<u8> {
    Seq::new(s.len(), |i| norm_byte(s[i]))
}

/// Normalize separators for a substring match, as executable code.
pub fn norm_for_match(s: &[u8]) -> (r: Vec<u8>)
    ensures
        r@ == norm_seq(s@),
{
    let mut out: Vec<u8> = Vec::new();
    let mut i: usize = 0;
    while i < s.len()
        invariant
            i <= s@.len(),
            s@.len() == s.len(),
            out@ == norm_seq(s@).subrange(0, i as int),
        decreases s@.len() - i,
    {
        if s[i] == 92 {
            out.push(47u8);
        } else {
            out.push(s[i]);
        }
        proof {
            assert(out@ =~= norm_seq(s@).subrange(0, i + 1));
        }
        i = i + 1;
    }
    proof {
        assert(out@ =~= norm_seq(s@));
    }
    out
}

/// A Windows-style local path brought to the form the editor sends:
/// backslashes become slashes and a leading drive letter `X:` becomes
/// `/x:` (lower case).
pub open spec fn normalize_win_local_spec(s: Seq<u8>) -> Seq<u8> {
    let t = norm_seq(s);
    if t.len() >= 2 && t[1] == 58 {
        seq![47u8, lower_byte(t[0])] + t.skip(1)
    } else {
        t
    }
}

/// ASCII lower-casing of one byte.
pub open spec fn lower_byte(b: u8) -> u8 {
    if 65 <= b <= 90 {
        (b + 32) as u8
    } else {
        b
    }
}

/// Normalize a local path for Windows, as executable code.
pub fn normalize_win_local(path: &[u8]) -> (r: Vec<u8>)
    ensures
        r@ == normalize_win_local_spec(path@),
{
    let t = norm_for_match(path);
    if t.len() >= 2 && t[1] == 58 {
        let mut out: Vec<u8> = Vec::new();
        out.push(47u8);
        let c = t[0];
        if 65 <= c && c <= 90 {
            out.push(c + 32);
        } else {
            out.push(c);
        }
        let mut i: usize = 1;
        while i < t.len()
            invariant
                1 <= i <= t@.len(),
                t@.len() == t.len(),
                t@.len() >= 2,
                out@ == seq![47u8, lower_byte(t@[0])] + t@.subrange(1, i as int),
            decreases t@.len() - i,
        {
            out.push(t[i]);
            proof {
                assert(out@ =~= seq![47u8, lower_byte(t@[0])] + t@.subrange(1, i + 1));
            }
            i = i + 1;
        }
        proof {
            assert(t@.subrange(1, t@.len() as int) =~= t@.skip(1));
        }
        out
    } else {
        t
    }
}

/// Whether the working directory selects the container: an empty or missing
/// pattern always does; otherwise the normalized pattern must occur in the
/// normalized working directory.
pub open spec fn cwd_matches_pattern_spec(cwd: Seq<u8>, pattern: Option<Seq<u8>>) -> bool {
    match pattern {
        Some(p) => if p.len() > 0 {
            contains_seq(norm_seq(cwd), norm_seq(p))
        } else {
            true
        },
        None => true,
    }
}

/// Pattern check on the working directory, as executable code.
pub fn cwd_matches_pattern(cwd: &[u8], pattern: Option<&Vec<u8>>) -> (r: bool)
    ensures
        match pattern {
            Some(p) => r == cwd_matches_pattern_spec(cwd@, Some(p@)),
            None => r == true,
        },
{
    match pattern {
        Some(p) => {
            if p.len() == 0 {
                true
            } else {
                let c = norm_for_match(cwd);
                let q = norm_for_match(p.as_slice());
                contains_sub(c.as_slice(), q.as_slice())
            }
        },
        None => true,
    }
}

/// When the editor URL-encodes the drive colon (seen as `%3A` in the first
/// message), commit the configured local path to the same encoding.
pub fn encode_path(msg: &[u8], config: &mut ProxyConfig)
    ensures
        final(config).local_path@ == if contains_seq(msg@, ascii_bytes("%3A"@)) {
            replace_seq(old(config).local_path@, ascii_bytes(":"@), ascii_bytes("%3A"@))
        } else {
            old(config).local_path@
        },
        final(config).container == old(config).container,
        final(config).docker_internal_path == old(config).docker_internal_path,
        final(config).executable == old(config).executable,
        final(config).patch_pid == old(config).patch_pid,
        final(config).log_level == old(config).log_level,
        final(config).use_docker == old(config).use_docker,
{
    proof {
        reveal_strlit("%3A");
        reveal_strlit(":");
    }
    let enc = str_bytes("%3A");
    if contains_sub(msg, enc.as_slice()) {
        let colon = str_bytes(":");
        let replaced = replace_all(config.local_path.as_slice(), colon.as_slice(), enc.as_slice());
        config.local_path = replaced;
    }
}


/// The first of two optional values, as the command line overriding the file.
pub open spec fn opt_or<T>(a: Option<T>, b: Option<T>) -> Option<T> {
    match a {
        Some(v) => Some(v),
        None => b,
    }
}

/// The bytes of an optional value, empty when absent.
pub open spec fn opt_bytes_or_empty(o: Option<Vec<u8>>) -> Seq<u8> {
    match o {
        Some(v) => v@,
        None => Seq::empty(),
    }
}

/// What [`ProxyConfig::from_proxy_config_toml`] returns: the completed
/// configuration, or the missing field.
pub open spec fn from_toml_spec(
    t: ProxyConfigToml,
    use_docker: bool,
    cwd: Option<Vec<u8>>,
    argv0: Seq<u8>,
    env_log: Option<Vec<u8>>,
    r: Result<ProxyConfig, ConfigParseError>,
) -> bool {
    let local_opt = opt_or(t.local_path, cwd);
    let ename = binary_name_spec(argv0);
    if local_opt is None {
        r matches Err(ConfigParseError::MissingField(f)) && f@ == ascii_bytes("local_path"@)
    } else if ename == ascii_bytes("lspdock"@) && t.executable is None {
        r matches Err(ConfigParseError::MissingField(f)) && f@ == ascii_bytes("executable"@)
    } else {
        r matches Ok(c) && c.local_path == local_opt.unwrap() && c.executable@ == (
        if ename == ascii_bytes("lspdock"@) {
            t.executable.unwrap()@
        } else {
            ename
        }) && c.use_docker == (use_docker && t.container is Some
            && t.docker_internal_path is Some) && c.container@ == opt_bytes_or_empty(t.container)
            && c.docker_internal_path@ == opt_bytes_or_empty(t.docker_internal_path)
            && c.patch_pid == t.patch_pid && c.log_level@ == (match opt_or(t.log_level, env_log) {
            Some(v) => v@,
            None => ascii_bytes("info"@),
        })
    }
}

impl ProxyConfig {
    /// Complete a merged raw configuration into the settings the pipeline
    /// uses. The working directory (fallback local path), the proxy's own
    /// invocation path and the environment's log level are handed in by the
    /// caller. The container is only used when both container fields are
    /// present; otherwise the proxy falls back to a local server.
    pub fn from_proxy_config_toml(
        config: ProxyConfigToml,
        use_docker: bool,
        cwd: Option<Vec<u8>>,
        argv0: &[u8],
        env_log: Option<Vec<u8>>,
    ) -> (r: Result<ProxyConfig, ConfigParseError>)
        ensures
            from_toml_spec(config, use_docker, cwd, argv0@, env_log, r),
    {
        proof {
            reveal_strlit("local_path");
            reveal_strlit("executable");
            reveal_strlit("lspdock");
            reveal_strlit("info");
        }
        let local_path: Vec<u8> = match config.local_path {
            Some(v) => v,
            None => match cwd {
                Some(v) => v,
                None => {
                    return Err(ConfigParseError::MissingField(str_bytes("local_path")));
                },
            },
        };
        let ename = extract_binary_name(argv0);
        let own_name = str_bytes("lspdock");
        let executable: Vec<u8> = if bytes_eq(ename.as_slice(), own_name.as_slice()) {
            match config.executable {
                Some(v) => v,
                None => {
                    return Err(ConfigParseError::MissingField(str_bytes("executable")));
                },
            }
        } else {
            ename
        };
        let dock = use_docker && config.container.is_some()
            && config.docker_internal_path.is_some();
        let container: Vec<u8> = match config.container {
            Some(v) => v,
            None => Vec::new(),
        };
        let docker_internal_path: Vec<u8> = match config.docker_internal_path {
            Some(v) => v,
            None => Vec::new(),
        };
        let log_level: Vec<u8> = match config.log_level {
            Some(v) => v,
            None => match env_log {
                Some(v) => v,
                None => str_bytes("info"),
            },
        };
        Ok(
            ProxyConfig {
                container,
                docker_internal_path,
                local_path,
                executable,
                patch_pid: config.patch_pid,
                log_level,
                use_docker: dock,
            },
        )
    }
}

/// Where the configuration file was found.
pub enum PathType {
    /// In the working directory: the container is always used.
    Cwd,
    /// In the home configuration directory: the pattern decides.
    Home,
}

/// A resolved configuration file location.
pub struct ConfigPath {
    pub path: Vec<u8>,
    pub path_type: PathType,
}

/// Pick the configuration file by the hierarchy: the project file first,
/// then the one under the home configuration directory. The caller reports
/// which candidates exist on disk.
pub fn resolve_config_path(
    cwd_config: Vec<u8>,
    cwd_exists: bool,
    home_config: Vec<u8>,
    home_exists: bool,
) -> (r: Option<ConfigPath>)
    ensures
        cwd_exists ==> (r matches Some(cp) && cp.path == cwd_config && cp.path_type is Cwd),
        !cwd_exists && home_exists ==> (r matches Some(cp) && cp.path == home_config
            && cp.path_type is Home),
        !cwd_exists && !home_exists ==> r is None,
{
    if cwd_exists {
        Some(ConfigPath { path: cwd_config, path_type: PathType::Cwd })
    } else if home_exists {
        Some(ConfigPath { path: home_config, path_type: PathType::Home })
    } else {
        None
    }
}

/// Whether the proxy should use the container: always when the configuration
/// came from the project or nowhere; by the pattern when it came from home.
pub fn decide_use_docker(config_path: Option<&ConfigPath>, cwd: &[u8], pattern: Option<&Vec<u8>>) -> (r:
    bool)
    ensures
        r == (match config_path {
            None => true,
            Some(cp) => match cp.path_type {
                PathType::Cwd => true,
                PathType::Home => cwd_matches_pattern_spec(
                    cwd@,
                    match pattern {
                        Some(p) => Some(p@),
                        None => None,
                    },
                ),
            },
        }),
{
    match config_path {
        None => true,
        Some(cp) => match cp.path_type {
            PathType::Cwd => true,
            PathType::Home => cwd_matches_pattern(cwd, pattern),
        },
    }
}

} // verus!

