//! Sandbox configuration, its validation, and the plan of the sandboxing
//! layers (Landlock, seccomp, bubblewrap) built from it.
//!
//! Security mandate: at most 512 MB of memory and 300 s of runtime,
//! read-only access to `/data/market`, no network access by default.
use vstd::prelude::*;
use crate::decimal::{decimal, u64_to_decimal};

verus! {

/// Default maximum memory in MB for sandboxed processes
pub const DEFAULT_MAX_MEMORY_MB: u64 = 512;

/// Default maximum runtime in seconds for sandboxed processes
pub const DEFAULT_MAX_RUNTIME_SECONDS: u64 = 300;

/// Default market data directory path
pub const DEFAULT_MARKET_DATA_PATH: &'static str = "/data/market";

/// Configuration for security sandbox settings
///
/// All fields use secure defaults (512 MB memory, 300s runtime, no network)
#[derive(Debug, Clone)]
pub struct SandboxConfig {
    /// Maximum memory allowed in MB (default: 512)
    pub max_memory_mb: u64,
    /// Maximum runtime allowed in seconds (default: 300)
    pub max_runtime_seconds: u64,
    /// Paths allowed for read-only access
    pub allowed_paths: Vec<String>,
    /// Whether network access is enabled (default: false)
    pub network_enabled: bool,
    /// Whether to use bubblewrap fallback for Python backtests (default: false)
    pub python_fallback_enabled: bool,
}

/// The mathematical content of a configuration: the paths by their text.
pub struct SandboxConfigView {
    pub max_memory_mb: u64,
    pub max_runtime_seconds: u64,
    pub allowed_paths: Seq<Seq<char>>,
    pub network_enabled: bool,
    pub python_fallback_enabled: bool,
}

impl View for SandboxConfig {
    type V = SandboxConfigView;

    open spec fn view(&self) -> SandboxConfigView {
        SandboxConfigView {
            max_memory_mb: self.max_memory_mb,
            max_runtime_seconds: self.max_runtime_seconds,
            allowed_paths: self.allowed_paths.deep_view(),
            network_enabled: self.network_enabled,
            python_fallback_enabled: self.python_fallback_enabled,
        }
    }
}

/// The secure defaults: 512 MB, 300 s, read-only `/data/market`, no
/// network, no Python fallback.
pub open spec fn default_config() -> SandboxConfigView {
    SandboxConfigView {
        max_memory_mb: 512,
        max_runtime_seconds: 300,
        allowed_paths: seq!["/data/market"@],
        network_enabled: false,
        python_fallback_enabled: false,
    }
}

/// Why a configuration is refused.
#[derive(Debug, Clone, Copy, PartialEq, Eq, Structural)]
pub enum ConfigError {
    /// The memory limit is above the maximum allowed.
    MemoryLimitExceeded { limit_mb: u64, max_mb: u64 },
    /// The runtime limit is above the maximum allowed.
    RuntimeLimitExceeded { limit_seconds: u64, max_seconds: u64 },
    /// No read-only path was given.
    NoAllowedPaths,
}

/// What `validate` answers for a configuration: the first broken rule, in
/// the order memory, runtime, paths.
pub open spec fn spec_validate(c: SandboxConfigView) -> Result<(), ConfigError> {
    if c.max_memory_mb > 512 {
        Err(ConfigError::MemoryLimitExceeded { limit_mb: c.max_memory_mb, max_mb: 512 })
    } else if c.max_runtime_seconds > 300 {
        Err(ConfigError::RuntimeLimitExceeded { limit_seconds: c.max_runtime_seconds, max_seconds: 300 })
    } else if c.allowed_paths.len() == 0 {
        Err(ConfigError::NoAllowedPaths)
    } else {
        Ok(())
    }
}

/// A configuration is within the security mandate.
pub open spec fn within_limits(c: SandboxConfigView) -> bool {
    &&& c.max_memory_mb <= 512
    &&& c.max_runtime_seconds <= 300
    &&& c.allowed_paths.len() > 0
}

/// The text of a refusal.
pub open spec fn config_error_message(e: ConfigError) -> Seq<char> {
    match e {
        ConfigError::MemoryLimitExceeded { limit_mb, max_mb } =>
            "Memory limit "@ + decimal(limit_mb as nat) + " MB exceeds maximum allowed "@
                + decimal(max_mb as nat) + " MB"@,
        ConfigError::RuntimeLimitExceeded { limit_seconds, max_seconds } =>
            "Runtime limit "@ + decimal(limit_seconds as nat) + " seconds exceeds maximum allowed "@
                + decimal(max_seconds as nat) + " seconds"@,
        ConfigError::NoAllowedPaths => "At least one allowed path must be specified"@,
    }
}

impl ConfigError {
    /// The human-readable text of the refusal.
    pub fn message(&self) -> (s: String)
        ensures
            s@ == config_error_message(*self),
    {
        match self {
            ConfigError::MemoryLimitExceeded { limit_mb, max_mb } => {
                let mut s = String::from_str("Memory limit ");
                s.append(u64_to_decimal(*limit_mb).as_str());
                s.append(" MB exceeds maximum allowed ");
                s.append(u64_to_decimal(*max_mb).as_str());
                s.append(" MB");
                s
            },
            ConfigError::RuntimeLimitExceeded { limit_seconds, max_seconds } => {
                let mut s = String::from_str("Runtime limit ");
                s.append(u64_to_decimal(*limit_seconds).as_str());
                s.append(" seconds exceeds maximum allowed ");
                s.append(u64_to_decimal(*max_seconds).as_str());
                s.append(" seconds");
                s
            },
            ConfigError::NoAllowedPaths => String::from_str("At least one allowed path must be specified"),
        }
    }
}

impl Default for SandboxConfig {
    /// Returns secure defaults:
    /// - 512 MB memory limit
    /// - 300 seconds runtime limit
    /// - Read-only access to /data/market
    /// - Network disabled
    /// - Python fallback disabled
    fn default() -> (c: Self)
        ensures
            c@ == default_config(),
    {
        let mut allowed_paths: Vec<String> = Vec::new();
        allowed_paths.push(String::from_str(DEFAULT_MARKET_DATA_PATH));
        proof {
            assert(allowed_paths.deep_view() =~= seq!["/data/market"@]);
        }
        SandboxConfig {
            max_memory_mb: DEFAULT_MAX_MEMORY_MB,
            max_runtime_seconds: DEFAULT_MAX_RUNTIME_SECONDS,
            allowed_paths,
            network_enabled: false,
            python_fallback_enabled: false,
        }
    }
}

impl SandboxConfig {
    /// Creates a new SandboxConfig with secure defaults
    pub fn new() -> (c: Self)
        ensures
            c@ == default_config(),
    {
        Self::default()
    }

    /// Creates a SandboxConfig for Python backtests with bubblewrap fallback enabled
    pub fn for_python_backtest() -> (c: Self)
        ensures
            c@ == (SandboxConfigView { python_fallback_enabled: true, ..default_config() }),
    {
        let mut config = Self::default();
        config.python_fallback_enabled = true;
        config
    }

    /// Validates the configuration
    ///
    /// Returns Ok(()) if all constraints are satisfied:
    /// - Memory limit <= 512 MB
    /// - Runtime limit <= 300 seconds
    /// - At least one allowed path specified
    pub fn validate(&self) -> (r: Result<(), ConfigError>)
        ensures
            r == spec_validate(self@),
            r is Ok <==> within_limits(self@),
    {
        if self.max_memory_mb > DEFAULT_MAX_MEMORY_MB {
            return Err(ConfigError::MemoryLimitExceeded {
                limit_mb: self.max_memory_mb,
                max_mb: DEFAULT_MAX_MEMORY_MB,
            });
        }
        if self.max_runtime_seconds > DEFAULT_MAX_RUNTIME_SECONDS {
            return Err(ConfigError::RuntimeLimitExceeded {
                limit_seconds: self.max_runtime_seconds,
                max_seconds: DEFAULT_MAX_RUNTIME_SECONDS,
            });
        }
        if self.allowed_paths.len() == 0 {
            return Err(ConfigError::NoAllowedPaths);
        }
        Ok(())
    }

    /// Sets the memory limit in MB
    pub fn with_memory_limit(self, mb: u64) -> (c: Self)
        ensures
            c@ == (SandboxConfigView { max_memory_mb: mb, ..self@ }),
    {
        let mut c = self;
        c.max_memory_mb = mb;
        c
    }

    /// Sets the runtime limit in seconds
    pub fn with_runtime_limit(self, seconds: u64) -> (c: Self)
        ensures
            c@ == (SandboxConfigView { max_runtime_seconds: seconds, ..self@ }),
    {
        let mut c = self;
        c.max_runtime_seconds = seconds;
        c
    }

    /// Adds an allowed path for read-only access
    pub fn with_allowed_path(self, path: &str) -> (c: Self)
        ensures
            c@ == (SandboxConfigView { allowed_paths: self@.allowed_paths.push(path@), ..self@ }),
    {
        let mut c = self;
        c.allowed_paths.push(path.to_owned());
        proof {
            assert(c.allowed_paths.deep_view() =~= self@.allowed_paths.push(path@));
        }
        c
    }

    /// Enables or disables network access
    pub fn with_network_enabled(self, enabled: bool) -> (c: Self)
        ensures
            c@ == (SandboxConfigView { network_enabled: enabled, ..self@ }),
    {
        let mut c = self;
        c.network_enabled = enabled;
        c
    }

    /// Enables or disables Python fallback with bubblewrap
    pub fn with_python_fallback(self, enabled: bool) -> (c: Self)
        ensures
            c@ == (SandboxConfigView { python_fallback_enabled: enabled, ..self@ }),
    {
        let mut c = self;
        c.python_fallback_enabled = enabled;
        c
    }
}


/// Why the sandbox could not be set up.
#[derive(Debug, Clone, Copy, PartialEq, Eq, Structural)]
pub enum SandboxError {
    /// The configuration was refused by `validate`.
    InvalidConfig(ConfigError),
    /// A bubblewrap command was asked for while the Python fallback is off.
    PythonFallbackDisabled,
    /// No `bwrap` executable was found on the search path.
    BubblewrapNotFound,
}

/// The text of a sandbox failure (the outermost context, as it is shown
/// to the operator).
pub open spec fn sandbox_error_message(e: SandboxError) -> Seq<char> {
    match e {
        SandboxError::InvalidConfig(_) => "Sandbox configuration validation failed"@,
        SandboxError::PythonFallbackDisabled => "Python fallback is not enabled in sandbox configuration"@,
        SandboxError::BubblewrapNotFound =>
            "bubblewrap (bwrap) not found in PATH. Install bubblewrap for Python sandboxing."@,
    }
}

impl SandboxError {
    /// The human-readable text of the failure.
    pub fn message(&self) -> (s: String)
        ensures
            s@ == sandbox_error_message(*self),
    {
        match self {
            SandboxError::InvalidConfig(_) => String::from_str("Sandbox configuration validation failed"),
            SandboxError::PythonFallbackDisabled =>
                String::from_str("Python fallback is not enabled in sandbox configuration"),
            SandboxError::BubblewrapNotFound =>
                String::from_str("bubblewrap (bwrap) not found in PATH. Install bubblewrap for Python sandboxing."),
        }
    }
}

/// Applies the Landlock ruleset for read-only filesystem access.
///
/// This is the entry point of a build without host enforcement: it records
/// no rule and succeeds. The host runtime enforces the rules (read-file and
/// read-dir beneath each allowed path) through the `landlock` crate.
pub fn apply_landlock_ruleset(config: &SandboxConfig) -> (r: Result<(), SandboxError>)
    ensures
        r is Ok,
{
    Ok(())
}

/// Applies the seccomp-bpf syscall filter.
///
/// This step installs no filter and succeeds: no syscall is denied by it.
/// The only network isolation the library describes is bubblewrap's
/// `--unshare-net` for Python backtests (see `bubblewrap_args`).
pub fn apply_seccomp_filter(config: &SandboxConfig) -> (r: Result<(), SandboxError>)
    ensures
        r is Ok,
{
    Ok(())
}

/// What `apply_sandbox` answers: the configuration's refusal, if any.
pub open spec fn spec_apply_sandbox(c: SandboxConfigView) -> Result<(), SandboxError> {
    match spec_validate(c) {
        Err(e) => Err(SandboxError::InvalidConfig(e)),
        Ok(_) => Ok(()),
    }
}

/// Applies all available sandboxing mechanisms
///
/// Validates the configuration first, then applies the Landlock ruleset
/// and the seccomp-bpf filter.
pub fn apply_sandbox(config: &SandboxConfig) -> (r: Result<(), SandboxError>)
    ensures
        r == spec_apply_sandbox(config@),
        r is Ok <==> within_limits(config@),
{
    match config.validate() {
        Err(e) => {
            return Err(SandboxError::InvalidConfig(e));
        },
        Ok(_) => {},
    }
    match apply_landlock_ruleset(config) {
        Err(e) => {
            return Err(e);
        },
        Ok(_) => {},
    }
    match apply_seccomp_filter(config) {
        Err(e) => {
            return Err(e);
        },
        Ok(_) => {},
    }
    Ok(())
}

/// Bytes in one MB.
pub const BYTES_PER_MB: u64 = 1048576;

/// A bubblewrap invocation: the `bwrap` executable and its arguments.
#[derive(Debug)]
pub struct BubblewrapCommand {
    /// Path of the `bwrap` executable.
    pub program: String,
    /// Arguments, in order.
    pub args: Vec<String>,
}

/// `--ro-bind p p` for each allowed path `p` that exists, in order.
pub open spec fn ro_bind_args(paths: Seq<Seq<char>>, exists: Seq<bool>) -> Seq<Seq<char>>
    decreases paths.len(),
{
    if paths.len() == 0 {
        Seq::empty()
    } else {
        ro_bind_args(paths.drop_last(), exists.drop_last()) + if exists.last() {
            seq!["--ro-bind"@, paths.last(), paths.last()]
        } else {
            Seq::empty()
        }
    }
}

/// The arguments of the bubblewrap command for a configuration, given
/// which allowed paths exist on the host.
pub open spec fn spec_bwrap_args(
    c: SandboxConfigView,
    exists: Seq<bool>,
    python: Seq<char>,
    script: Seq<char>,
) -> Seq<Seq<char>> {
    seq!["--unshare-all"@, "--die-with-parent"@, "--cap-drop"@, "ALL"@]
        + (if c.max_memory_mb > 0 {
            seq!["--as-limit"@, decimal(c.max_memory_mb as nat * 1048576)]
        } else {
            Seq::empty()
        })
        + ro_bind_args(c.allowed_paths, exists)
        + seq!["--tmpfs"@, "/tmp"@, "--proc"@, "/proc"@, "--dev"@, "/dev"@]
        + (if !c.network_enabled { seq!["--unshare-net"@] } else { Seq::empty() })
        + seq!["--chdir"@, "/"@, python, script]
}

/// Appends an owned string.
fn push_string(v: &mut Vec<String>, s: String)
    ensures
        final(v).deep_view() == old(v).deep_view().push(s@),
{
    let ghost sv = s@;
    v.push(s);
    proof {
        assert(v.deep_view() =~= old(v).deep_view().push(sv));
    }
}

/// Appends a copy of `s`.
fn push_str(v: &mut Vec<String>, s: &str)
    ensures
        final(v).deep_view() == old(v).deep_view().push(s@),
{
    v.push(String::from_str(s));
    proof {
        assert(v.deep_view() =~= old(v).deep_view().push(s@));
    }
}

/// The arguments that confine a Python backtest under bubblewrap:
/// - unshare all namespaces, die with the parent, drop all capabilities
/// - an address-space limit of the memory limit in bytes (when positive)
/// - a read-only bind of each allowed path that exists
/// - a tmpfs `/tmp`, `/proc`, a minimal `/dev`
/// - no network unless it is enabled
/// - working directory `/`, then the interpreter and the script
pub fn bubblewrap_args(
    config: &SandboxConfig,
    path_exists: &Vec<bool>,
    python_path: &str,
    script_path: &str,
) -> (args: Vec<String>)
    requires
        path_exists.len() == config.allowed_paths.len(),
        config.max_memory_mb <= u64::MAX / BYTES_PER_MB,
    ensures
        args.deep_view() == spec_bwrap_args(config@, path_exists@, python_path@, script_path@),
        forall|i: int| #![trigger path_exists@[i]] 0 <= i < path_exists.len() && path_exists@[i] ==> {
            let r = 4 + (if config.max_memory_mb > 0 { 2int } else { 0int }) + 3 * count_true(
                path_exists@,
                i,
            );
            &&& args.deep_view()[r] == "--ro-bind"@
            &&& args.deep_view()[r + 1] == config.allowed_paths@[i]@
            &&& args.deep_view()[r + 2] == config.allowed_paths@[i]@
        },
        config.network_enabled ==> args.len() == 4 + (if config.max_memory_mb > 0 { 2int } else { 0int })
            + 3 * count_true(path_exists@, path_exists.len() as int) + 10,
        !config.network_enabled ==> args.len() == 4 + (if config.max_memory_mb > 0 { 2int } else { 0int })
            + 3 * count_true(path_exists@, path_exists.len() as int) + 11 && args.deep_view()[args.len()
            - 5] == "--unshare-net"@,
        args.deep_view()[args.len() - 4] == "--chdir"@,
{
    let mut args: Vec<String> = Vec::new();
    push_str(&mut args, "--unshare-all");
    push_str(&mut args, "--die-with-parent");
    push_str(&mut args, "--cap-drop");
    push_str(&mut args, "ALL");
    let ghost start = args.deep_view();
    assert(start =~= seq!["--unshare-all"@, "--die-with-parent"@, "--cap-drop"@, "ALL"@]);
    if config.max_memory_mb > 0 {
        let memory_bytes = config.max_memory_mb * BYTES_PER_MB;
        push_str(&mut args, "--as-limit");
        push_string(&mut args, u64_to_decimal(memory_bytes));
    }
    let ghost head = args.deep_view();
    let ghost limit_part: Seq<Seq<char>> = if config.max_memory_mb > 0 {
        seq!["--as-limit"@, decimal(config.max_memory_mb as nat * 1048576)]
    } else {
        Seq::empty()
    };
    assert(head =~= start + limit_part);
    let ghost paths = config@.allowed_paths;
    let n = config.allowed_paths.len();
    let mut i: usize = 0;
    while i < n
        invariant
            n == config.allowed_paths.len(),
            n == path_exists.len(),
            paths == config@.allowed_paths,
            i <= n,
            args.deep_view() == head + ro_bind_args(paths.take(i as int), path_exists@.take(i as int)),
        decreases n - i,
    {
        proof {
            assert(paths.take(i + 1).drop_last() =~= paths.take(i as int));
            assert(path_exists@.take(i + 1).drop_last() =~= path_exists@.take(i as int));
        }
        if path_exists[i] {
            let p = config.allowed_paths[i].as_str();
            push_str(&mut args, "--ro-bind");
            push_str(&mut args, p);
            push_str(&mut args, p);
        }
        i = i + 1;
    }
    proof {
        assert(paths.take(n as int) =~= paths);
        assert(path_exists@.take(n as int) =~= path_exists@);
    }
    let ghost mid = args.deep_view();
    push_str(&mut args, "--tmpfs");
    push_str(&mut args, "/tmp");
    push_str(&mut args, "--proc");
    push_str(&mut args, "/proc");
    push_str(&mut args, "--dev");
    push_str(&mut args, "/dev");
    assert(args.deep_view() =~= mid + seq!["--tmpfs"@, "/tmp"@, "--proc"@, "/proc"@, "--dev"@, "/dev"@]);
    let ghost mid2 = args.deep_view();
    if !config.network_enabled {
        push_str(&mut args, "--unshare-net");
    }
    let ghost net_part: Seq<Seq<char>> = if !config.network_enabled { seq!["--unshare-net"@] } else { Seq::empty() };
    assert(args.deep_view() =~= mid2 + net_part);
    let ghost mid3 = args.deep_view();
    push_str(&mut args, "--chdir");
    push_str(&mut args, "/");
    push_str(&mut args, python_path);
    push_str(&mut args, script_path);
    assert(args.deep_view() =~= mid3 + seq!["--chdir"@, "/"@, python_path@, script_path@]);
    proof {
        assert(args.deep_view() =~= spec_bwrap_args(config@, path_exists@, python_path@, script_path@));
        lemma_bwrap_args_elements(config@, path_exists@, python_path@, script_path@);
        assert forall|i: int| #![trigger path_exists@[i]] 0 <= i < path_exists.len() && path_exists@[i] implies
            config.allowed_paths@[i]@ == config@.allowed_paths[i] by {}
    }
    args
}


/// `path` names a file called `name`: it is `name` itself, or it ends with
/// `/` followed by `name`.
pub open spec fn path_ends_with_file(path: Seq<char>, name: Seq<char>) -> bool {
    ||| path == name
    ||| path.len() > name.len() && path[path.len() - name.len() - 1] == '/' && path.subrange(
        path.len() - name.len(),
        path.len() as int,
    ) == name
}

/// Looks `name` up on the executable search path with `which::which`.
///
/// For a name without path separators, `which::which` tries `dir.join(name)`
/// for each directory `dir` of `$PATH` and returns the first that is an
/// executable file, or an error when there is none. On Unix (this runtime's
/// only target) no extension is added and the case is not changed, and
/// joining puts a `/` between `dir` and `name` unless `dir` is empty or
/// already ends with one; so a found path is `name` or ends with `/name`.
/// Which directory it is in depends on the environment and the file system
/// at the time of the call, and is not stated. The path is handed on as
/// text: bytes of the directory part that are not UTF-8 are replaced, which
/// leaves the ASCII `/` and the ending `name` as they are.
#[verifier::external_body]
fn find_executable(name: &str) -> (found: Option<String>)
    requires
        name@.len() > 0,
        forall|i: int| 0 <= i < name@.len() ==> name@[i] != '/',
    ensures
        found matches Some(p) ==> path_ends_with_file(p@, name@),
{
    match which::which(name) {
        Ok(path) => Some(path.to_string_lossy().into_owned()),
        Err(_) => None,
    }
}

/// Asks the file system whether `path` exists, with `std::path::Path::exists`.
///
/// The answer depends on the file system at the time of the call, so
/// nothing is stated of it.
#[verifier::external_body]
fn path_exists(path: &String) -> (exists: bool) {
    std::path::Path::new(path).exists()
}

/// `exists` is an answer that `path_exists` gave for `path`.
pub closed spec fn probed_exists(path: &String, exists: bool) -> bool {
    call_ensures(path_exists, (path,), exists)
}

/// Runs the probe `f` on `p`.
fn probe<F: Fn(&String) -> bool>(f: &F, p: &String) -> (b: bool)
    requires
        call_requires(*f, (p,)),
    ensures
        call_ensures(*f, (p,), b),
{
    f(p)
}

/// `path` names the `bwrap` executable: it is `bwrap` or ends with `/bwrap`.
pub open spec fn names_bwrap(path: Seq<char>) -> bool {
    path_ends_with_file(path, "bwrap"@)
}

/// Builds a bubblewrap command for sandboxing Python backtests
///
/// This is used as a fallback when WASM is unavailable for Python backtests.
/// Fails when the Python fallback is not enabled, when the configuration is
/// refused by `validate`, or when `bwrap` is not on the search path.
/// Otherwise the command runs the `bwrap` found on the search path with the
/// arguments of `bubblewrap_args`, for the allowed paths that exist on the
/// host; those end by running `python_path script_path`.
pub fn build_bubblewrap_command(
    config: &SandboxConfig,
    python_path: &str,
    script_path: &str,
) -> (r: Result<BubblewrapCommand, SandboxError>)
    ensures
        !config.python_fallback_enabled ==> r == Err::<BubblewrapCommand, SandboxError>(
            SandboxError::PythonFallbackDisabled,
        ),
        config.python_fallback_enabled ==> (spec_validate(config@) matches Err(e) ==> r == Err::<
            BubblewrapCommand,
            SandboxError,
        >(SandboxError::InvalidConfig(e))),
        config.python_fallback_enabled && within_limits(config@) ==> match r {
            Ok(cmd) => names_bwrap(cmd.program@) && exists|flags: Seq<bool>|
                #![trigger spec_bwrap_args(config@, flags, python_path@, script_path@)]
                flags.len() == config.allowed_paths.len()
                    && (forall|j: int| 0 <= j < flags.len() ==> probed_exists(
                    &config.allowed_paths@[j],
                    #[trigger] flags[j],
                )) && cmd.args.deep_view() == spec_bwrap_args(
                    config@,
                    flags,
                    python_path@,
                    script_path@,
                ),
            Err(e) => e == SandboxError::BubblewrapNotFound,
        },
        r is Ok ==> config.python_fallback_enabled && within_limits(config@),
{
    if !config.python_fallback_enabled {
        return Err(SandboxError::PythonFallbackDisabled);
    }
    match config.validate() {
        Err(e) => {
            return Err(SandboxError::InvalidConfig(e));
        },
        Ok(_) => {},
    }
    let name = "bwrap";
    proof {
        reveal_strlit("bwrap");
    }
    let program = match find_executable(name) {
        Some(p) => p,
        None => {
            return Err(SandboxError::BubblewrapNotFound);
        },
    };
    let mut exists: Vec<bool> = Vec::new();
    let n = config.allowed_paths.len();
    let mut i: usize = 0;
    while i < n
        invariant
            n == config.allowed_paths.len(),
            i <= n,
            exists.len() == i,
            forall|j: int| 0 <= j < i ==> probed_exists(&config.allowed_paths@[j], #[trigger] exists@[j]),
        decreases n - i,
    {
        let found = probe(&path_exists, &config.allowed_paths[i]);
        exists.push(found);
        i = i + 1;
    }
    let args = bubblewrap_args(config, &exists, python_path, script_path);
    Ok(BubblewrapCommand { program, args })
}

/// The secure defaults are within the security mandate, with the network
/// off and the fallback off; the Python-backtest configuration differs from
/// them only in enabling the fallback, and is within the mandate too.
pub proof fn lemma_defaults_within_limits()
    ensures
        within_limits(default_config()),
        spec_validate(default_config()) is Ok,
        !default_config().network_enabled,
        !default_config().python_fallback_enabled,
        within_limits(SandboxConfigView { python_fallback_enabled: true, ..default_config() }),
{
}

/// Validation accepts a memory limit up to 512 MB and a runtime limit up to
/// 300 s, and nothing above, whatever the other settings; adding an allowed
/// path never turns an accepted configuration into a refused one, and rules
/// out the refusal for an empty path list.
pub proof fn lemma_limit_boundaries(c: SandboxConfigView, mb: u64, seconds: u64, path: Seq<char>)
    ensures
        within_limits(c) ==> (within_limits(SandboxConfigView { max_memory_mb: mb, ..c }) <==> mb <= 512),
        within_limits(c) ==> (within_limits(SandboxConfigView { max_runtime_seconds: seconds, ..c })
            <==> seconds <= 300),
        mb > 512 ==> spec_validate(SandboxConfigView { max_memory_mb: mb, ..c }) is Err,
        seconds > 300 ==> spec_validate(SandboxConfigView { max_runtime_seconds: seconds, ..c }) is Err,
        within_limits(c) ==> within_limits(
            SandboxConfigView { allowed_paths: c.allowed_paths.push(path), ..c },
        ),
        spec_validate(SandboxConfigView { allowed_paths: c.allowed_paths.push(path), ..c })
            != Err::<(), ConfigError>(ConfigError::NoAllowedPaths),
{
}

/// Every allowed path that exists is bound read-only, and the bind
/// arguments name nothing but the existing allowed paths.
pub proof fn lemma_ro_bind_args(paths: Seq<Seq<char>>, exists: Seq<bool>)
    requires
        exists.len() == paths.len(),
    ensures
        forall|i: int| 0 <= i < paths.len() && #[trigger] exists[i]
            ==> ro_bind_args(paths, exists).contains(paths[i]),
        forall|k: int| 0 <= k < ro_bind_args(paths, exists).len() ==>
            #[trigger] ro_bind_args(paths, exists)[k] == "--ro-bind"@
            || exists|i: int| 0 <= i < paths.len() && exists[i]
                && ro_bind_args(paths, exists)[k] == paths[i],
    decreases paths.len(),
{
    if paths.len() > 0 {
        let ps = paths.drop_last();
        let es = exists.drop_last();
        lemma_ro_bind_args(ps, es);
        let prev = ro_bind_args(ps, es);
        let tail: Seq<Seq<char>> = if exists.last() {
            seq!["--ro-bind"@, paths.last(), paths.last()]
        } else {
            Seq::empty()
        };
        let all = ro_bind_args(paths, exists);
        assert(all == prev + tail);
        assert forall|i: int| 0 <= i < paths.len() && #[trigger] exists[i] implies all.contains(paths[i]) by {
            if i < paths.len() - 1 {
                assert(ps[i] == paths[i]);
                assert(es[i] == exists[i]);
                assert(prev.contains(ps[i]));
                let j = choose|j: int| 0 <= j < prev.len() && prev[j] == ps[i];
                assert(all[j] == paths[i]);
            } else {
                assert(all[prev.len() + 1int] == paths[i]);
            }
        }
        assert forall|k: int| 0 <= k < all.len() implies
            #[trigger] all[k] == "--ro-bind"@
            || exists|i: int| 0 <= i < paths.len() && exists[i] && all[k] == paths[i] by {
            if k < prev.len() {
                assert(all[k] == prev[k]);
                if prev[k] != "--ro-bind"@ {
                    let i = choose|i: int| 0 <= i < ps.len() && es[i] && prev[k] == ps[i];
                    assert(exists[i] && paths[i] == ps[i]);
                }
            } else {
                assert(exists[paths.len() - 1]);
            }
        }
    }
}

/// How many of `s[0..upto]` are true.
pub open spec fn count_true(s: Seq<bool>, upto: int) -> int
    decreases upto,
{
    if upto <= 0 {
        0
    } else {
        count_true(s, upto - 1) + if s[upto - 1] { 1int } else { 0int }
    }
}

/// Counting the true flags before `upto` looks only at those flags.
proof fn lemma_count_true_prefix(s: Seq<bool>, t: Seq<bool>, upto: int)
    requires
        0 <= upto <= s.len(),
        upto <= t.len(),
        forall|j: int| 0 <= j < upto ==> s[j] == t[j],
    ensures
        count_true(s, upto) == count_true(t, upto),
    decreases upto,
{
    if upto > 0 {
        lemma_count_true_prefix(s, t, upto - 1);
    }
}

/// A count is never negative.
proof fn lemma_count_true_nonneg(s: Seq<bool>, upto: int)
    ensures
        count_true(s, upto) >= 0,
    decreases upto,
{
    if upto > 0 {
        lemma_count_true_nonneg(s, upto - 1);
    }
}

/// The counts of true flags grow with the prefix.
proof fn lemma_count_true_monotone(s: Seq<bool>, a: int, b: int)
    requires
        0 <= a <= b,
    ensures
        0 <= count_true(s, a) <= count_true(s, b),
        a < b && s[a] ==> count_true(s, a) + 1 <= count_true(s, b),
    decreases b - a,
{
    if a < b {
        lemma_count_true_monotone(s, a, b - 1);
    } else {
        lemma_count_true_nonneg(s, a);
    }
}

/// The read-only binds, element by element: the `r`-th existing path
/// (counting from 0) gets the triple `--ro-bind p p` at positions `3r`,
/// `3r + 1`, `3r + 2`, so each existing path is bound onto itself, in the
/// order of the allowed paths, and nothing else is there.
pub proof fn lemma_ro_bind_elements(paths: Seq<Seq<char>>, exists: Seq<bool>)
    requires
        exists.len() == paths.len(),
    ensures
        ro_bind_args(paths, exists).len() == 3 * count_true(exists, paths.len() as int),
        forall|i: int| #![trigger exists[i]] 0 <= i < paths.len() && exists[i] ==> {
            let r = 3 * count_true(exists, i);
            &&& ro_bind_args(paths, exists)[r] == "--ro-bind"@
            &&& ro_bind_args(paths, exists)[r + 1] == paths[i]
            &&& ro_bind_args(paths, exists)[r + 2] == paths[i]
        },
    decreases paths.len(),
{
    let n = paths.len() as int;
    if n > 0 {
        let ps = paths.drop_last();
        let es = exists.drop_last();
        lemma_ro_bind_elements(ps, es);
        let prev = ro_bind_args(ps, es);
        let all = ro_bind_args(paths, exists);
        lemma_count_true_prefix(es, exists, n - 1);
        assert forall|i: int| #![trigger exists[i]] 0 <= i < n && exists[i] implies {
            let r = 3 * count_true(exists, i);
            &&& all[r] == "--ro-bind"@
            &&& all[r + 1] == paths[i]
            &&& all[r + 2] == paths[i]
        } by {
            if i < n - 1 {
                assert(es[i] == exists[i]);
                lemma_count_true_prefix(es, exists, i);
                lemma_count_true_monotone(es, i, n - 1);
                assert(ps[i] == paths[i]);
            }
        }
    }
}

/// Every bubblewrap argument list, element by element:
/// positions 0-3 are the isolation flags; then, for a positive memory
/// limit, `--as-limit` and the limit in bytes; then `--ro-bind p p` for the
/// `r`-th existing allowed path `p` at offset `3r`; then the six mount
/// arguments; then `--unshare-net` exactly when the network is disabled;
/// then `--chdir / python script`. The length fixes that nothing else is
/// there, so an enabled network gets no `--unshare-net` of its own.
pub proof fn lemma_bwrap_args_elements(
    c: SandboxConfigView,
    exists: Seq<bool>,
    python: Seq<char>,
    script: Seq<char>,
)
    requires
        exists.len() == c.allowed_paths.len(),
    ensures
        ({
            let args = spec_bwrap_args(c, exists, python, script);
            let n = c.allowed_paths.len() as int;
            let lim: int = if c.max_memory_mb > 0 { 2 } else { 0 };
            let mounts: int = 4 + lim + 3 * count_true(exists, n);
            let net: int = if c.network_enabled { 0 } else { 1 };
            &&& args.len() == mounts + 6 + net + 4
            &&& args[0] == "--unshare-all"@
            &&& args[1] == "--die-with-parent"@
            &&& args[2] == "--cap-drop"@
            &&& args[3] == "ALL"@
            &&& c.max_memory_mb > 0 ==> args[4] == "--as-limit"@ && args[5] == decimal(
                c.max_memory_mb as nat * 1048576,
            )
            &&& forall|i: int| #![trigger exists[i]] 0 <= i < n && exists[i] ==> {
                let r = 4 + lim + 3 * count_true(exists, i);
                &&& args[r] == "--ro-bind"@
                &&& args[r + 1] == c.allowed_paths[i]
                &&& args[r + 2] == c.allowed_paths[i]
            }
            &&& args[mounts] == "--tmpfs"@
            &&& args[mounts + 1] == "/tmp"@
            &&& args[mounts + 2] == "--proc"@
            &&& args[mounts + 3] == "/proc"@
            &&& args[mounts + 4] == "--dev"@
            &&& args[mounts + 5] == "/dev"@
            &&& !c.network_enabled ==> args[mounts + 6] == "--unshare-net"@
            &&& args[mounts + 6 + net] == "--chdir"@
            &&& args[mounts + 7 + net] == "/"@
            &&& args[mounts + 8 + net] == python
            &&& args[mounts + 9 + net] == script
        }),
{
    lemma_ro_bind_elements(c.allowed_paths, exists);
    let args = spec_bwrap_args(c, exists, python, script);
    let head = seq!["--unshare-all"@, "--die-with-parent"@, "--cap-drop"@, "ALL"@];
    let limit: Seq<Seq<char>> = if c.max_memory_mb > 0 {
        seq!["--as-limit"@, decimal(c.max_memory_mb as nat * 1048576)]
    } else {
        Seq::empty()
    };
    let binds = ro_bind_args(c.allowed_paths, exists);
    let mnt = seq!["--tmpfs"@, "/tmp"@, "--proc"@, "/proc"@, "--dev"@, "/dev"@];
    let netp: Seq<Seq<char>> = if !c.network_enabled { seq!["--unshare-net"@] } else { Seq::empty() };
    let run = seq!["--chdir"@, "/"@, python, script];
    assert(args == head + limit + binds + mnt + netp + run);
    let n = c.allowed_paths.len() as int;
    let lim: int = if c.max_memory_mb > 0 { 2 } else { 0 };
    assert forall|i: int| #![trigger exists[i]] 0 <= i < n && exists[i] implies {
        let r = 4 + lim + 3 * count_true(exists, i);
        &&& args[r] == "--ro-bind"@
        &&& args[r + 1] == c.allowed_paths[i]
        &&& args[r + 2] == c.allowed_paths[i]
    } by {
        lemma_count_true_monotone(exists, i, n);
        let r = 3 * count_true(exists, i);
        assert(args[4 + lim + r] == binds[r]);
        assert(args[4 + lim + r + 1] == binds[r + 1]);
        assert(args[4 + lim + r + 2] == binds[r + 2]);
    }
}

/// The shape of every bubblewrap command: it opens by unsharing all
/// namespaces, dying with its parent and dropping all capabilities; it
/// limits the address space to the memory limit in bytes when that limit is
/// positive; it binds read-only every allowed path that exists; it keeps the
/// network unshared unless the network is enabled; and it ends by running
/// the interpreter on the script.
pub proof fn lemma_bwrap_args_shape(
    c: SandboxConfigView,
    exists: Seq<bool>,
    python: Seq<char>,
    script: Seq<char>,
)
    requires
        exists.len() == c.allowed_paths.len(),
    ensures
        ({
            let args = spec_bwrap_args(c, exists, python, script);
            &&& args.len() >= 14
            &&& args[0] == "--unshare-all"@
            &&& args[1] == "--die-with-parent"@
            &&& args[2] == "--cap-drop"@
            &&& args[3] == "ALL"@
            &&& c.max_memory_mb > 0 ==> args[4] == "--as-limit"@ && args[5] == decimal(
                c.max_memory_mb as nat * 1048576,
            )
            &&& forall|i: int| 0 <= i < c.allowed_paths.len() && #[trigger] exists[i]
                ==> args.contains(c.allowed_paths[i])
            &&& !c.network_enabled ==> args.contains("--unshare-net"@)
            &&& args[args.len() - 4] == "--chdir"@
            &&& args[args.len() - 3] == "/"@
            &&& args[args.len() - 2] == python
            &&& args[args.len() - 1] == script
        }),
{
    lemma_ro_bind_args(c.allowed_paths, exists);
    let args = spec_bwrap_args(c, exists, python, script);
    let head = seq!["--unshare-all"@, "--die-with-parent"@, "--cap-drop"@, "ALL"@];
    let limit: Seq<Seq<char>> = if c.max_memory_mb > 0 {
        seq!["--as-limit"@, decimal(c.max_memory_mb as nat * 1048576)]
    } else {
        Seq::empty()
    };
    let binds = ro_bind_args(c.allowed_paths, exists);
    let mounts = seq!["--tmpfs"@, "/tmp"@, "--proc"@, "/proc"@, "--dev"@, "/dev"@];
    let net: Seq<Seq<char>> = if !c.network_enabled { seq!["--unshare-net"@] } else { Seq::empty() };
    let run = seq!["--chdir"@, "/"@, python, script];
    assert(args == head + limit + binds + mounts + net + run);
    let pre = head + limit;
    assert forall|i: int| 0 <= i < c.allowed_paths.len() && #[trigger] exists[i]
        implies args.contains(c.allowed_paths[i]) by {
        let j = choose|j: int| 0 <= j < binds.len() && binds[j] == c.allowed_paths[i];
        assert(args[pre.len() + j] == c.allowed_paths[i]);
    }
    if !c.network_enabled {
        assert(args[pre.len() + binds.len() + 6int] == "--unshare-net"@);
    }
}

} // verus!
