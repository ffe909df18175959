use vstd::prelude::*;
use crate::env::{env_insert_all, env_pairs_of, lines_of, load_env_from_text};
use crate::envp::{Argv, Envp, env_has_prefix, env_insert, nul_free};
use crate::child::ChildProcessState;
use crate::settings::{RemoteSettings, SettingsStore, settings_view_text};

verus! {

/// The environment key whose presence marks a process as an already
/// supervised child re-entering the binary.
pub const GUARD_KEY: &'static str = "_GUARD_PRELOAD_DD_HACKATHON";

/// The key that tells the child where the telemetry pipe's write end is.
pub const TELEMETRY_PIPE_KEY: &'static str = "HACKATHON_TELEMETRY_PIPE";

/// The key that tells the child where the agent payload is.
pub const AGENT_FD_KEY: &'static str = "JAVA_AGENT_FD";

/// The key of the JVM's tool options, which load the agent.
pub const TOOL_OPTIONS_KEY: &'static str = "JAVA_TOOL_OPTIONS";

/// The path of the supervisor's own executable, which the child runs.
pub const SELF_EXE: &'static str = "/proc/self/exe";

/// The prefix of a path that names an open descriptor.
pub const FD_PATH_PREFIX: &'static str = "/proc/self/fd/";

/// The JVM flag that loads an agent from a path.
pub const JAVAAGENT_FLAG: &'static str = "-javaagent:";

/// Nanoseconds in a second.
pub const NANOSECONDS_PER_SECOND: u64 = 1_000_000_000;

/// How long the override-file watcher sleeps between polls.
pub const OVERRIDE_POLL_NANOS: u64 = NANOSECONDS_PER_SECOND / 2;

/// How long the remote watcher sleeps between fetches.
pub const REMOTE_POLL_NANOS: u64 = NANOSECONDS_PER_SECOND * 2;

/// The override file that the watcher polls, relative to the working
/// directory.
pub const OVERRIDE_FILE: &'static str = ".new_env";

/// The override file read once at startup.
pub const STARTUP_OVERRIDE_FILE: &'static str = "/opt/_auto_dd/.new_env";

/// A duration in nanoseconds as whole seconds and the nanoseconds left over.
pub fn split_nanos(nsecs: u64) -> (r: (u64, u64))
    ensures
        r.0 == nsecs / NANOSECONDS_PER_SECOND,
        r.1 == nsecs % NANOSECONDS_PER_SECOND,
        r.1 < NANOSECONDS_PER_SECOND,
{
    (nsecs / NANOSECONDS_PER_SECOND, nsecs % NANOSECONDS_PER_SECOND)
}

/// The fields of a packed interpreter version: major, minor, micro and
/// release level, one byte each from the most significant.
pub fn python_version_parts(version: u32) -> (r: (u32, u32, u32, u32))
    ensures
        r.0 == version / 0x100_0000,
        r.1 == (version / 0x1_0000) % 0x100,
        r.2 == (version / 0x100) % 0x100,
        r.3 == version % 0x100,
{
    let major = version >> 24;
    let minor = (version >> 16) & 0xff;
    let micro = (version >> 8) & 0xff;
    let level = version & 0xff;
    assert(major == version / 0x100_0000) by (bit_vector)
        requires
            major == version >> 24,
    ;
    assert(minor == (version / 0x1_0000) % 0x100) by (bit_vector)
        requires
            minor == (version >> 16) & 0xff,
    ;
    assert(micro == (version / 0x100) % 0x100) by (bit_vector)
        requires
            micro == (version >> 8) & 0xff,
    ;
    assert(level == version % 0x100) by (bit_vector)
        requires
            level == version & 0xff,
    ;
    (major, minor, micro, level)
}

/// The character of decimal digit `d`.
pub open spec fn digit_char(d: nat) -> char {
    seq!['0', '1', '2', '3', '4', '5', '6', '7', '8', '9'][d as int]
}

/// The decimal digits of `n`, without leading zeros.
pub open spec fn decimal(n: nat) -> Seq<char>
    decreases n,
{
    if n < 10 {
        seq![digit_char(n)]
    } else {
        decimal(n / 10).push(digit_char(n % 10))
    }
}

/// The path that names descriptor `fd` of the process that opens it.
pub open spec fn fd_path_of(fd: nat) -> Seq<char> {
    FD_PATH_PREFIX@ + decimal(fd)
}

fn push_decimal(s: &mut String, n: u32)
    ensures
        final(s)@ == old(s)@ + decimal(n as nat),
    decreases n,
{
    if n >= 10 {
        push_decimal(s, n / 10);
    }
    let d = (n % 10) as usize;
    let digits = "0123456789";
    proof {
        reveal_strlit("0123456789");
    }
    let c = digits.substring_char(d, d + 1);
    assert(c@ =~= seq![digit_char(d as nat)]);
    s.append(c);
    assert(s@ =~= old(s)@ + decimal(n as nat));
}

proof fn lemma_decimal_nul_free(n: nat)
    ensures
        nul_free(decimal(n)),
    decreases n,
{
    if n >= 10 {
        lemma_decimal_nul_free(n / 10);
    }
}

proof fn lemma_concat_nul_free(a: Seq<char>, b: Seq<char>)
    requires
        nul_free(a),
        nul_free(b),
    ensures
        nul_free(a + b),
{
    assert forall|j: int| 0 <= j < (a + b).len() implies (a + b)[j] != '\0' by {
        if j < a.len() {
            assert((a + b)[j] == a[j]);
        } else {
            assert((a + b)[j] == b[j - a.len()]);
        }
    }
}

proof fn lemma_fixed_texts_nul_free()
    ensures
        nul_free(GUARD_KEY@),
        nul_free(TELEMETRY_PIPE_KEY@),
        nul_free(AGENT_FD_KEY@),
        nul_free(TOOL_OPTIONS_KEY@),
        nul_free(FD_PATH_PREFIX@),
        nul_free(JAVAAGENT_FLAG@),
        nul_free(seq!['1']),
{
    reveal_strlit("_GUARD_PRELOAD_DD_HACKATHON");
    reveal_strlit("HACKATHON_TELEMETRY_PIPE");
    reveal_strlit("JAVA_AGENT_FD");
    reveal_strlit("JAVA_TOOL_OPTIONS");
    reveal_strlit("/proc/self/fd/");
    reveal_strlit("-javaagent:");
}

/// The path `/proc/self/fd/<fd>`.
pub fn fd_path(fd: i32) -> (r: String)
    requires
        fd >= 0,
    ensures
        r@ == fd_path_of(fd as nat),
        nul_free(r@),
{
    proof {
        lemma_fixed_texts_nul_free();
        lemma_decimal_nul_free(fd as nat);
        lemma_concat_nul_free(FD_PATH_PREFIX@, decimal(fd as nat));
    }
    let mut s = String::from_str(FD_PATH_PREFIX);
    push_decimal(&mut s, fd as u32);
    s
}

/// Whether the inherited environment marks this process as a re-entry of
/// an already supervised child: some entry starts with `GUARD_KEY=`.
pub fn is_reentry(env: &Envp) -> (r: bool)
    ensures
        r == env_has_prefix(env@, GUARD_KEY@ + seq!['=']),
{
    let mut prefix = String::from_str(GUARD_KEY);
    prefix.append("=");
    proof {
        reveal_strlit("=");
    }
    assert(prefix@ =~= GUARD_KEY@ + seq!['=']);
    env.contains_prefix(prefix.as_str())
}

/// What one fork and exec of the child needs: its environment, argument
/// vector and executable path, and the descriptors that the supervisor
/// closes once the child holds them.
pub struct ChildEnv {
    pub env: Envp,
    pub argv: Argv,
    pub path: Vec<u8>,
    pub fds_to_drop_in_parent: Vec<i32>,
}

impl ChildEnv {
    /// The child environment built at startup: the inherited environment
    /// with the guard key set to `1` and the telemetry pipe's path added, the
    /// given arguments, the supervisor's own executable, nothing to close.
    pub fn initial(inherited: Envp, argv: Argv, telemetry_fd: i32) -> (r: Self)
        requires
            telemetry_fd >= 0,
        ensures
            r.env@ == env_insert(
                env_insert(inherited@, GUARD_KEY@, seq!['1']),
                TELEMETRY_PIPE_KEY@,
                fd_path_of(telemetry_fd as nat),
            ),
            r.argv@ == argv@,
            r.path@ == SELF_EXE@.map_values(|c: char| c as u8),
            r.fds_to_drop_in_parent@.len() == 0,
    {
        let mut env = inherited;
        proof {
            lemma_fixed_texts_nul_free();
            reveal_strlit("1");
            assert("1"@ =~= seq!['1']);
        }
        env.insert(GUARD_KEY, "1");
        let pipe = fd_path(telemetry_fd);
        env.insert(TELEMETRY_PIPE_KEY, pipe.as_str());
        let path = exe_path();
        ChildEnv { env, argv, path, fds_to_drop_in_parent: Vec::new() }
    }

    /// A copy of this child environment.
    pub fn duplicate(&self) -> (r: Self)
        ensures
            r.env@ == self.env@,
            r.argv@ == self.argv@,
            r.path@ == self.path@,
            r.fds_to_drop_in_parent@ == self.fds_to_drop_in_parent@,
    {
        ChildEnv {
            env: self.env.duplicate(),
            argv: self.argv.duplicate(),
            path: copy_bytes(&self.path),
            fds_to_drop_in_parent: copy_fds(&self.fds_to_drop_in_parent),
        }
    }

    /// A copy of this child environment with the `key=value` lines of an
    /// override text merged over its environment: a pair of the text wins
    /// over an entry with its key.
    pub fn with_overrides(&self, content: &str) -> (r: Self)
        requires
            nul_free(content@),
        ensures
            r.env@ == env_insert_all(self.env@, env_pairs_of(lines_of(content@))),
            r.argv@ == self.argv@,
            r.path@ == self.path@,
            r.fds_to_drop_in_parent@ == self.fds_to_drop_in_parent@,
    {
        let mut ce = self.duplicate();
        load_env_from_text(&mut ce.env, content);
        ce
    }

    /// A copy of this child environment with the pairs of a settings
    /// document merged over its environment, in the document's order.
    pub fn with_settings(&self, settings: &RemoteSettings) -> (r: Self)
        ensures
            r.env@ == env_insert_all(self.env@, settings@.env),
            r.argv@ == self.argv@,
            r.path@ == self.path@,
            r.fds_to_drop_in_parent@ == self.fds_to_drop_in_parent@,
    {
        let mut ce = self.duplicate();
        ce.env.insert_pairs(settings.env());
        ce
    }

    /// Hands the agent payload held by descriptor `fd` to the child: its
    /// path under `AGENT_FD_KEY`, the flag that loads it under
    /// `TOOL_OPTIONS_KEY`, and `fd` among the descriptors to close here.
    pub fn attach_agent(&mut self, fd: i32)
        requires
            fd >= 0,
        ensures
            final(self).env@ == env_insert(
                env_insert(old(self).env@, AGENT_FD_KEY@, fd_path_of(fd as nat)),
                TOOL_OPTIONS_KEY@,
                JAVAAGENT_FLAG@ + fd_path_of(fd as nat),
            ),
            final(self).argv@ == old(self).argv@,
            final(self).path@ == old(self).path@,
            final(self).fds_to_drop_in_parent@ == old(self).fds_to_drop_in_parent@.push(fd),
    {
        let path = fd_path(fd);
        proof {
            lemma_fixed_texts_nul_free();
            lemma_concat_nul_free(JAVAAGENT_FLAG@, path@);
        }
        self.env.insert(AGENT_FD_KEY, path.as_str());
        let mut options = String::from_str(JAVAAGENT_FLAG);
        options.append(path.as_str());
        self.env.insert(TOOL_OPTIONS_KEY, options.as_str());
        self.fds_to_drop_in_parent.push(fd);
    }
}

/// What the remote watcher does once a fetch changed the generation: the
/// child environment to restart with, and the agent URL to fetch first.
pub struct RemotePlan {
    pub env: ChildEnv,
    pub agent_url: Option<String>,
}

/// The remote watcher's decision after a fetch: nothing where the store's
/// generation is still `old_generation` or no child is supervised (a
/// supervisor whose child has not started is not interrupted); otherwise the
/// seed environment with the active document's pairs merged over it, and
/// that document's agent URL (no pairs and no URL where the store holds no
/// document).
pub fn plan_remote_cycle(
    seed: &ChildEnv,
    old_generation: u64,
    store: &SettingsStore,
    child: ChildProcessState,
) -> (r: Option<RemotePlan>)
    ensures
        store@.generation == old_generation || child.pid is None ==> r is None,
        store@.generation != old_generation && child.pid is Some ==> (r matches Some(plan) && {
            &&& plan.env.argv@ == seed.argv@
            &&& plan.env.path@ == seed.path@
            &&& plan.env.fds_to_drop_in_parent@ == seed.fds_to_drop_in_parent@
            &&& match store@.active {
                Some(a) => {
                    &&& plan.env.env@ == env_insert_all(seed.env@, a.env)
                    &&& settings_view_text(plan.agent_url) == a.java_agent_url
                },
                None => plan.env.env@ == seed.env@ && plan.agent_url is None,
            }
        }),
{
    if RemoteSettings::get_generation(store) == old_generation || !child.is_supervising() {
        return None;
    }
    match RemoteSettings::get(store) {
        Some(settings) => {
            let env = seed.with_settings(&settings);
            Some(RemotePlan { env, agent_url: settings.java_agent_url() })
        },
        None => Some(RemotePlan { env: seed.duplicate(), agent_url: None }),
    }
}

fn exe_path() -> (r: Vec<u8>)
    ensures
        r@ == SELF_EXE@.map_values(|c: char| c as u8),
{
    proof {
        reveal_strlit("/proc/self/exe");
        assert(vstd::string::is_ascii(SELF_EXE));
        vstd::string::is_ascii_spec_bytes(SELF_EXE);
    }
    let r = vstd::slice::slice_to_vec(SELF_EXE.as_bytes());
    assert(r@ =~= SELF_EXE@.map_values(|c: char| c as u8));
    r
}

fn copy_bytes(v: &Vec<u8>) -> (r: Vec<u8>)
    ensures
        r@ == v@,
{
    let mut out: Vec<u8> = Vec::new();
    let mut i: usize = 0;
    while i < v.len()
        invariant
            i <= v@.len(),
            out@ =~= v@.take(i as int),
        decreases v@.len() - i,
    {
        out.push(v[i]);
        i += 1;
    }
    assert(v@.take(i as int) =~= v@);
    out
}

fn copy_fds(v: &Vec<i32>) -> (r: Vec<i32>)
    ensures
        r@ == v@,
{
    let mut out: Vec<i32> = Vec::new();
    let mut i: usize = 0;
    while i < v.len()
        invariant
            i <= v@.len(),
            out@ =~= v@.take(i as int),
        decreases v@.len() - i,
    {
        out.push(v[i]);
        i += 1;
    }
    assert(v@.take(i as int) =~= v@);
    out
}

} // verus!
