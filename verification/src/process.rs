//! The managed processes: their life, their logs and what is to be done around them.

use vstd::prelude::*;
use vstd::string::*;
use crate::number::{decimal, number_text};
use crate::oci::{entry_point, entry_view, resolved, FoundFile};
use crate::path::{join, joined, parent, parent_of};
use crate::protocol::{
    configs, copy_env, env_of, infos, opt_mapping, opt_ssl, PortMapping, PortMappingView,
    ProcessConfig, ProcessConfigView, ProcessInfo, ProcessInfoView, ProcessStatus,
    SslConfig, SslConfigView, Timestamp,
};
use crate::text::{
    cat2, cat3, cat4, cat5, copy_texts, has_text, lines, lines_of, opt_text, same, texts,
    unit_view, without_text,
};

verus! {

/// The directory of the daemon.
pub const NYRUN_DIR: &'static str = "/var/run/nyrun";

/// The size over which a log is rotated, in bytes.
pub const LOG_MAX_SIZE: u64 = 10485760;

/// How many rotated logs are kept.
pub const LOG_MAX_ROTATED: usize = 5;

// ---------------------------------------------------------------------------
// Processes
// ---------------------------------------------------------------------------

/// A process and what is known of it.
#[derive(Debug, PartialEq, Eq)]
pub struct ManagedProcess {
    /// The configuration as it was given.
    pub config: ProcessConfig,
    /// The configuration with which it was started last.
    pub resolved: ProcessConfig,
    /// Whether there is a child process; a directory that is served has none.
    pub child: bool,
    pub pid: Option<u32>,
    pub status: ProcessStatus,
    pub started_at: Option<Timestamp>,
    pub restart_count: u32,
}

/// The contents of a `ManagedProcess`.
#[verifier::ext_equal]
pub struct ManagedView {
    pub config: ProcessConfigView,
    pub resolved: ProcessConfigView,
    pub child: bool,
    pub pid: Option<u32>,
    pub status: ProcessStatus,
    pub started_at: Option<Timestamp>,
    pub restart_count: u32,
}

impl View for ManagedProcess {
    type V = ManagedView;

    open spec fn view(&self) -> ManagedView {
        ManagedView {
            config: self.config@,
            resolved: self.resolved@,
            child: self.child,
            pid: self.pid,
            status: self.status,
            started_at: self.started_at,
            restart_count: self.restart_count,
        }
    }
}

impl ManagedView {
    /// The process once its child was killed.
    pub open spec fn killed(self) -> ManagedView {
        ManagedView { child: false, pid: None, status: ProcessStatus::Stopped, ..self }
    }
}

/// The contents of a list of processes.
pub open spec fn managed(v: Seq<ManagedProcess>) -> Seq<ManagedView> {
    v.map_values(|p: ManagedProcess| p@)
}

/// Where the process `name` stands, or the length of the list where it does not.
pub open spec fn position(s: Seq<ManagedView>, name: Seq<char>) -> int
    decreases s.len(),
{
    if s.len() == 0 || s[0].config.name == name {
        0
    } else {
        1 + position(s.skip(1), name)
    }
}

/// Whether there is a process `name`.
pub open spec fn exists_process(s: Seq<ManagedView>, name: Seq<char>) -> bool {
    position(s, name) < s.len()
}

/// Whether no two processes share a name.
pub open spec fn distinct_names(s: Seq<ManagedView>) -> bool {
    forall|i: int, j: int|
        #![trigger s[i], s[j]]
        0 <= i < j < s.len() ==> s[i].config.name != s[j].config.name
}

/// `position` points at the first process of that name.
pub proof fn lemma_position(s: Seq<ManagedView>, name: Seq<char>)
    ensures
        0 <= position(s, name) <= s.len(),
        forall|i: int| 0 <= i < position(s, name) ==> (#[trigger] s[i]).config.name != name,
        position(s, name) < s.len() ==> s[position(s, name)].config.name == name,
    decreases s.len(),
{
    if s.len() > 0 && s[0].config.name != name {
        let t = s.skip(1);
        lemma_position(t, name);
        assert forall|i: int| 0 <= i < position(s, name) implies (#[trigger] s[i]).config.name
            != name by {
            if i > 0 {
                assert(s[i] == t[i - 1]);
            }
        }
        if position(s, name) < s.len() {
            assert(s[position(s, name)] == t[position(t, name)]);
        }
    }
}

/// A position with no process of that name before it is `position`.
proof fn lemma_position_is(s: Seq<ManagedView>, name: Seq<char>, n: int)
    requires
        0 <= n <= s.len(),
        forall|i: int| 0 <= i < n ==> (#[trigger] s[i]).config.name != name,
        n < s.len() ==> s[n].config.name == name,
    ensures
        position(s, name) == n,
{
    lemma_position(s, name);
    let p = position(s, name);
    if p < n {
        assert(s[p].config.name != name);
    } else if n < p {
        assert(s[n].config.name != name);
    }
}

/// Changing the processes without their names leaves every process where it is.
pub proof fn lemma_position_kept(a: Seq<ManagedView>, b: Seq<ManagedView>, name: Seq<char>)
    requires
        a.len() == b.len(),
        forall|i: int| 0 <= i < a.len() ==> (#[trigger] a[i]).config.name == b[i].config.name,
    ensures
        position(a, name) == position(b, name),
{
    lemma_position(a, name);
    let n = position(a, name);
    assert forall|i: int| 0 <= i < n implies (#[trigger] b[i]).config.name != name by {
        assert(a[i].config.name == b[i].config.name);
    }
    if n < a.len() {
        assert(a[n].config.name == b[n].config.name);
    }
    lemma_position_is(b, name, n);
}

// ---------------------------------------------------------------------------
// Effects
// ---------------------------------------------------------------------------

/// What is to be done around a change of the processes, in order. None of it can
/// fail the change.
#[derive(Debug, PartialEq, Eq)]
pub enum Effect {
    /// Write a file.
    WriteFile { path: String, text: String },
    /// Remove a file.
    RemoveFile { path: String },
    /// Kill the child of a process and wait for its end.
    KillChild { name: String },
    /// Count one managed process more.
    CountProcess,
    /// Count one managed process less.
    UncountProcess,
    /// Count no managed process.
    CountNone,
    /// Count a restart of a process.
    CountRestart { name: String },
    /// Count an image that was pulled.
    CountPull,
    /// Count an image that could not be pulled.
    CountPullError,
}

/// The contents of an `Effect`.
#[verifier::ext_equal]
pub enum EffectView {
    WriteFile(Seq<char>, Seq<char>),
    RemoveFile(Seq<char>),
    KillChild(Seq<char>),
    CountProcess,
    UncountProcess,
    CountNone,
    CountRestart(Seq<char>),
    CountPull,
    CountPullError,
}

impl View for Effect {
    type V = EffectView;

    open spec fn view(&self) -> EffectView {
        match *self {
            Effect::WriteFile { path, text } => EffectView::WriteFile(path@, text@),
            Effect::RemoveFile { path } => EffectView::RemoveFile(path@),
            Effect::KillChild { name } => EffectView::KillChild(name@),
            Effect::CountProcess => EffectView::CountProcess,
            Effect::UncountProcess => EffectView::UncountProcess,
            Effect::CountNone => EffectView::CountNone,
            Effect::CountRestart { name } => EffectView::CountRestart(name@),
            Effect::CountPull => EffectView::CountPull,
            Effect::CountPullError => EffectView::CountPullError,
        }
    }
}

/// The contents of a list of effects.
pub open spec fn effects(v: Seq<Effect>) -> Seq<EffectView> {
    v.map_values(|e: Effect| e@)
}

/// The contents of a result.
pub open spec fn text_result(r: Result<String, String>) -> Result<Seq<char>, Seq<char>> {
    match r {
        Ok(s) => Ok(s@),
        Err(e) => Err(e@),
    }
}

/// Adds an effect.
fn add_effect(list: &mut Vec<Effect>, e: Effect)
    ensures
        effects(final(list)@) == effects(old(list)@).push(e@),
{
    let ghost was = effects(list@);
    list.push(e);
    assert(effects(list@) =~= was.push(e@));
}

fn no_effects() -> (r: Vec<Effect>)
    ensures
        effects(r@) == Seq::<EffectView>::empty(),
{
    let r: Vec<Effect> = Vec::new();
    assert(effects(r@) =~= Seq::empty());
    r
}

// ---------------------------------------------------------------------------
// Starting a process
// ---------------------------------------------------------------------------

/// What pulling an image gave: its directory, its program and first arguments.
#[derive(Debug, PartialEq, Eq)]
pub struct Pulled {
    pub dir: String,
    pub entry: Result<(String, Vec<String>), String>,
}

/// The contents of a `Pulled`.
#[verifier::ext_equal]
pub struct PulledView {
    pub dir: Seq<char>,
    pub entry: Result<(Seq<char>, Seq<Seq<char>>), Seq<char>>,
}

impl View for Pulled {
    type V = PulledView;

    open spec fn view(&self) -> PulledView {
        PulledView { dir: self.dir@, entry: entry_view(self.entry) }
    }
}

/// What starting a process gave.
#[derive(Debug, PartialEq, Eq)]
pub struct StartOutcome {
    /// What pulling the image gave; it counts for processes from images alone.
    pub pulled: Result<Pulled, String>,
    /// The number of the child process, or why it could not be started.
    pub spawned: Result<Option<u32>, String>,
    pub at: Timestamp,
}

/// The contents of a `StartOutcome`.
#[verifier::ext_equal]
pub struct StartOutcomeView {
    pub pulled: Result<PulledView, Seq<char>>,
    pub spawned: Result<Option<u32>, Seq<char>>,
    pub at: Timestamp,
}

impl View for StartOutcome {
    type V = StartOutcomeView;

    open spec fn view(&self) -> StartOutcomeView {
        StartOutcomeView {
            pulled: match self.pulled {
                Ok(p) => Ok(p@),
                Err(e) => Err(e@),
            },
            spawned: match self.spawned {
                Ok(p) => Ok(p),
                Err(e) => Err(e@),
            },
            at: self.at,
        }
    }
}

/// What is denied and allowed to a process from an image in `dir`: its own directory
/// alone, unless everything is allowed.
pub open spec fn image_limits(deny: Seq<Seq<char>>, allow: Seq<Seq<char>>, dir: Seq<char>) -> (
    Seq<Seq<char>>,
    Seq<Seq<char>>,
) {
    let (d, a) = if !allow.contains("all"@) && !deny.contains("io"@) {
        (deny.push("io"@), allow.push(dir))
    } else {
        (deny, allow)
    };
    if a.contains("all"@) {
        (d.filter(|t: Seq<char>| t != "io"@), a.filter(|t: Seq<char>| t != "all"@))
    } else {
        (d, a)
    }
}

/// The configuration of a process whose image is in `dir`: it runs the image's
/// program, with the image's arguments in front of its own.
pub open spec fn image_config(
    config: ProcessConfigView,
    dir: Seq<char>,
    program: Seq<char>,
    extra: Seq<Seq<char>>,
) -> ProcessConfigView {
    let (deny, allow) = image_limits(config.deny, config.allow, dir);
    ProcessConfigView { path: program, args: extra + config.args, deny, allow, ..config }
}

/// The configuration with which a process is started, or why it is not.
pub open spec fn start_config(
    config: ProcessConfigView,
    pulled: Result<PulledView, Seq<char>>,
) -> Result<ProcessConfigView, Seq<char>> {
    if config.is_oci {
        match pulled {
            Err(e) => Err(e),
            Ok(p) => match p.entry {
                Err(e) => Err(e),
                Ok((program, extra)) => Ok(image_config(config, p.dir, program, extra)),
            },
        }
    } else {
        Ok(config)
    }
}

/// What is counted when a process is started.
pub open spec fn start_effects(
    config: ProcessConfigView,
    pulled: Result<PulledView, Seq<char>>,
) -> Seq<EffectView> {
    if !config.is_oci {
        Seq::empty()
    } else if pulled is Ok {
        seq![EffectView::CountPull]
    } else {
        seq![EffectView::CountPullError]
    }
}

/// The process that was started, or why it was not.
pub open spec fn started(config: ProcessConfigView, outcome: StartOutcomeView) -> Result<
    ManagedView,
    Seq<char>,
> {
    match start_config(config, outcome.pulled) {
        Err(e) => Err(e),
        Ok(c) => match outcome.spawned {
            Err(e) => Err("failed to spawn '"@ + c.path + "': "@ + e),
            Ok(pid) => Ok(
                ManagedView {
                    config,
                    resolved: c,
                    child: true,
                    pid,
                    status: ProcessStatus::Running,
                    started_at: Some(outcome.at),
                    restart_count: 0,
                },
            ),
        },
    }
}

/// The image that has to be pulled before a process is started.
pub open spec fn image_source(config: ProcessConfigView) -> Option<Seq<char>> {
    if config.is_oci {
        match config.oci_reference {
            Some(r) => Some(r),
            None => Some(config.path),
        }
    } else {
        None
    }
}

/// The image that has to be pulled before a process is started.
pub fn image_to_pull(config: &ProcessConfig) -> (r: Option<String>)
    ensures
        opt_text(r) == image_source(config@),
{
    if config.is_oci {
        match &config.oci_reference {
            Some(r) => Some(r.clone()),
            None => Some(config.path.clone()),
        }
    } else {
        None
    }
}

/// Two lists of strings, one after the other.
fn append_texts(a: Vec<String>, b: &Vec<String>) -> (r: Vec<String>)
    ensures
        texts(r@) == texts(a@) + texts(b@),
{
    let mut out = a;
    let ghost front = texts(a@);
    let ghost all = texts(b@);
    let mut i: usize = 0;
    assert(front + all.take(0) =~= front);
    while i < b.len()
        invariant
            i <= b.len(),
            all == texts(b@),
            texts(out@) == front + all.take(i as int),
        decreases b.len() - i,
    {
        let ghost was = texts(out@);
        out.push(b[i].clone());
        proof {
            assert(texts(out@) =~= was.push(all[i as int]));
            assert(texts(out@) =~= front + all.take(i + 1));
        }
        i += 1;
    }
    assert(all.take(i as int) =~= all);
    out
}

/// Adds a string.
fn push_text(list: &mut Vec<String>, s: String)
    ensures
        texts(final(list)@) == texts(old(list)@).push(s@),
{
    let ghost was = texts(list@);
    list.push(s);
    assert(texts(list@) =~= was.push(s@));
}

/// The configuration of a process whose image was pulled.
fn use_image(config: ProcessConfig, dir: &str, program: String, extra: Vec<String>) -> (r:
    ProcessConfig)
    ensures
        r@ == image_config(config@, dir@, program@, texts(extra@)),
{
    let ghost before = config@;
    let mut c = config;
    c.path = program;
    c.args = append_texts(extra, &c.args);
    if !has_text(&c.allow, "all") && !has_text(&c.deny, "io") {
        let mut deny = copy_texts(&c.deny);
        push_text(&mut deny, "io".to_string());
        c.deny = deny;
        let mut allow = copy_texts(&c.allow);
        push_text(&mut allow, dir.to_string());
        c.allow = allow;
    }
    if has_text(&c.allow, "all") {
        c.deny = without_text(&c.deny, "io");
        c.allow = without_text(&c.allow, "all");
    }
    c
}

/// The configuration with which a process is started, or why it is not.
pub fn configure_start(config: ProcessConfig, pulled: Result<Pulled, String>) -> (r: Result<
    ProcessConfig,
    String,
>)
    ensures
        match (
            r,
            start_config(
                config@,
                match pulled {
                    Ok(p) => Ok(p@),
                    Err(e) => Err(e@),
                },
            ),
        ) {
            (Ok(c), Ok(v)) => c@ == v,
            (Err(e), Err(v)) => e@ == v,
            _ => false,
        },
{
    if config.is_oci {
        match pulled {
            Err(e) => Err(e),
            Ok(p) => match p.entry {
                Err(e) => Err(e),
                Ok((program, extra)) => Ok(use_image(config, p.dir.as_str(), program, extra)),
            },
        }
    } else {
        Ok(config)
    }
}

/// A process from an image runs restricted to its own directory, unless everything is
/// allowed: then nothing of the file system is denied to it.
pub proof fn law_image_isolation(
    deny: Seq<Seq<char>>,
    allow: Seq<Seq<char>>,
    dir: Seq<char>,
)
    requires
        dir != "all"@,
    ensures
        ({
            let (d, a) = image_limits(deny, allow, dir);
            &&& !allow.contains("all"@) ==> d.contains("io"@)
            &&& !allow.contains("all"@) && !deny.contains("io"@) ==> a == allow.push(dir)
            &&& !allow.contains("all"@) && deny.contains("io"@) ==> a == allow
            &&& allow.contains("all"@) ==> !d.contains("io"@) && !a.contains("all"@)
        }),
{
    if !allow.contains("all"@) && !deny.contains("io"@) {
        let d = deny.push("io"@);
        assert(d[d.len() - 1] == "io"@);
        let a = allow.push(dir);
        if a.contains("all"@) {
            let i = choose|i: int| 0 <= i < a.len() && a[i] == "all"@;
            assert(i < allow.len() ==> allow[i] == "all"@);
        }
    }
    if allow.contains("all"@) {
        let not_io = |t: Seq<char>| t != "io"@;
        let not_all = |t: Seq<char>| t != "all"@;
        broadcast use vstd::seq_lib::group_filter_ensures;

        assert(forall|i: int|
            0 <= i < deny.filter(not_io).len() ==> not_io(#[trigger] deny.filter(not_io)[i]));
        assert(forall|i: int|
            0 <= i < allow.filter(not_all).len() ==> not_all(#[trigger] allow.filter(not_all)[i]));
    }
}

// ---------------------------------------------------------------------------
// Launching the program
// ---------------------------------------------------------------------------

/// The directory of a process's logs.
pub open spec fn log_dir(name: Seq<char>) -> Seq<char> {
    joined(joined(NYRUN_DIR@, "logs"@), name)
}

/// The directory of a process's logs.
pub fn logs_dir(name: &str) -> (r: String)
    ensures
        r@ == log_dir(name@),
{
    join(join(NYRUN_DIR, "logs").as_str(), name)
}

/// The restrictions with which a program is started.
#[derive(Debug, PartialEq, Eq)]
pub struct Restrictions {
    pub deny: Vec<String>,
    pub allow: Vec<String>,
    pub working_dir: String,
}

/// The contents of `Restrictions`.
#[verifier::ext_equal]
pub struct RestrictionsView {
    pub deny: Seq<Seq<char>>,
    pub allow: Seq<Seq<char>>,
    pub working_dir: Seq<char>,
}

impl View for Restrictions {
    type V = RestrictionsView;

    open spec fn view(&self) -> RestrictionsView {
        RestrictionsView {
            deny: texts(self.deny@),
            allow: texts(self.allow@),
            working_dir: self.working_dir@,
        }
    }
}

/// How a program is started.
#[derive(Debug, PartialEq, Eq)]
pub struct LaunchPlan {
    pub program: String,
    pub args: Vec<String>,
    pub env_vars: Vec<(String, String)>,
    pub restrictions: Option<Restrictions>,
    /// Where its output goes.
    pub stdout_log: String,
    /// Where its error output goes.
    pub stderr_log: String,
}

/// The contents of a `LaunchPlan`.
#[verifier::ext_equal]
pub struct LaunchPlanView {
    pub program: Seq<char>,
    pub args: Seq<Seq<char>>,
    pub env_vars: Map<Seq<char>, Seq<char>>,
    pub restrictions: Option<RestrictionsView>,
    pub stdout_log: Seq<char>,
    pub stderr_log: Seq<char>,
}

impl View for LaunchPlan {
    type V = LaunchPlanView;

    open spec fn view(&self) -> LaunchPlanView {
        LaunchPlanView {
            program: self.program@,
            args: texts(self.args@),
            env_vars: env_of(self.env_vars@),
            restrictions: match self.restrictions {
                Some(r) => Some(r@),
                None => None,
            },
            stdout_log: self.stdout_log@,
            stderr_log: self.stderr_log@,
        }
    }
}

/// The directory in which a restricted process may work: the one that its image was
/// unpacked to, or the one that its program lies in.
pub open spec fn working_dir(config: ProcessConfigView) -> Seq<char> {
    if config.is_oci {
        "/var/run/nyrun/oci"@ + "/"@ + config.name
    } else {
        match parent_of(config.path) {
            Some(p) => p,
            None => "/"@,
        }
    }
}

/// How the program of a configuration is started.
pub open spec fn launch_of(config: ProcessConfigView) -> LaunchPlanView {
    LaunchPlanView {
        program: config.path,
        args: config.args,
        env_vars: config.env_vars,
        restrictions: if config.deny.len() == 0 {
            None
        } else {
            Some(
                RestrictionsView {
                    deny: config.deny,
                    allow: config.allow,
                    working_dir: working_dir(config),
                },
            )
        },
        stdout_log: joined(log_dir(config.name), "stdout.log"@),
        stderr_log: joined(log_dir(config.name), "stderr.log"@),
    }
}

/// How the program of a configuration is started.
pub fn launch_plan(config: &ProcessConfig) -> (r: LaunchPlan)
    ensures
        r@ == launch_of(config@),
{
    let dir = logs_dir(config.name.as_str());
    assert(texts(config.deny@).len() == config.deny@.len());
    let restrictions = if config.deny.len() == 0 {
        None
    } else {
        let place = if config.is_oci {
            cat3("/var/run/nyrun/oci", "/", config.name.as_str())
        } else {
            match parent(config.path.as_str()) {
                Some(p) => p,
                None => "/".to_string(),
            }
        };
        Some(
            Restrictions {
                deny: copy_texts(&config.deny),
                allow: copy_texts(&config.allow),
                working_dir: place,
            },
        )
    };
    LaunchPlan {
        program: config.path.clone(),
        args: copy_texts(&config.args),
        env_vars: copy_env(&config.env_vars),
        restrictions,
        stdout_log: join(dir.as_str(), "stdout.log"),
        stderr_log: join(dir.as_str(), "stderr.log"),
    }
}

/// The process that was started, or why it was not, and what is counted.
pub fn start_process(config: ProcessConfig, outcome: StartOutcome) -> (r: (
    Result<ManagedProcess, String>,
    Vec<Effect>,
))
    ensures
        match (r.0, started(config@, outcome@)) {
            (Ok(p), Ok(v)) => p@ == v,
            (Err(e), Err(v)) => e@ == v,
            _ => false,
        },
        effects(r.1@) == start_effects(config@, outcome@.pulled),
{
    let mut list = no_effects();
    if config.is_oci {
        match &outcome.pulled {
            Ok(_) => {
                add_effect(&mut list, Effect::CountPull);
            },
            Err(_) => {
                add_effect(&mut list, Effect::CountPullError);
            },
        }
        assert(effects(list@) =~= start_effects(config@, outcome@.pulled));
    }
    let at = outcome.at;
    let spawned = outcome.spawned;
    let given = config.clone();
    match configure_start(config, outcome.pulled) {
        Err(e) => (Err(e), list),
        Ok(c) => match spawned {
            Err(e) => (
                Err(cat4("failed to spawn '", c.path.as_str(), "': ", e.as_str())),
                list,
            ),
            Ok(pid) => (
                Ok(
                    ManagedProcess {
                        config: given,
                        resolved: c,
                        child: true,
                        pid,
                        status: ProcessStatus::Running,
                        started_at: Some(at),
                        restart_count: 0,
                    },
                ),
                list,
            ),
        },
    }
}

// ---------------------------------------------------------------------------
// The manager
// ---------------------------------------------------------------------------

/// All processes.
#[derive(Debug, PartialEq, Eq)]
pub struct ProcessManager {
    pub processes: Vec<ManagedProcess>,
}

impl View for ProcessManager {
    type V = Seq<ManagedView>;

    open spec fn view(&self) -> Seq<ManagedView> {
        managed(self.processes@)
    }
}

/// What an operation leaves: the processes, what it answers and what is to be done.
pub type Change = (Seq<ManagedView>, Result<Seq<char>, Seq<char>>, Seq<EffectView>);

/// The answer where a process is already there.
pub open spec fn already_exists(name: Seq<char>) -> Seq<char> {
    "process '"@ + name + "' already exists"@
}

/// The answer where there is no such process.
pub open spec fn not_found(name: Seq<char>) -> Seq<char> {
    "process '"@ + name + "' not found"@
}

/// The number that is shown for a process.
pub open spec fn shown_pid(pid: Option<u32>) -> nat {
    match pid {
        Some(p) => p as nat,
        None => 0,
    }
}

/// The file that the number of a process is written to, where one is asked for.
pub open spec fn pid_effects(p: ManagedView) -> Seq<EffectView> {
    match (p.config.pid_file, p.pid) {
        (Some(path), Some(n)) => seq![EffectView::WriteFile(path, decimal(n as nat))],
        _ => Seq::empty(),
    }
}

/// What is to be done to kill a process.
pub open spec fn kill_effects(p: ManagedView) -> Seq<EffectView> {
    if p.child {
        seq![EffectView::KillChild(p.config.name)]
    } else {
        Seq::empty()
    }
}

/// A new process: refused where its name is taken; else it is started, and its number
/// written to its file.
pub open spec fn spawn_change(
    s: Seq<ManagedView>,
    config: ProcessConfigView,
    dirs: Result<(), Seq<char>>,
    outcome: StartOutcomeView,
) -> Change {
    if exists_process(s, config.name) {
        (s, Err(already_exists(config.name)), Seq::empty())
    } else if dirs is Err {
        (s, Err("failed to create dirs: "@ + dirs->Err_0), Seq::empty())
    } else {
        match started(config, outcome) {
            Err(e) => (s, Err(e), start_effects(config, outcome.pulled)),
            Ok(p) => (
                s.push(p),
                Ok(
                    "process '"@ + config.name + "' started (pid: "@ + decimal(shown_pid(p.pid))
                        + ")"@,
                ),
                start_effects(config, outcome.pulled) + pid_effects(p) + seq![
                    EffectView::CountProcess,
                ],
            ),
        }
    }
}

/// A directory that is served: it is kept as a process without a child.
pub open spec fn spa_change(s: Seq<ManagedView>, config: ProcessConfigView, at: Timestamp) -> Change {
    if exists_process(s, config.name) {
        (s, Err(already_exists(config.name)), Seq::empty())
    } else {
        (
            s.push(
                ManagedView {
                    config,
                    resolved: config,
                    child: false,
                    pid: None,
                    status: ProcessStatus::Running,
                    started_at: Some(at),
                    restart_count: 0,
                },
            ),
            Ok("SPA '"@ + config.name + "' registered"@),
            seq![EffectView::CountProcess],
        )
    }
}

/// A process that is deleted: its file is removed, its child killed.
pub open spec fn delete_change(s: Seq<ManagedView>, name: Seq<char>) -> Change {
    if !exists_process(s, name) {
        (s, Err(not_found(name)), Seq::empty())
    } else {
        let p = s[position(s, name)];
        (
            s.remove(position(s, name)),
            Ok("process '"@ + name + "' deleted"@),
            (match p.config.pid_file {
                Some(path) => seq![EffectView::RemoveFile(path)],
                None => Seq::empty(),
            }) + kill_effects(p) + seq![EffectView::UncountProcess],
        )
    }
}

/// What is said of a process that was started again.
pub open spec fn restarted_text(name: Seq<char>, pid: Option<u32>, count: nat) -> Seq<char> {
    "process '"@ + name + "' restarted (pid: "@ + decimal(shown_pid(pid)) + ", restarts: "@
        + decimal(count) + ")"@
}

/// A process that is restarted: its child is killed and it is started again, with one
/// restart more; where that fails it stays, without a child.
pub open spec fn restart_change(
    s: Seq<ManagedView>,
    name: Seq<char>,
    outcome: StartOutcomeView,
) -> Change {
    if !exists_process(s, name) {
        (s, Err(not_found(name)), Seq::empty())
    } else {
        let i = position(s, name);
        let p = s[i];
        let first = kill_effects(p) + start_effects(p.config, outcome.pulled);
        match started(p.config, outcome) {
            Err(e) => (s.update(i, p.killed()), Err(e), first),
            Ok(q) => {
                let again = ManagedView { restart_count: (p.restart_count + 1) as u32, ..q };
                (
                    s.update(i, again),
                    Ok(restarted_text(name, q.pid, (p.restart_count + 1) as nat)),
                    first + pid_effects(again) + seq![EffectView::CountRestart(name)],
                )
            },
        }
    }
}

/// A process that is reloaded: it is started a second time, and only then is the child that it
/// had killed; where the start fails nothing changes, and that child goes on.
pub open spec fn reload_change(
    s: Seq<ManagedView>,
    name: Seq<char>,
    outcome: StartOutcomeView,
) -> Change {
    if !exists_process(s, name) {
        (s, Err(not_found(name)), Seq::empty())
    } else {
        let i = position(s, name);
        let p = s[i];
        let first = start_effects(p.config, outcome.pulled);
        match started(p.config, outcome) {
            Err(e) => (s, Err(e), first),
            Ok(q) => {
                let again = ManagedView { restart_count: (p.restart_count + 1) as u32, ..q };
                (
                    s.update(i, again),
                    Ok(restarted_text(name, q.pid, (p.restart_count + 1) as nat)),
                    first + kill_effects(p) + pid_effects(again) + seq![
                        EffectView::CountRestart(name),
                    ],
                )
            },
        }
    }
}

/// The effects of killing the children of the first `n` processes.
pub open spec fn kill_list(s: Seq<ManagedView>, n: int) -> Seq<EffectView>
    decreases n,
{
    if n <= 0 {
        Seq::empty()
    } else {
        kill_list(s, n - 1) + kill_effects(s[n - 1])
    }
}

/// Whether the process `name`, where there is one, can be counted one restart more.
pub open spec fn restart_fits(s: Seq<ManagedView>, name: Seq<char>) -> bool {
    exists_process(s, name) ==> s[position(s, name)].restart_count < u32::MAX
}

/// The seconds that a process has run: none for one that never started.
pub open spec fn uptime(started_at: Option<Timestamp>, now: Timestamp) -> Option<u64> {
    match started_at {
        Some(t) => Some(
            if now.total() <= t.total() {
                0
            } else {
                ((now.total() - t.total()) / 1_000_000_000) as u64
            },
        ),
        None => None,
    }
}

/// What a listing says of a process.
pub open spec fn info_of(p: ManagedView, now: Timestamp) -> ProcessInfoView {
    ProcessInfoView {
        name: p.config.name,
        pid: p.pid,
        status: p.status,
        mode: p.config.mode,
        path: p.resolved.path,
        port_mapping: p.config.port_mapping,
        started_at: p.started_at,
        restart_count: p.restart_count,
        uptime_secs: uptime(p.started_at, now),
    }
}

/// The seconds from one point in time to another, none where it lies before.
fn elapsed(from: Timestamp, now: Timestamp) -> (r: u64)
    ensures
        Some(r) == uptime(Some(from), now),
{
    let start: i128 = from.secs as i128 * 1_000_000_000 + from.nanos as i128;
    let end: i128 = now.secs as i128 * 1_000_000_000 + now.nanos as i128;
    if end <= start {
        0
    } else {
        ((end - start) / 1_000_000_000) as u64
    }
}

/// The configuration after an update: what is given replaces what was there.
pub open spec fn updated(
    c: ProcessConfigView,
    port_mapping: Option<PortMappingView>,
    ssl: Option<SslConfigView>,
    acme: Option<Seq<char>>,
    env_file: Option<Seq<char>>,
    env_vars: Option<Map<Seq<char>, Seq<char>>>,
    args: Option<Seq<Seq<char>>>,
) -> ProcessConfigView {
    ProcessConfigView {
        port_mapping: if port_mapping is Some {
            port_mapping
        } else {
            c.port_mapping
        },
        ssl: if ssl is Some {
            ssl
        } else {
            c.ssl
        },
        acme: if acme is Some {
            acme
        } else {
            c.acme
        },
        env_file: if env_file is Some {
            env_file
        } else {
            c.env_file
        },
        env_vars: match env_vars {
            Some(v) => v,
            None => c.env_vars,
        },
        args: match args {
            Some(a) => a,
            None => c.args,
        },
        ..c
    }
}

/// The contents of optional assignments.
pub open spec fn opt_env(o: Option<Vec<(String, String)>>) -> Option<Map<Seq<char>, Seq<char>>> {
    match o {
        Some(v) => Some(env_of(v@)),
        None => None,
    }
}

/// What is said of a process that was started again.
fn say_restarted(name: &str, pid: Option<u32>, count: u32) -> (r: String)
    ensures
        r@ == restarted_text(name@, pid, count as nat),
{
    let number: u32 = match pid {
        Some(n) => n,
        None => 0,
    };
    let message = cat5(
        "process '",
        name,
        "' restarted (pid: ",
        number_text(number as u64).as_str(),
        ", restarts: ",
    );
    cat3(message.as_str(), number_text(count as u64).as_str(), ")")
}

/// A process that is listed with another path.
pub open spec fn with_path(p: ManagedView, path: Seq<char>) -> ManagedView {
    ManagedView { resolved: ProcessConfigView { path, ..p.resolved }, ..p }
}

/// A process with another configuration.
pub open spec fn with_config(p: ManagedView, c: ProcessConfigView) -> ManagedView {
    ManagedView { config: c, ..p }
}

impl ProcessManager {
    /// No two processes share a name.
    pub open spec fn valid(self) -> bool {
        distinct_names(self@)
    }

    /// No processes.
    pub fn new() -> (r: ProcessManager)
        ensures
            r.valid(),
            r@ == Seq::<ManagedView>::empty(),
    {
        let r = ProcessManager { processes: Vec::new() };
        assert(r@ =~= Seq::empty());
        r
    }

    /// Where the process `name` stands, or the number of processes.
    fn find(&self, name: &str) -> (r: usize)
        ensures
            r == position(self@, name@),
            r <= self.processes@.len(),
            self@.len() == self.processes@.len(),
    {
        let mut i: usize = 0;
        while i < self.processes.len()
            invariant
                i <= self.processes@.len(),
                forall|j: int| 0 <= j < i ==> (#[trigger] self@[j]).config.name != name@,
            decreases self.processes@.len() - i,
        {
            assert(self@[i as int] == self.processes@[i as int]@);
            if same(self.processes[i].config.name.as_str(), name) {
                proof {
                    lemma_position_is(self@, name@, i as int);
                }
                return i;
            }
            i += 1;
        }
        proof {
            lemma_position_is(self@, name@, i as int);
        }
        i
    }

    /// Whether there is a process `name`.
    pub fn contains(&self, name: &str) -> (r: bool)
        ensures
            r == exists_process(self@, name@),
    {
        self.find(name) < self.processes.len()
    }

    /// Refuses a name that is taken.
    pub fn check_new(&self, name: &str) -> (r: Result<(), String>)
        ensures
            match r {
                Ok(_) => !exists_process(self@, name@),
                Err(e) => exists_process(self@, name@) && e@ == already_exists(name@),
            },
    {
        if self.contains(name) {
            Err(cat3("process '", name, "' already exists"))
        } else {
            Ok(())
        }
    }

    /// Keeps a process that has a name of its own.
    fn keep(&mut self, p: ManagedProcess)
        requires
            old(self).valid(),
            !exists_process(old(self)@, p@.config.name),
        ensures
            final(self).valid(),
            final(self)@ == old(self)@.push(p@),
    {
        let ghost was = self@;
        self.processes.push(p);
        proof {
            assert(self@ =~= was.push(p@));
            lemma_position(was, p@.config.name);
            assert forall|i: int, j: int|
                #![trigger self@[i], self@[j]]
                0 <= i < j < self@.len() implies self@[i].config.name != self@[j].config.name by {
                if j < was.len() {
                    assert(self@[i] == was[i] && self@[j] == was[j]);
                } else {
                    assert(self@[i] == was[i]);
                }
            }
        }
    }

    /// Puts a process in the place of the one of its name.
    fn replace(&mut self, i: usize, p: ManagedProcess)
        requires
            old(self).valid(),
            i < old(self)@.len(),
            p@.config.name == old(self)@[i as int].config.name,
        ensures
            final(self).valid(),
            final(self)@ == old(self)@.update(i as int, p@),
    {
        let ghost was = self@;
        self.processes.set(i, p);
        proof {
            assert(self@ =~= was.update(i as int, p@));
            assert forall|a: int, b: int|
                #![trigger self@[a], self@[b]]
                0 <= a < b < self@.len() implies self@[a].config.name != self@[b].config.name by {
                assert(was[a].config.name != was[b].config.name);
            }
        }
    }

    /// Keeps a process that was started. `dirs` is what creating the directory of its
    /// logs gave, `outcome` what starting it gave.
    pub fn spawn_process(
        &mut self,
        config: ProcessConfig,
        dirs: Result<(), String>,
        outcome: StartOutcome,
    ) -> (r: (Result<String, String>, Vec<Effect>))
        requires
            old(self).valid(),
        ensures
            final(self).valid(),
            (final(self)@, text_result(r.0), effects(r.1@)) == spawn_change(
                old(self)@,
                config@,
                match dirs {
                    Ok(_) => Ok(()),
                    Err(e) => Err(e@),
                },
                outcome@,
            ),
    {
        match self.check_new(config.name.as_str()) {
            Ok(_) => {},
            Err(e) => {
                return (Err(e), no_effects());
            },
        }
        match dirs {
            Ok(_) => {},
            Err(e) => {
                return (Err(cat2("failed to create dirs: ", e.as_str())), no_effects());
            },
        }
        let name = config.name.clone();
        let ghost before = self@;
        let ghost given = config@;
        let (result, first) = start_process(config, outcome);
        let mut list = first;
        match result {
            Err(e) => (Err(e), list),
            Ok(p) => {
                proof {
                    assert(p@.config.name == given.name);
                }
                let pid = p.pid;
                write_pid(&mut list, &p);
                let number: u32 = match pid {
                    Some(n) => n,
                    None => 0,
                };
                self.keep(p);
                let ghost was = effects(list@);
                add_effect(&mut list, Effect::CountProcess);
                assert(effects(list@) =~= was + seq![EffectView::CountProcess]);
                (
                    Ok(
                        cat5(
                            "process '",
                            name.as_str(),
                            "' started (pid: ",
                            number_text(number as u64).as_str(),
                            ")",
                        ),
                    ),
                    list,
                )
            },
        }
    }

    /// Keeps a directory that is served.
    pub fn register_spa(&mut self, config: ProcessConfig, at: Timestamp) -> (r: (
        Result<String, String>,
        Vec<Effect>,
    ))
        requires
            old(self).valid(),
        ensures
            final(self).valid(),
            (final(self)@, text_result(r.0), effects(r.1@)) == spa_change(old(self)@, config@, at),
    {
        match self.check_new(config.name.as_str()) {
            Ok(_) => {},
            Err(e) => {
                return (Err(e), no_effects());
            },
        }
        let message = cat3("SPA '", config.name.as_str(), "' registered");
        let resolved = config.clone();
        self.keep(
            ManagedProcess {
                config,
                resolved,
                child: false,
                pid: None,
                status: ProcessStatus::Running,
                started_at: Some(at),
                restart_count: 0,
            },
        );
        let mut list = no_effects();
        add_effect(&mut list, Effect::CountProcess);
        assert(effects(list@) =~= seq![EffectView::CountProcess]);
        (Ok(message), list)
    }

    /// What a listing says of all processes.
    pub fn list(&self, now: Timestamp) -> (r: Vec<ProcessInfo>)
        ensures
            infos(r@) == self@.map_values(|p: ManagedView| info_of(p, now)),
    {
        let mut out: Vec<ProcessInfo> = Vec::new();
        let mut i: usize = 0;
        let ghost all = self@;
        let ghost f = |p: ManagedView| info_of(p, now);
        assert(infos(out@) =~= all.take(0).map_values(f));
        while i < self.processes.len()
            invariant
                i <= self.processes@.len(),
                all == self@,
                f == (|p: ManagedView| info_of(p, now)),
                infos(out@) == all.take(i as int).map_values(f),
            decreases self.processes@.len() - i,
        {
            let ghost was = infos(out@);
            let p = &self.processes[i];
            assert(self@[i as int] == p@);
            let uptime_secs: Option<u64> = match p.started_at {
                Some(t) => Some(elapsed(t, now)),
                None => None,
            };
            out.push(
                ProcessInfo {
                    name: p.config.name.clone(),
                    pid: p.pid,
                    status: p.status,
                    mode: p.config.mode,
                    path: p.resolved.path.clone(),
                    port_mapping: crate::protocol::copy_mapping(&p.config.port_mapping),
                    started_at: p.started_at,
                    restart_count: p.restart_count,
                    uptime_secs,
                },
            );
            proof {
                assert(infos(out@) =~= was.push(f(all[i as int])));
                assert(all.take(i + 1) =~= all.take(i as int).push(all[i as int]));
                assert(infos(out@) =~= all.take(i + 1).map_values(f));
            }
            i += 1;
        }
        assert(all.take(i as int) =~= all);
        out
    }

    /// Deletes a process.
    pub fn delete(&mut self, name: &str) -> (r: (Result<String, String>, Vec<Effect>))
        requires
            old(self).valid(),
        ensures
            final(self).valid(),
            (final(self)@, text_result(r.0), effects(r.1@)) == delete_change(old(self)@, name@),
    {
        let i = self.find(name);
        proof {
            lemma_position(self@, name@);
        }
        if i == self.processes.len() {
            return (Err(cat3("process '", name, "' not found")), no_effects());
        }
        let ghost was = self@;
        let p = self.processes.remove(i);
        assert(p@ == was[i as int]);
        let mut list = no_effects();
        match &p.config.pid_file {
            Some(path) => {
                add_effect(&mut list, Effect::RemoveFile { path: path.clone() });
            },
            None => {},
        }
        let ghost one = effects(list@);
        if p.child {
            add_effect(&mut list, Effect::KillChild { name: p.config.name.clone() });
        }
        let ghost two = effects(list@);
        add_effect(&mut list, Effect::UncountProcess);
        proof {
            assert(two =~= one + kill_effects(p@));
            assert(effects(list@) =~= two + seq![EffectView::UncountProcess]);
            assert(one =~= match p@.config.pid_file {
                Some(path) => seq![EffectView::RemoveFile(path)],
                None => Seq::empty(),
            });
            assert(self@ =~= was.remove(i as int));
            assert forall|a: int, b: int|
                #![trigger self@[a], self@[b]]
                0 <= a < b < self@.len() implies self@[a].config.name != self@[b].config.name by {
                let x = if a < i {
                    a
                } else {
                    a + 1
                };
                let y = if b < i {
                    b
                } else {
                    b + 1
                };
                assert(self@[a] == was[x] && self@[b] == was[y]);
            }
        }
        (Ok(cat3("process '", name, "' deleted")), list)
    }

    /// Kills the child of a process that is to be restarted, and gives the
    /// configuration to start it with.
    pub fn stop_for_restart(&mut self, name: &str) -> (r: (
        Result<ProcessConfig, String>,
        Vec<Effect>,
    ))
        requires
            old(self).valid(),
        ensures
            final(self).valid(),
            if exists_process(old(self)@, name@) {
                let i = position(old(self)@, name@);
                let p = old(self)@[i];
                &&& final(self)@ == old(self)@.update(i, p.killed())
                &&& r.0 is Ok && r.0->Ok_0@ == p.config
                &&& effects(r.1@) == kill_effects(p)
            } else {
                &&& final(self)@ == old(self)@
                &&& r.0 is Err && r.0->Err_0@ == not_found(name@)
                &&& effects(r.1@) == Seq::<EffectView>::empty()
            },
    {
        let i = self.find(name);
        if i == self.processes.len() {
            return (Err(cat3("process '", name, "' not found")), no_effects());
        }
        let p = &self.processes[i];
        assert(self@[i as int] == p@);
        let mut list = no_effects();
        if p.child {
            add_effect(&mut list, Effect::KillChild { name: p.config.name.clone() });
        }
        assert(effects(list@) =~= kill_effects(p@));
        let config = p.config.clone();
        let stopped = ManagedProcess {
            config: p.config.clone(),
            resolved: p.resolved.clone(),
            child: false,
            pid: None,
            status: ProcessStatus::Stopped,
            started_at: p.started_at,
            restart_count: p.restart_count,
        };
        self.replace(i, stopped);
        (Ok(config), list)
    }

    /// Whether the process `name`, where there is one, can be counted one restart more.
    pub fn can_restart(&self, name: &str) -> (r: bool)
        ensures
            r == restart_fits(self@, name@),
    {
        let i = self.find(name);
        if i == self.processes.len() {
            return true;
        }
        assert(self@[i as int] == self.processes@[i as int]@);
        self.processes[i].restart_count < u32::MAX
    }

    /// Restarts a process. `outcome` is what starting it again gave.
    pub fn restart(&mut self, name: &str, outcome: StartOutcome) -> (r: (
        Result<String, String>,
        Vec<Effect>,
    ))
        requires
            old(self).valid(),
            restart_fits(old(self)@, name@),
        ensures
            final(self).valid(),
            (final(self)@, text_result(r.0), effects(r.1@)) == restart_change(
                old(self)@,
                name@,
                outcome@,
            ),
    {
        let ghost before = self@;
        let ghost given = outcome@;
        let i = self.find(name);
        proof {
            lemma_position(before, name@);
        }
        if i == self.processes.len() {
            return (Err(cat3("process '", name, "' not found")), no_effects());
        }
        assert(self@[i as int] == self.processes@[i as int]@);
        let count: u32 = self.processes[i].restart_count + 1;
        let (stopped, kill) = self.stop_for_restart(name);
        let mut list = kill;
        let config = match stopped {
            Ok(c) => c,
            Err(e) => {
                return (Err(e), list);
            },
        };
        let ghost killed = self@;
        let ghost p = before[i as int];
        assert(killed == before.update(i as int, p.killed()));
        let (result, more) = start_process(config, outcome);
        append_effects(&mut list, more);
        let ghost first = kill_effects(p) + start_effects(p.config, given.pulled);
        assert(effects(list@) == first);
        match result {
            Err(e) => (Err(e), list),
            Ok(q) => {
                let again = ManagedProcess {
                    config: q.config,
                    resolved: q.resolved,
                    child: q.child,
                    pid: q.pid,
                    status: q.status,
                    started_at: q.started_at,
                    restart_count: count,
                };
                write_pid(&mut list, &again);
                let message = say_restarted(name, again.pid, count);
                let ghost kept = again@;
                assert(kept.config.name == p.config.name);
                self.replace(i, again);
                assert(self@ =~= before.update(i as int, kept));
                let ghost was = effects(list@);
                add_effect(&mut list, Effect::CountRestart { name: name.to_string() });
                assert(effects(list@) =~= was + seq![EffectView::CountRestart(name@)]);
                (Ok(message), list)
            },
        }
    }

    /// Reloads a process: the child that it has goes on until the new one is there.
    /// `outcome` is what starting it a second time gave.
    pub fn reload(&mut self, name: &str, outcome: StartOutcome) -> (r: (
        Result<String, String>,
        Vec<Effect>,
    ))
        requires
            old(self).valid(),
            restart_fits(old(self)@, name@),
        ensures
            final(self).valid(),
            (final(self)@, text_result(r.0), effects(r.1@)) == reload_change(
                old(self)@,
                name@,
                outcome@,
            ),
    {
        let ghost before = self@;
        let i = self.find(name);
        proof {
            lemma_position(before, name@);
        }
        if i == self.processes.len() {
            return (Err(cat3("process '", name, "' not found")), no_effects());
        }
        assert(self@[i as int] == self.processes@[i as int]@);
        let ghost p = before[i as int];
        let count: u32 = self.processes[i].restart_count + 1;
        let had_child = self.processes[i].child;
        let config = self.processes[i].config.clone();
        let (result, first) = start_process(config, outcome);
        let mut list = first;
        match result {
            Err(e) => (Err(e), list),
            Ok(q) => {
                let ghost was = effects(list@);
                if had_child {
                    add_effect(&mut list, Effect::KillChild { name: name.to_string() });
                }
                assert(effects(list@) =~= was + kill_effects(p));
                let again = ManagedProcess {
                    config: q.config,
                    resolved: q.resolved,
                    child: q.child,
                    pid: q.pid,
                    status: q.status,
                    started_at: q.started_at,
                    restart_count: count,
                };
                write_pid(&mut list, &again);
                let message = say_restarted(name, again.pid, count);
                let ghost kept = again@;
                assert(kept.config.name == p.config.name);
                self.replace(i, again);
                assert(self@ =~= before.update(i as int, kept));
                let ghost then = effects(list@);
                add_effect(&mut list, Effect::CountRestart { name: name.to_string() });
                assert(effects(list@) =~= then + seq![EffectView::CountRestart(name@)]);
                (Ok(message), list)
            },
        }
    }

    /// Kills all processes and forgets them.
    pub fn kill_all(&mut self) -> (r: (String, Vec<Effect>))
        ensures
            final(self).valid(),
            final(self)@ == Seq::<ManagedView>::empty(),
            r.0@ == "all processes stopped"@,
            effects(r.1@) == kill_list(old(self)@, old(self)@.len() as int).push(
                EffectView::CountNone,
            ),
    {
        let mut list = no_effects();
        let mut i: usize = 0;
        while i < self.processes.len()
            invariant
                i <= self.processes@.len(),
                effects(list@) == kill_list(self@, i as int),
            decreases self.processes@.len() - i,
        {
            let ghost was = effects(list@);
            assert(self@[i as int] == self.processes@[i as int]@);
            if self.processes[i].child {
                add_effect(
                    &mut list,
                    Effect::KillChild { name: self.processes[i].config.name.clone() },
                );
            }
            assert(effects(list@) =~= was + kill_effects(self@[i as int]));
            i += 1;
        }
        assert(self@.len() == i);
        add_effect(&mut list, Effect::CountNone);
        self.processes.clear();
        assert(self@ =~= Seq::empty());
        ("all processes stopped".to_string(), list)
    }

    /// The configurations of all processes.
    pub fn get_configs(&self) -> (r: Vec<ProcessConfig>)
        ensures
            configs(r@) == self@.map_values(|p: ManagedView| p.config),
    {
        let mut out: Vec<ProcessConfig> = Vec::new();
        let mut i: usize = 0;
        let ghost all = self@;
        let ghost f = |p: ManagedView| p.config;
        assert(configs(out@) =~= all.take(0).map_values(f));
        while i < self.processes.len()
            invariant
                i <= self.processes@.len(),
                all == self@,
                f == (|p: ManagedView| p.config),
                configs(out@) == all.take(i as int).map_values(f),
            decreases self.processes@.len() - i,
        {
            let ghost was = configs(out@);
            out.push(self.processes[i].config.clone());
            proof {
                assert(configs(out@) =~= was.push(f(all[i as int])));
                assert(all.take(i + 1) =~= all.take(i as int).push(all[i as int]));
                assert(configs(out@) =~= all.take(i + 1).map_values(f));
            }
            i += 1;
        }
        assert(all.take(i as int) =~= all);
        out
    }

    /// The configuration of one process.
    pub fn config_of(&self, name: &str) -> (r: Option<ProcessConfig>)
        ensures
            match r {
                Some(c) => exists_process(self@, name@) && c@ == self@[position(
                    self@,
                    name@,
                )].config,
                None => !exists_process(self@, name@),
            },
    {
        let i = self.find(name);
        if i == self.processes.len() {
            return None;
        }
        assert(self@[i as int] == self.processes@[i as int]@);
        Some(self.processes[i].config.clone())
    }

    /// Changes the configuration of a process and gives the one that it had.
    pub fn update_config(
        &mut self,
        name: &str,
        port_mapping: Option<PortMapping>,
        ssl: Option<SslConfig>,
        acme: Option<String>,
        env_file: Option<String>,
        env_vars: Option<Vec<(String, String)>>,
        args: Option<Vec<String>>,
    ) -> (r: Result<ProcessConfig, String>)
        requires
            old(self).valid(),
        ensures
            final(self).valid(),
            if exists_process(old(self)@, name@) {
                let i = position(old(self)@, name@);
                let p = old(self)@[i];
                &&& r is Ok && r->Ok_0@ == p.config
                &&& final(self)@ == old(self)@.update(
                    i,
                    with_config(
                        p,
                        updated(
                            p.config,
                            opt_mapping(port_mapping),
                            opt_ssl(ssl),
                            opt_text(acme),
                            opt_text(env_file),
                            opt_env(env_vars),
                            crate::protocol::opt_texts(args),
                        ),
                    ),
                )
            } else {
                &&& r is Err && r->Err_0@ == not_found(name@)
                &&& final(self)@ == old(self)@
            },
    {
        let i = self.find(name);
        if i == self.processes.len() {
            return Err(cat3("process '", name, "' not found"));
        }
        let p = &self.processes[i];
        assert(self@[i as int] == p@);
        let old_config = p.config.clone();
        let mut c = p.config.clone();
        if port_mapping.is_some() {
            c.port_mapping = port_mapping;
        }
        if ssl.is_some() {
            c.ssl = ssl;
        }
        if acme.is_some() {
            c.acme = acme;
        }
        if env_file.is_some() {
            c.env_file = env_file;
        }
        match env_vars {
            Some(v) => {
                c.env_vars = v;
            },
            None => {},
        }
        match args {
            Some(a) => {
                c.args = a;
            },
            None => {},
        }
        let changed = ManagedProcess {
            config: c,
            resolved: p.resolved.clone(),
            child: p.child,
            pid: p.pid,
            status: p.status,
            started_at: p.started_at,
            restart_count: p.restart_count,
        };
        self.replace(i, changed);
        Ok(old_config)
    }

    /// Gives a process another configuration; nothing where there is no process.
    pub fn set_config(&mut self, name: &str, config: ProcessConfig)
        requires
            old(self).valid(),
            config@.name == name@,
        ensures
            final(self).valid(),
            final(self)@ == if exists_process(old(self)@, name@) {
                let i = position(old(self)@, name@);
                old(self)@.update(i, with_config(old(self)@[i], config@))
            } else {
                old(self)@
            },
    {
        let i = self.find(name);
        proof {
            lemma_position(self@, name@);
        }
        if i == self.processes.len() {
            return;
        }
        let p = &self.processes[i];
        assert(self@[i as int] == p@);
        let changed = ManagedProcess {
            config,
            resolved: p.resolved.clone(),
            child: p.child,
            pid: p.pid,
            status: p.status,
            started_at: p.started_at,
            restart_count: p.restart_count,
        };
        self.replace(i, changed);
    }

    /// Gives a process another image and program, under whose path it is listed; nothing
    /// where there is no process.
    pub fn update_oci_config(&mut self, name: &str, oci_reference: &str, entrypoint: &str)
        requires
            old(self).valid(),
        ensures
            final(self).valid(),
            final(self)@ == if exists_process(old(self)@, name@) {
                let i = position(old(self)@, name@);
                let p = old(self)@[i];
                old(self)@.update(
                    i,
                    with_path(
                        with_config(
                            p,
                            ProcessConfigView {
                                oci_reference: Some(oci_reference@),
                                path: entrypoint@,
                                is_oci: true,
                                ..p.config
                            },
                        ),
                        entrypoint@,
                    ),
                )
            } else {
                old(self)@
            },
    {
        let i = self.find(name);
        if i == self.processes.len() {
            return;
        }
        let p = &self.processes[i];
        assert(self@[i as int] == p@);
        let mut c = p.config.clone();
        c.oci_reference = Some(oci_reference.to_string());
        c.path = entrypoint.to_string();
        c.is_oci = true;
        let mut resolved = p.resolved.clone();
        resolved.path = entrypoint.to_string();
        let changed = ManagedProcess {
            config: c,
            resolved,
            child: p.child,
            pid: p.pid,
            status: p.status,
            started_at: p.started_at,
            restart_count: p.restart_count,
        };
        self.replace(i, changed);
    }
}

/// What starting the processes of a list gave, each in its turn.
#[derive(Debug, PartialEq, Eq)]
pub struct SpawnOutcome {
    pub dirs: Result<(), String>,
    pub start: StartOutcome,
}

/// A process of a list that comes back: a directory that is served is kept as such, and
/// anything else is started.
pub open spec fn restore_change(
    s: Seq<ManagedView>,
    config: ProcessConfigView,
    dirs: Result<(), Seq<char>>,
    outcome: StartOutcomeView,
) -> Change {
    if config.spa {
        spa_change(s, config, outcome.at)
    } else {
        spawn_change(s, config, dirs, outcome)
    }
}

/// The processes after the first `n` of a list were started, one after the other; one that
/// cannot be started is passed over.
pub open spec fn restored_change(
    s: Seq<ManagedView>,
    list: Seq<ProcessConfig>,
    outcomes: Seq<SpawnOutcome>,
    n: int,
) -> (Seq<ManagedView>, Seq<EffectView>)
    decreases n,
{
    if n <= 0 {
        (s, Seq::empty())
    } else {
        let (before, first) = restored_change(s, list, outcomes, n - 1);
        let (after, _, more) = restore_change(
            before,
            list[n - 1]@,
            unit_view(outcomes[n - 1].dirs),
            outcomes[n - 1].start@,
        );
        (after, first + more)
    }
}

impl ProcessManager {
    /// Starts the processes of a list again, one after the other.
    pub fn restore_processes(
        &mut self,
        list: Vec<ProcessConfig>,
        outcomes: Vec<SpawnOutcome>,
    ) -> (r: Vec<Effect>)
        requires
            old(self).valid(),
            list@.len() == outcomes@.len(),
        ensures
            final(self).valid(),
            (final(self)@, effects(r@)) == restored_change(
                old(self)@,
                list@,
                outcomes@,
                list@.len() as int,
            ),
    {
        let ghost all = list@;
        let ghost given = outcomes@;
        let ghost before = self@;
        let mut configs_left = list;
        let mut outcomes_left = outcomes;
        let mut todo = no_effects();
        while configs_left.len() > 0
            invariant
                self.valid(),
                all.len() == given.len(),
                configs_left@.len() == outcomes_left@.len(),
                configs_left@.len() <= all.len(),
                configs_left@ == all.skip(all.len() - configs_left@.len()),
                outcomes_left@ == given.skip(given.len() - outcomes_left@.len()),
                (self@, effects(todo@)) == restored_change(
                    before,
                    all,
                    given,
                    all.len() - configs_left@.len(),
                ),
            decreases configs_left@.len(),
        {
            let ghost k = all.len() - configs_left@.len();
            let config = configs_left.remove(0);
            let outcome = outcomes_left.remove(0);
            assert(config == all[k]);
            assert(outcome == given[k]);
            let (_result, more) = if config.spa {
                self.register_spa(config, outcome.start.at)
            } else {
                self.spawn_process(config, outcome.dirs, outcome.start)
            };
            append_effects(&mut todo, more);
            assert(configs_left@ =~= all.skip(k + 1));
            assert(outcomes_left@ =~= given.skip(k + 1));
        }
        todo
    }
}

/// Adds the file that the number of a process is written to.
fn write_pid(list: &mut Vec<Effect>, p: &ManagedProcess)
    ensures
        effects(final(list)@) == effects(old(list)@) + pid_effects(p@),
{
    let ghost was = effects(list@);
    match &p.config.pid_file {
        Some(path) => match p.pid {
            Some(n) => {
                add_effect(
                    list,
                    Effect::WriteFile { path: path.clone(), text: number_text(n as u64) },
                );
            },
            None => {},
        },
        None => {},
    }
    assert(effects(list@) =~= was + pid_effects(p@));
}

/// Adds a list of effects.
fn append_effects(list: &mut Vec<Effect>, more: Vec<Effect>)
    ensures
        effects(final(list)@) == effects(old(list)@) + effects(more@),
{
    let ghost was = effects(list@);
    let ghost extra = more@;
    let mut rest = more;
    let ghost before = list@;
    list.append(&mut rest);
    assert(list@ =~= before + extra);
    assert(effects(list@) =~= was + effects(extra));
}

// ---------------------------------------------------------------------------
// Laws of the manager
// ---------------------------------------------------------------------------

/// A process that was started and is then deleted leaves the others as they were.
pub proof fn law_spawn_then_delete(
    s: Seq<ManagedView>,
    config: ProcessConfigView,
    outcome: StartOutcomeView,
)
    requires
        distinct_names(s),
        spawn_change(s, config, Ok(()), outcome).1 is Ok,
    ensures
        delete_change(spawn_change(s, config, Ok(()), outcome).0, config.name).0 == s,
        delete_change(spawn_change(s, config, Ok(()), outcome).0, config.name).1 is Ok,
{
    let t = spawn_change(s, config, Ok(()), outcome).0;
    lemma_position(s, config.name);
    lemma_position_is(t, config.name, s.len() as int);
    assert(t.remove(s.len() as int) =~= s);
}

/// A name that is taken cannot be taken again, and the refusal changes nothing.
pub proof fn law_name_is_taken(
    s: Seq<ManagedView>,
    first: ProcessConfigView,
    second: ProcessConfigView,
    dirs: Result<(), Seq<char>>,
    a: StartOutcomeView,
    b: StartOutcomeView,
)
    requires
        spawn_change(s, first, Ok(()), a).1 is Ok,
        second.name == first.name,
    ensures
        ({
            let t = spawn_change(s, first, Ok(()), a).0;
            spawn_change(t, second, dirs, b) == (
                t,
                Err::<Seq<char>, Seq<char>>(already_exists(first.name)),
                Seq::<EffectView>::empty(),
            )
        }),
{
    let t = spawn_change(s, first, Ok(()), a).0;
    lemma_position(s, first.name);
    lemma_position_is(t, first.name, s.len() as int);
}

/// A restart counts one more and keeps the configuration as it was given; the process runs
/// with what that configuration and the image make, and no other process changes.
pub proof fn law_restart(s: Seq<ManagedView>, name: Seq<char>, outcome: StartOutcomeView)
    requires
        distinct_names(s),
        restart_fits(s, name),
        restart_change(s, name, outcome).1 is Ok,
    ensures
        ({
            let t = restart_change(s, name, outcome).0;
            let i = position(s, name);
            &&& t.len() == s.len() && 0 <= i < s.len()
            &&& t[i].restart_count == s[i].restart_count + 1
            &&& t[i].config.name == name && t[i].status == ProcessStatus::Running
            &&& t[i].config == s[i].config
            &&& start_config(s[i].config, outcome.pulled) == Ok::<_, Seq<char>>(t[i].resolved)
            &&& forall|j: int| 0 <= j < s.len() && j != i ==> t[j] == #[trigger] s[j]
        }),
{
    lemma_position(s, name);
}

/// A process that was started and is restarted on the same image runs as it did at first:
/// with the same program, the same arguments and the same restrictions.
pub proof fn law_restart_same_image(
    s: Seq<ManagedView>,
    config: ProcessConfigView,
    first: StartOutcomeView,
    again: StartOutcomeView,
)
    requires
        distinct_names(s),
        spawn_change(s, config, Ok(()), first).1 is Ok,
        restart_change(spawn_change(s, config, Ok(()), first).0, config.name, again).1 is Ok,
        again.pulled == first.pulled,
    ensures
        ({
            let t = spawn_change(s, config, Ok(()), first).0;
            let u = restart_change(t, config.name, again).0;
            let n = s.len() as int;
            &&& t.len() == n + 1 && u.len() == n + 1
            &&& u[n].resolved == t[n].resolved
            &&& u[n].config == config && t[n].config == config
            &&& u[n].restart_count == 1
        }),
{
    let t = spawn_change(s, config, Ok(()), first).0;
    lemma_position(s, config.name);
    lemma_position_is(t, config.name, s.len() as int);
}

/// A reload that fails changes nothing: the process keeps its child, its number and its
/// status. One that succeeds leaves what a restart leaves, and the child that was there is
/// killed once the new one has been started.
pub proof fn law_reload(s: Seq<ManagedView>, name: Seq<char>, outcome: StartOutcomeView)
    requires
        distinct_names(s),
        exists_process(s, name),
        restart_fits(s, name),
    ensures
        ({
            let (t, result, todo) = reload_change(s, name, outcome);
            let p = s[position(s, name)];
            &&& result is Ok <==> started(p.config, outcome) is Ok
            &&& result is Err ==> t == s && !todo.contains(EffectView::KillChild(name))
            &&& result is Ok ==> t == restart_change(s, name, outcome).0 && result
                == restart_change(s, name, outcome).1
            &&& result is Ok && p.child ==> todo.contains(EffectView::KillChild(name))
        }),
{
    let (t, result, todo) = reload_change(s, name, outcome);
    let p = s[position(s, name)];
    lemma_position(s, name);
    if result is Ok && p.child {
        let n = start_effects(p.config, outcome.pulled).len() as int;
        assert(todo[n] == EffectView::KillChild(name));
    }
}

// ---------------------------------------------------------------------------
// Watching the children
// ---------------------------------------------------------------------------

/// Whether the child of a process is looked after.
pub open spec fn is_watched(p: ManagedView) -> bool {
    p.status == ProcessStatus::Running && p.child
}

/// A process after its child was found to have ended, where it was.
pub open spec fn after_check(p: ManagedView, exited: Seq<Seq<char>>) -> ManagedView {
    if is_watched(p) && exited.contains(p.config.name) {
        ManagedView { status: ProcessStatus::Errored, ..p }
    } else {
        p
    }
}

/// The names of the first `n` processes that satisfy the test, in order.
pub open spec fn names_where(
    s: Seq<ManagedView>,
    n: int,
    test: spec_fn(ManagedView) -> bool,
) -> Seq<Seq<char>>
    decreases n,
{
    if n <= 0 {
        Seq::empty()
    } else if test(s[n - 1]) {
        names_where(s, n - 1, test).push(s[n - 1].config.name)
    } else {
        names_where(s, n - 1, test)
    }
}

/// A process that is looked after and whose child has ended is among those that are to be
/// restarted, and no other is.
pub proof fn law_crashed_restarts(s: Seq<ManagedView>, n: int, exited: Seq<Seq<char>>, i: int)
    requires
        distinct_names(s),
        0 <= i < n <= s.len(),
    ensures
        names_where(
            s,
            n,
            |p: ManagedView| is_watched(p) && exited.contains(p.config.name),
        ).contains(s[i].config.name) <==> is_watched(s[i]) && exited.contains(s[i].config.name),
{
    let test = |p: ManagedView| is_watched(p) && exited.contains(p.config.name);
    lemma_names_where(s, n, test, s[i].config.name);
    if names_where(s, n, test).contains(s[i].config.name) {
        let j = choose|j: int|
            0 <= j < n && test(#[trigger] s[j]) && s[j].config.name == s[i].config.name;
        if j != i {
            assert(s[i].config.name != s[j].config.name);
        }
    }
    assert(test(s[i]) == (is_watched(s[i]) && exited.contains(s[i].config.name)));
}

/// The names of the processes that satisfy a test are the names of such processes.
proof fn lemma_names_where(
    s: Seq<ManagedView>,
    n: int,
    test: spec_fn(ManagedView) -> bool,
    name: Seq<char>,
)
    requires
        0 <= n <= s.len(),
    ensures
        names_where(s, n, test).contains(name) <==> exists|j: int|
            0 <= j < n && test(#[trigger] s[j]) && s[j].config.name == name,
    decreases n,
{
    if n > 0 {
        lemma_names_where(s, n - 1, test, name);
        let front = names_where(s, n - 1, test);
        let all = names_where(s, n, test);
        if all.contains(name) {
            let k = choose|k: int| 0 <= k < all.len() && all[k] == name;
            if k < front.len() {
                assert(front[k] == name);
            } else {
                assert(test(s[n - 1]));
            }
        }
        if exists|j: int| 0 <= j < n && test(#[trigger] s[j]) && s[j].config.name == name {
            let j = choose|j: int| 0 <= j < n && test(#[trigger] s[j]) && s[j].config.name == name;
            if j == n - 1 {
                assert(all[all.len() - 1] == name);
            } else {
                let k = choose|k: int| 0 <= k < front.len() && front[k] == name;
                assert(all[k] == name);
            }
        }
    }
}

/// The processes whose statistics are collected: their names and numbers.
pub open spec fn with_pid(s: Seq<ManagedView>, n: int) -> Seq<(Seq<char>, u32)>
    decreases n,
{
    if n <= 0 {
        Seq::empty()
    } else {
        match s[n - 1].pid {
            Some(p) => with_pid(s, n - 1).push((s[n - 1].config.name, p)),
            None => with_pid(s, n - 1),
        }
    }
}

/// The contents of a list of names and numbers.
pub open spec fn pairs(v: Seq<(String, u32)>) -> Seq<(Seq<char>, u32)> {
    v.map_values(|p: (String, u32)| (p.0@, p.1))
}

impl ProcessManager {
    /// The processes whose children are to be looked after.
    pub fn watched(&self) -> (r: Vec<String>)
        ensures
            texts(r@) == names_where(self@, self@.len() as int, |p: ManagedView| is_watched(p)),
    {
        let mut out: Vec<String> = Vec::new();
        let mut i: usize = 0;
        let ghost test = |p: ManagedView| is_watched(p);
        assert(texts(out@) =~= Seq::empty());
        while i < self.processes.len()
            invariant
                i <= self.processes@.len(),
                test == (|p: ManagedView| is_watched(p)),
                texts(out@) == names_where(self@, i as int, test),
            decreases self.processes@.len() - i,
        {
            assert(self@[i as int] == self.processes@[i as int]@);
            if self.processes[i].status == ProcessStatus::Running && self.processes[i].child {
                push_text(&mut out, self.processes[i].config.name.clone());
            }
            i += 1;
        }
        assert(self@.len() == i);
        out
    }

    /// Marks the processes whose children have ended, and gives their names: they are
    /// to be restarted, in that order.
    pub fn check_and_restart(&mut self, exited: &Vec<String>) -> (r: Vec<String>)
        requires
            old(self).valid(),
        ensures
            final(self).valid(),
            final(self)@ == old(self)@.map_values(
                |p: ManagedView| after_check(p, texts(exited@)),
            ),
            texts(r@) == names_where(
                old(self)@,
                old(self)@.len() as int,
                |p: ManagedView| is_watched(p) && texts(exited@).contains(p.config.name),
            ),
    {
        let ghost before = self@;
        let ghost gone = texts(exited@);
        let ghost test = |p: ManagedView| is_watched(p) && gone.contains(p.config.name);
        let mut out: Vec<String> = Vec::new();
        let mut i: usize = 0;
        assert(texts(out@) =~= Seq::empty());
        while i < self.processes.len()
            invariant
                i <= self.processes@.len(),
                self@.len() == before.len(),
                gone == texts(exited@),
                test == (|p: ManagedView| is_watched(p) && gone.contains(p.config.name)),
                forall|j: int| 0 <= j < i ==> #[trigger] self@[j] == after_check(before[j], gone),
                forall|j: int| i <= j < before.len() ==> #[trigger] self@[j] == before[j],
                texts(out@) == names_where(before, i as int, test),
            decreases self.processes@.len() - i,
        {
            let ghost was = self@;
            assert(self@[i as int] == self.processes@[i as int]@);
            if self.processes[i].status == ProcessStatus::Running && self.processes[i].child
                && has_text(exited, self.processes[i].config.name.as_str()) {
                push_text(&mut out, self.processes[i].config.name.clone());
                let p = &self.processes[i];
                let ended = ManagedProcess {
                    config: p.config.clone(),
                    resolved: p.resolved.clone(),
                    child: p.child,
                    pid: p.pid,
                    status: ProcessStatus::Errored,
                    started_at: p.started_at,
                    restart_count: p.restart_count,
                };
                assert(ended@ == after_check(before[i as int], gone));
                self.processes.set(i, ended);
                assert(self@ =~= was.update(i as int, ended@));
            }
            i += 1;
        }
        proof {
            assert(self@ =~= before.map_values(|p: ManagedView| after_check(p, gone)));
            assert forall|a: int, b: int|
                #![trigger self@[a], self@[b]]
                0 <= a < b < self@.len() implies self@[a].config.name != self@[b].config.name by {
                assert(self@[a] == after_check(before[a], gone));
                assert(self@[b] == after_check(before[b], gone));
            }
        }
        out
    }

    /// The processes whose statistics are collected.
    pub fn collect_process_stats(&self) -> (r: Vec<(String, u32)>)
        ensures
            pairs(r@) == with_pid(self@, self@.len() as int),
    {
        let mut out: Vec<(String, u32)> = Vec::new();
        let mut i: usize = 0;
        assert(pairs(out@) =~= Seq::empty());
        while i < self.processes.len()
            invariant
                i <= self.processes@.len(),
                pairs(out@) == with_pid(self@, i as int),
            decreases self.processes@.len() - i,
        {
            let ghost was = pairs(out@);
            assert(self@[i as int] == self.processes@[i as int]@);
            match self.processes[i].pid {
                Some(n) => {
                    out.push((self.processes[i].config.name.clone(), n));
                    assert(pairs(out@) =~= was.push((self@[i as int].config.name, n)));
                },
                None => {},
            }
            i += 1;
        }
        assert(self@.len() == i);
        out
    }
}

// ---------------------------------------------------------------------------
// Logs
// ---------------------------------------------------------------------------

/// The last `n` lines.
pub open spec fn tail(ls: Seq<Seq<char>>, n: int) -> Seq<Seq<char>> {
    if n < ls.len() {
        ls.skip(ls.len() - n)
    } else {
        ls
    }
}

/// Lines, each with a newline behind it.
pub open spec fn with_newlines(ls: Seq<Seq<char>>) -> Seq<char>
    decreases ls.len(),
{
    if ls.len() == 0 {
        Seq::empty()
    } else {
        with_newlines(ls.drop_last()) + ls.last() + "\n"@
    }
}

/// The last lines of a log that could be read.
pub open spec fn log_tail(content: Option<Seq<char>>, n: int) -> Seq<Seq<char>> {
    match content {
        Some(text) => tail(lines(text), n),
        None => Seq::empty(),
    }
}

/// The last lines of both logs of a process; the error output under a heading, and a
/// remark where there is nothing.
pub open spec fn logs_text(out: Option<Seq<char>>, err: Option<Seq<char>>, n: int) -> Seq<char> {
    let first = with_newlines(log_tail(out, n));
    let both = if log_tail(err, n).len() > 0 {
        first + "--- stderr ---\n"@ + with_newlines(log_tail(err, n))
    } else {
        first
    };
    if both.len() == 0 {
        "(no logs yet)\n"@
    } else {
        both
    }
}

/// The last lines of a log, each with a newline behind it, and how many they are.
fn tail_text(content: &Option<String>, n: usize) -> (r: (String, usize))
    ensures
        r.0@ == with_newlines(log_tail(opt_text(*content), n as int)),
        r.1 == log_tail(opt_text(*content), n as int).len(),
{
    let text = match content {
        Some(t) => t,
        None => {
            return (String::new(), 0);
        },
    };
    let ls = lines_of(text.as_str());
    let ghost all = lines(text@);
    assert(all.len() == ls@.len());
    let from: usize = if n < ls.len() {
        ls.len() - n
    } else {
        0
    };
    let ghost last = tail(all, n as int);
    assert(last =~= all.skip(from as int));
    let mut out = String::new();
    let mut i: usize = from;
    assert(last.take(0) =~= Seq::empty());
    while i < ls.len()
        invariant
            from <= i <= ls@.len(),
            texts(ls@) == all,
            last == all.skip(from as int),
            out@ == with_newlines(last.take(i - from)),
        decreases ls@.len() - i,
    {
        proof {
            assert(last[i - from] == ls@[i as int]@);
            assert(last.take(i - from + 1).drop_last() =~= last.take(i - from));
        }
        out = out.concat(ls[i].as_str()).concat("\n");
        i += 1;
    }
    assert(last.take(i - from) =~= last);
    (out, ls.len() - from)
}

impl ProcessManager {
    /// The last lines of the logs of a process. `stdout` and `stderr` are what its two
    /// files hold, each missing where it cannot be read.
    pub fn get_logs(
        &self,
        name: &str,
        lines: usize,
        stdout: &Option<String>,
        stderr: &Option<String>,
    ) -> (r: Result<String, String>)
        ensures
            text_result(r) == if exists_process(self@, name@) {
                Ok(logs_text(opt_text(*stdout), opt_text(*stderr), lines as int))
            } else {
                Err(not_found(name@))
            },
    {
        if !self.contains(name) {
            return Err(cat3("process '", name, "' not found"));
        }
        let (first, _count) = tail_text(stdout, lines);
        let (second, count) = tail_text(stderr, lines);
        let both = if count > 0 {
            cat3(first.as_str(), "--- stderr ---\n", second.as_str())
        } else {
            first
        };
        if both.as_str().unicode_len() == 0 {
            Ok("(no logs yet)\n".to_string())
        } else {
            Ok(both)
        }
    }

    /// The logs of all processes, which are looked at for their size.
    pub fn rotate_logs(&self) -> (r: Vec<String>)
        ensures
            texts(r@) == log_files(self@, self@.len() as int),
    {
        let mut out: Vec<String> = Vec::new();
        let mut i: usize = 0;
        assert(texts(out@) =~= Seq::empty());
        while i < self.processes.len()
            invariant
                i <= self.processes@.len(),
                texts(out@) == log_files(self@, i as int),
            decreases self.processes@.len() - i,
        {
            assert(self@[i as int] == self.processes@[i as int]@);
            let dir = logs_dir(self.processes[i].config.name.as_str());
            push_text(&mut out, join(dir.as_str(), "stdout.log"));
            push_text(&mut out, join(dir.as_str(), "stderr.log"));
            i += 1;
        }
        assert(self@.len() == i);
        out
    }
}

/// The logs of the first `n` processes.
pub open spec fn log_files(s: Seq<ManagedView>, n: int) -> Seq<Seq<char>>
    decreases n,
{
    if n <= 0 {
        Seq::empty()
    } else {
        log_files(s, n - 1).push(joined(log_dir(s[n - 1].config.name), "stdout.log"@)).push(
            joined(log_dir(s[n - 1].config.name), "stderr.log"@),
        )
    }
}

/// Whether a log of this size is rotated.
pub fn needs_rotation(size: u64) -> (r: bool)
    ensures
        r == (size > LOG_MAX_SIZE),
{
    size > LOG_MAX_SIZE
}

/// The text of a point in time in UTC: year, month, day, hours, minutes and seconds.
/// None outside of the years that `chrono` knows.
pub uninterp spec fn utc_text(secs: i64, nanos: u32) -> Option<Seq<char>>;

/// `chrono::DateTime::<Utc>::from_timestamp` and `DateTime::format` with
/// `%Y-%m-%d %H:%M:%S`: the text is a function of the time alone, and `utc_text`
/// names it; there is none for a time that `chrono` cannot hold.
#[verifier::external_body]
fn format_utc(secs: i64, nanos: u32) -> (r: Option<String>)
    ensures
        opt_text(r) == utc_text(secs, nanos),
{
    chrono::DateTime::<chrono::Utc>::from_timestamp(secs, nanos)
        .map(|t| t.format("%Y-%m-%d %H:%M:%S").to_string())
}

/// A line of a log with the time in front.
pub open spec fn stamped(time: Seq<char>, line: Seq<char>) -> Seq<char> {
    "["@ + time + "] "@ + line + "\n"@
}

/// A line of a log with the time in front.
pub fn stamp_line(time: &str, line: &str) -> (r: String)
    ensures
        r@ == stamped(time@, line@),
{
    cat5("[", time, "] ", line, "\n")
}

/// The line that is written to a log for a line of output; none for a time that has
/// no text.
pub fn capture_line(at: Timestamp, line: &str) -> (r: Option<String>)
    ensures
        opt_text(r) == match utc_text(at.secs, at.nanos) {
            Some(t) => Some(stamped(t, line@)),
            None => None,
        },
{
    match format_utc(at.secs, at.nanos) {
        Some(t) => Some(stamp_line(t.as_str(), line)),
        None => None,
    }
}

// ---------------------------------------------------------------------------
// Rotating a log
// ---------------------------------------------------------------------------

/// An operation on files; one that cannot be done is passed over.
#[derive(Debug, PartialEq, Eq)]
pub enum FileOp {
    Remove { path: String },
    Rename { from: String, to: String },
    /// Create an empty file.
    Create { path: String },
}

/// The contents of a `FileOp`.
#[verifier::ext_equal]
pub enum FileOpView {
    Remove(Seq<char>),
    Rename(Seq<char>, Seq<char>),
    Create(Seq<char>),
}

impl View for FileOp {
    type V = FileOpView;

    open spec fn view(&self) -> FileOpView {
        match *self {
            FileOp::Remove { path } => FileOpView::Remove(path@),
            FileOp::Rename { from, to } => FileOpView::Rename(from@, to@),
            FileOp::Create { path } => FileOpView::Create(path@),
        }
    }
}

/// The contents of a list of operations.
pub open spec fn file_ops(v: Seq<FileOp>) -> Seq<FileOpView> {
    v.map_values(|o: FileOp| o@)
}

/// The name of the `i`th rotated log.
pub open spec fn rotated(path: Seq<char>, i: nat) -> Seq<char> {
    path + "."@ + decimal(i)
}

/// The operations that rotate a log: the oldest goes, each other one moves up, and an
/// empty log takes the place of the present one.
pub open spec fn rotation(path: Seq<char>) -> Seq<FileOpView> {
    seq![
        FileOpView::Remove(rotated(path, 5)),
        FileOpView::Rename(rotated(path, 4), rotated(path, 5)),
        FileOpView::Rename(rotated(path, 3), rotated(path, 4)),
        FileOpView::Rename(rotated(path, 2), rotated(path, 3)),
        FileOpView::Rename(rotated(path, 1), rotated(path, 2)),
        FileOpView::Rename(path, rotated(path, 1)),
        FileOpView::Create(path),
    ]
}

fn rotated_path(path: &str, i: usize) -> (r: String)
    ensures
        r@ == rotated(path@, i as nat),
{
    cat3(path, ".", number_text(i as u64).as_str())
}

fn add_op(list: &mut Vec<FileOp>, op: FileOp)
    ensures
        file_ops(final(list)@) == file_ops(old(list)@).push(op@),
{
    let ghost was = file_ops(list@);
    list.push(op);
    assert(file_ops(list@) =~= was.push(op@));
}

/// The moves of the rotated logs, from the oldest down to the one after `i`.
pub open spec fn moves(path: Seq<char>, i: nat) -> Seq<FileOpView>
    decreases LOG_MAX_ROTATED - i,
{
    if i >= LOG_MAX_ROTATED {
        Seq::empty()
    } else {
        moves(path, i + 1).push(FileOpView::Rename(rotated(path, i), rotated(path, i + 1)))
    }
}

/// The operations that rotate a log.
pub fn rotate_log_file(path: &str) -> (r: Vec<FileOp>)
    ensures
        file_ops(r@) == rotation(path@),
{
    let mut out: Vec<FileOp> = Vec::new();
    assert(file_ops(out@) =~= Seq::empty());
    add_op(&mut out, FileOp::Remove { path: rotated_path(path, LOG_MAX_ROTATED) });
    let ghost first = file_ops(out@);
    assert(first + moves(path@, 5) =~= first);
    let mut i: usize = LOG_MAX_ROTATED;
    while i > 1
        invariant
            1 <= i <= LOG_MAX_ROTATED,
            file_ops(out@) == first + moves(path@, i as nat),
        decreases i,
    {
        i -= 1;
        let ghost was = file_ops(out@);
        add_op(
            &mut out,
            FileOp::Rename { from: rotated_path(path, i), to: rotated_path(path, i + 1) },
        );
        assert(file_ops(out@) =~= first + moves(path@, i as nat));
    }
    add_op(&mut out, FileOp::Rename { from: path.to_string(), to: rotated_path(path, 1) });
    add_op(&mut out, FileOp::Create { path: path.to_string() });
    proof {
        reveal_with_fuel(moves, 6);
        assert(file_ops(out@) =~= rotation(path@));
    }
    out
}

/// The files after an operation.
pub open spec fn apply_file_op(files: Map<Seq<char>, Seq<u8>>, op: FileOpView) -> Map<
    Seq<char>,
    Seq<u8>,
> {
    match op {
        FileOpView::Remove(p) => files.remove(p),
        FileOpView::Rename(from, to) => if files.contains_key(from) {
            files.remove(from).insert(to, files[from])
        } else {
            files
        },
        FileOpView::Create(p) => files.insert(p, Seq::empty()),
    }
}

/// The files after a list of operations.
pub open spec fn apply_file_ops(files: Map<Seq<char>, Seq<u8>>, ops: Seq<FileOpView>) -> Map<
    Seq<char>,
    Seq<u8>,
>
    decreases ops.len(),
{
    if ops.len() == 0 {
        files
    } else {
        apply_file_ops(apply_file_op(files, ops[0]), ops.skip(1))
    }
}

/// Whether two collections of files hold the same at two places.
pub open spec fn same_file(
    a: Map<Seq<char>, Seq<u8>>,
    p: Seq<char>,
    b: Map<Seq<char>, Seq<u8>>,
    q: Seq<char>,
) -> bool {
    &&& a.contains_key(p) <==> b.contains_key(q)
    &&& a.contains_key(p) ==> a[p] == b[q]
}

/// The names of the present and the rotated logs are all different.
proof fn lemma_rotated_names(path: Seq<char>, i: nat, j: nat)
    requires
        i < 10,
        j < 10,
        i != j,
    ensures
        rotated(path, i) != path,
        rotated(path, i) != rotated(path, j),
{
    reveal_strlit(".");
    let n = path.len() as int + 1;
    assert(rotated(path, i).len() == n + 1);
    assert(rotated(path, i)[n] == crate::number::digit(i as int));
    assert(rotated(path, j)[n] == crate::number::digit(j as int));
}

/// After a rotation the log is empty, the present log is the first rotated one, each
/// rotated log has moved up by one, the oldest is gone, and no other file has changed.
pub proof fn law_rotation(files: Map<Seq<char>, Seq<u8>>, path: Seq<char>)
    requires
        files.contains_key(path),
    ensures
        ({
            let after = apply_file_ops(files, rotation(path));
            &&& after.contains_key(path) && after[path] == Seq::<u8>::empty()
            &&& same_file(after, rotated(path, 1), files, path)
            &&& same_file(after, rotated(path, 2), files, rotated(path, 1))
            &&& same_file(after, rotated(path, 3), files, rotated(path, 2))
            &&& same_file(after, rotated(path, 4), files, rotated(path, 3))
            &&& same_file(after, rotated(path, 5), files, rotated(path, 4))
            &&& forall|p: Seq<char>|
                p != path && p != rotated(path, 1) && p != rotated(path, 2) && p != rotated(
                    path,
                    3,
                ) && p != rotated(path, 4) && p != rotated(path, 5) ==> #[trigger] same_file(
                    after,
                    p,
                    files,
                    p,
                )
        }),
{
    let (r1, r2, r3, r4, r5) = (
        rotated(path, 1),
        rotated(path, 2),
        rotated(path, 3),
        rotated(path, 4),
        rotated(path, 5),
    );
    lemma_rotated_names(path, 1, 2);
    lemma_rotated_names(path, 1, 3);
    lemma_rotated_names(path, 1, 4);
    lemma_rotated_names(path, 1, 5);
    lemma_rotated_names(path, 2, 3);
    lemma_rotated_names(path, 2, 4);
    lemma_rotated_names(path, 2, 5);
    lemma_rotated_names(path, 3, 4);
    lemma_rotated_names(path, 3, 5);
    lemma_rotated_names(path, 4, 5);
    lemma_rotated_names(path, 5, 1);
    let ops = rotation(path);
    let f1 = apply_file_op(files, ops[0]);
    let f2 = apply_file_op(f1, ops[1]);
    let f3 = apply_file_op(f2, ops[2]);
    let f4 = apply_file_op(f3, ops[3]);
    let f5 = apply_file_op(f4, ops[4]);
    let f6 = apply_file_op(f5, ops[5]);
    let f7 = apply_file_op(f6, ops[6]);
    assert(apply_file_ops(files, ops) == f7) by {
        reveal_with_fuel(apply_file_ops, 8);
        assert(ops.skip(1)[0] == ops[1]);
        assert(ops.skip(1).skip(1)[0] == ops[2]);
        assert(ops.skip(1).skip(1).skip(1)[0] == ops[3]);
        assert(ops.skip(1).skip(1).skip(1).skip(1)[0] == ops[4]);
        assert(ops.skip(1).skip(1).skip(1).skip(1).skip(1)[0] == ops[5]);
        assert(ops.skip(1).skip(1).skip(1).skip(1).skip(1).skip(1)[0] == ops[6]);
    }
}

// ---------------------------------------------------------------------------
// What a start and a stop do
// ---------------------------------------------------------------------------

/// The launched program gets exactly its arguments. Without an image it is the program of the
/// configuration with the arguments of the configuration. For an image with entry point words
/// `words` it is what the first word resolves to, with the other words and then the arguments
/// of the configuration. Its environment is that of the configuration.
pub proof fn law_launch_arguments(
    config: ProcessConfigView,
    pulled: Result<PulledView, Seq<char>>,
    dir: Seq<char>,
    words: Seq<Seq<char>>,
    existing: Seq<Seq<char>>,
    found: Seq<FoundFile>,
)
    requires
        words.len() > 0,
    ensures
        !config.is_oci ==> {
            &&& start_config(config, pulled) == Ok::<_, Seq<char>>(config)
            &&& launch_of(config).program == config.path
            &&& launch_of(config).args == config.args
            &&& launch_of(config).env_vars == config.env_vars
        },
        config.is_oci && pulled == Ok::<_, Seq<char>>(
            PulledView { dir, entry: entry_point(dir, Some(words), existing, found) },
        ) ==> (start_config(config, pulled) matches Ok(c) && {
            &&& launch_of(c).program == resolved(dir, words[0], existing)
            &&& launch_of(c).args == words.skip(1) + config.args
            &&& launch_of(c).env_vars == config.env_vars
        }),
{
}

/// A pulled image's program gets what the image adds and then the arguments of the
/// configuration; all else but the limits of the process stays as it was given.
pub proof fn law_image_launch(
    config: ProcessConfigView,
    dir: Seq<char>,
    program: Seq<char>,
    extra: Seq<Seq<char>>,
)
    requires
        config.is_oci,
    ensures
        start_config(config, Ok(PulledView { dir, entry: Ok((program, extra)) })) matches Ok(c) && {
            &&& launch_of(c).program == program
            &&& launch_of(c).args.len() == extra.len() + config.args.len()
            &&& forall|i: int| 0 <= i < extra.len() ==> launch_of(c).args[i] == #[trigger] extra[i]
            &&& forall|i: int|
                0 <= i < config.args.len() ==> launch_of(c).args[extra.len() + i]
                    == #[trigger] config.args[i]
            &&& c == (ProcessConfigView {
                path: program,
                args: extra + config.args,
                deny: c.deny,
                allow: c.allow,
                ..config
            })
        },
{
}

/// A process without denied capabilities runs without limits; with some, it runs under its own
/// lists, and its own place is the directory of its image or of its program.
pub proof fn law_launch_limits(config: ProcessConfigView)
    ensures
        config.deny.len() == 0 <==> launch_of(config).restrictions is None,
        launch_of(config).restrictions matches Some(r) ==> {
            &&& r.deny == config.deny
            &&& r.allow == config.allow
            &&& config.is_oci ==> r.working_dir == "/var/run/nyrun/oci/"@ + config.name
            &&& !config.is_oci ==> r.working_dir == match parent_of(config.path) {
                Some(p) => p,
                None => "/"@,
            }
        },
{
    reveal_strlit("/var/run/nyrun/oci/");
    reveal_strlit("/var/run/nyrun/oci");
    reveal_strlit("/");
    assert("/var/run/nyrun/oci"@ + "/"@ =~= "/var/run/nyrun/oci/"@);
}

/// The logs of a process stand in a directory of its name.
pub proof fn law_log_paths(config: ProcessConfigView)
    requires
        config.name.len() > 0,
        config.name[0] != '/',
        config.name.last() != '/',
    ensures
        launch_of(config).stdout_log == "/var/run/nyrun/logs/"@ + config.name + "/stdout.log"@,
        launch_of(config).stderr_log == "/var/run/nyrun/logs/"@ + config.name + "/stderr.log"@,
{
    reveal_strlit("/var/run/nyrun");
    reveal_strlit("logs");
    reveal_strlit("/var/run/nyrun/logs/");
    reveal_strlit("stdout.log");
    reveal_strlit("stderr.log");
    reveal_strlit("/stdout.log");
    reveal_strlit("/stderr.log");
    let d = log_dir(config.name);
    assert(joined(NYRUN_DIR@, "logs"@) =~= "/var/run/nyrun/logs"@) by {
        reveal_strlit("/var/run/nyrun/logs");
    }
    reveal_strlit("/var/run/nyrun/logs");
    assert(d =~= "/var/run/nyrun/logs/"@ + config.name);
    assert(d.last() == config.name.last());
    assert(joined(d, "stdout.log"@) =~= d + "/stdout.log"@);
    assert(joined(d, "stderr.log"@) =~= d + "/stderr.log"@);
}

/// An image is pulled where the configuration names one: by its reference, or else by its path.
pub proof fn law_pulled_image(config: ProcessConfigView, reference: Seq<char>)
    ensures
        !config.is_oci ==> image_source(config) is None,
        config.is_oci && config.oci_reference == Some(reference) ==> image_source(config) == Some(
            reference,
        ),
        config.is_oci && config.oci_reference is None ==> image_source(config) == Some(config.path),
{
}

/// What the limits of an image are. Unless everything is allowed, access to files is denied
/// beside what was denied; where everything is allowed, it is not, and what else was denied or
/// allowed stays.
pub proof fn law_image_lists(deny: Seq<Seq<char>>, allow: Seq<Seq<char>>, dir: Seq<char>, t: Seq<char>)
    requires
        dir != "all"@,
    ensures
        ({
            let (d, a) = image_limits(deny, allow, dir);
            let open = allow.contains("all"@);
            &&& !open && deny.contains("io"@) ==> d == deny && a == allow
            &&& !open && !deny.contains("io"@) ==> d == deny.push("io"@) && a == allow.push(dir)
            &&& open ==> (d.contains(t) <==> deny.contains(t) && t != "io"@)
            &&& open ==> (a.contains(t) <==> allow.contains(t) && t != "all"@)
        }),
{
    let not_io = |x: Seq<char>| x != "io"@;
    let not_all = |x: Seq<char>| x != "all"@;
    if allow.contains("all"@) {
        lemma_kept_by(deny, not_io, t);
        lemma_kept_by(allow, not_all, t);
    } else if !deny.contains("io"@) {
        let a = allow.push(dir);
        if a.contains("all"@) {
            let i = choose|i: int| 0 <= i < a.len() && a[i] == "all"@;
            assert(i < allow.len() ==> allow[i] == "all"@);
        }
    }
}

proof fn lemma_kept_by(s: Seq<Seq<char>>, test: spec_fn(Seq<char>) -> bool, t: Seq<char>)
    ensures
        s.filter(test).contains(t) <==> s.contains(t) && test(t),
{
    if s.filter(test).contains(t) {
        s.lemma_filter_contains_rev(test, t);
        let i = choose|i: int| 0 <= i < s.filter(test).len() && s.filter(test)[i] == t;
        s.lemma_filter_pred(test, i);
    }
    if s.contains(t) && test(t) {
        let i = choose|i: int| 0 <= i < s.len() && s[i] == t;
        s.lemma_filter_contains(test, i);
    }
}

/// A start succeeds where the image, if one is needed, was pulled and has an entry point, and
/// the program was spawned; the process is then running, under the configuration as it was
/// given. Else the first failure is told.
pub proof fn law_started(config: ProcessConfigView, outcome: StartOutcomeView)
    ensures
        started(config, outcome) is Ok <==> outcome.spawned is Ok && (config.is_oci ==> (
        outcome.pulled matches Ok(p) && p.entry is Ok)),
        started(config, outcome) matches Ok(p) ==> {
            &&& p.config == config
            &&& p.child && p.status == ProcessStatus::Running
            &&& p.pid == outcome.spawned->Ok_0
            &&& p.started_at == Some(outcome.at)
            &&& p.restart_count == 0
            &&& !config.is_oci ==> p.resolved == config
        },
        config.is_oci ==> (outcome.pulled matches Err(e) ==> started(config, outcome) == Err::<
            ManagedView,
            _,
        >(e)),
        config.is_oci ==> (outcome.pulled matches Ok(p) ==> (p.entry matches Err(e) ==> started(
            config,
            outcome,
        ) == Err::<ManagedView, _>(e))),
        !config.is_oci ==> (outcome.spawned matches Err(e) ==> started(config, outcome) == Err::<
            ManagedView,
            _,
        >("failed to spawn '"@ + config.path + "': "@ + e)),
{
}

/// A process that was spawned is the only change: it stands behind the others, which stay as
/// they were, is counted once, and its process number is told and written to its file.
pub proof fn law_spawned(
    s: Seq<ManagedView>,
    config: ProcessConfigView,
    dirs: Result<(), Seq<char>>,
    outcome: StartOutcomeView,
)
    requires
        dirs is Ok,
        forall|i: int| 0 <= i < s.len() ==> (#[trigger] s[i]).config.name != config.name,
        started(config, outcome) is Ok,
    ensures
        ({
            let (t, result, todo) = spawn_change(s, config, dirs, outcome);
            let p = t.last();
            let shown = match p.pid {
                Some(n) => n as nat,
                None => 0,
            };
            &&& t.len() == s.len() + 1
            &&& forall|i: int| 0 <= i < s.len() ==> t[i] == #[trigger] s[i]
            &&& Ok::<_, Seq<char>>(p) == started(config, outcome)
            &&& result == Ok::<_, Seq<char>>(
                "process '"@ + config.name + "' started (pid: "@ + decimal(shown) + ")"@,
            )
            &&& todo.last() == EffectView::CountProcess
            &&& todo.to_multiset().count(EffectView::CountProcess) == 1
            &&& config.pid_file matches Some(f) ==> (p.pid matches Some(n) ==> todo.contains(
                EffectView::WriteFile(f, decimal(n as nat)),
            ))
            &&& config.is_oci <==> todo.contains(EffectView::CountPull)
        }),
{
    lemma_position(s, config.name);
    let (t, result, todo) = spawn_change(s, config, dirs, outcome);
    if position(s, config.name) < s.len() {
        assert(s[position(s, config.name)].config.name == config.name);
    }
    let p = t.last();
    let first = start_effects(config, outcome.pulled);
    let second = pid_effects(p);
    let third = seq![EffectView::CountProcess];
    assert(todo == first + second + third);
    assert(p.config == config);
    if config.is_oci {
        assert(todo[0] == EffectView::CountPull);
    } else if todo.contains(EffectView::CountPull) {
        let i = choose|i: int| 0 <= i < todo.len() && todo[i] == EffectView::CountPull;
        assert(i < second.len() ==> todo[i] == second[i]);
    }
    if second.len() > 0 {
        assert(todo[first.len() as int] == second[0]);
    }
    vstd::seq_lib::lemma_multiset_commutative(first + second, third);
    vstd::seq_lib::lemma_multiset_commutative(first, second);
    broadcast use vstd::seq_lib::group_to_multiset_ensures;

    lemma_count_one(first, EffectView::CountProcess);
    lemma_count_one(second, EffectView::CountProcess);
    lemma_count_one(third, EffectView::CountProcess);
}

/// A list of at most one effect holds it once or not at all.
proof fn lemma_count_one(v: Seq<EffectView>, e: EffectView)
    requires
        v.len() <= 1,
    ensures
        v.to_multiset().count(e) == if v.len() == 1 && v[0] == e {
            1nat
        } else {
            0
        },
{
    broadcast use vstd::seq_lib::group_to_multiset_ensures;

    let none = Seq::<EffectView>::empty();
    if v.len() == 1 {
        assert(v =~= none.push(v[0]));
        assert(v.to_multiset() == none.to_multiset().insert(v[0]));
        assert(!none.contains(e));
    } else {
        assert(v =~= none);
        assert(!none.contains(e));
    }
}

/// What cannot be spawned changes no process: a taken name, directories that cannot be made,
/// and a failed start are each told.
pub proof fn law_not_spawned(
    s: Seq<ManagedView>,
    config: ProcessConfigView,
    dirs: Result<(), Seq<char>>,
    outcome: StartOutcomeView,
)
    ensures
        ({
            let (t, result, todo) = spawn_change(s, config, dirs, outcome);
            let taken = exists|i: int|
                0 <= i < s.len() && (#[trigger] s[i]).config.name == config.name;
            &&& result is Ok <==> !taken && dirs is Ok && started(config, outcome) is Ok
            &&& result is Err ==> t == s && !todo.contains(EffectView::CountProcess)
            &&& taken ==> result == Err::<Seq<char>, _>(
                "process '"@ + config.name + "' already exists"@,
            )
            &&& !taken ==> (dirs matches Err(e) ==> result == Err::<Seq<char>, _>(
                "failed to create dirs: "@ + e,
            ))
            &&& !taken && dirs is Ok ==> (started(config, outcome) matches Err(e) ==> result
                == Err::<Seq<char>, _>(e))
        }),
{
    lemma_named(s, config.name);
}

/// There is a process of a name where one of the processes has it.
proof fn lemma_named(s: Seq<ManagedView>, name: Seq<char>)
    ensures
        exists_process(s, name) <==> exists|i: int|
            0 <= i < s.len() && (#[trigger] s[i]).config.name == name,
{
    lemma_position(s, name);
    if exists|i: int| 0 <= i < s.len() && (#[trigger] s[i]).config.name == name {
        let i = choose|i: int| 0 <= i < s.len() && (#[trigger] s[i]).config.name == name;
        if position(s, name) == s.len() {
            assert(s[i].config.name != name);
        }
    }
}

/// A served directory is registered under a free name without a child: it counts as running
/// since then, and the other processes stay as they were.
pub proof fn law_directory_registered(s: Seq<ManagedView>, config: ProcessConfigView, at: Timestamp)
    ensures
        ({
            let (t, result, todo) = spa_change(s, config, at);
            let taken = exists|i: int|
                0 <= i < s.len() && (#[trigger] s[i]).config.name == config.name;
            &&& taken ==> t == s && todo.len() == 0 && result == Err::<Seq<char>, _>(
                "process '"@ + config.name + "' already exists"@,
            )
            &&& !taken ==> {
                &&& t.len() == s.len() + 1
                &&& forall|i: int| 0 <= i < s.len() ==> t[i] == #[trigger] s[i]
                &&& t.last().config == config && t.last().resolved == config
                &&& !t.last().child && t.last().pid is None && t.last().restart_count == 0
                &&& t.last().status == ProcessStatus::Running
                &&& t.last().started_at == Some(at)
                &&& result == Ok::<_, Seq<char>>("SPA '"@ + config.name + "' registered"@)
                &&& todo == seq![EffectView::CountProcess]
            }
        }),
{
    lemma_named(s, config.name);
}

/// A deleted process is gone and no other; its child is killed, its file removed, and one
/// process less is counted.
pub proof fn law_process_deleted(s: Seq<ManagedView>, i: int)
    requires
        distinct_names(s),
        0 <= i < s.len(),
    ensures
        ({
            let p = s[i];
            let (t, result, todo) = delete_change(s, p.config.name);
            &&& t.len() == s.len() - 1
            &&& forall|j: int| 0 <= j < i ==> t[j] == #[trigger] s[j]
            &&& forall|j: int| i <= j < t.len() ==> #[trigger] t[j] == s[j + 1]
            &&& forall|j: int| 0 <= j < t.len() ==> (#[trigger] t[j]).config.name != p.config.name
            &&& result == Ok::<_, Seq<char>>("process '"@ + p.config.name + "' deleted"@)
            &&& p.child <==> todo.contains(EffectView::KillChild(p.config.name))
            &&& p.config.pid_file matches Some(f) ==> todo.contains(EffectView::RemoveFile(f))
            &&& p.config.pid_file is None ==> forall|f: Seq<char>|
                !#[trigger] todo.contains(EffectView::RemoveFile(f))
            &&& todo.last() == EffectView::UncountProcess
        }),
{
    let p = s[i];
    lemma_position_is(s, p.config.name, i);
    let (t, result, todo) = delete_change(s, p.config.name);
    let first = match p.config.pid_file {
        Some(path) => seq![EffectView::RemoveFile(path)],
        None => Seq::empty(),
    };
    let second = kill_effects(p);
    assert(todo == first + second + seq![EffectView::UncountProcess]);
    if first.len() > 0 {
        assert(todo[0] == first[0]);
    }
    if second.len() > 0 {
        assert(todo[first.len() as int] == second[0]);
    }
}

/// A restarted process keeps its name, its place and its configuration; it is running, with
/// the new process number and one restart more. Its old child was killed before, its number is
/// written to its file, and the restart is counted.
pub proof fn law_process_restarted(s: Seq<ManagedView>, i: int, outcome: StartOutcomeView)
    requires
        distinct_names(s),
        0 <= i < s.len(),
        s[i].restart_count < u32::MAX,
        started(s[i].config, outcome) is Ok,
    ensures
        ({
            let p = s[i];
            let (t, result, todo) = restart_change(s, p.config.name, outcome);
            let shown = match t[i].pid {
                Some(n) => n as nat,
                None => 0,
            };
            &&& t.len() == s.len()
            &&& forall|j: int| 0 <= j < s.len() && j != i ==> t[j] == #[trigger] s[j]
            &&& t[i].config == p.config
            &&& t[i].pid == outcome.spawned->Ok_0
            &&& t[i].child && t[i].status == ProcessStatus::Running
            &&& t[i].started_at == Some(outcome.at)
            &&& t[i].restart_count == p.restart_count + 1
            &&& result == Ok::<_, Seq<char>>(
                "process '"@ + p.config.name + "' restarted (pid: "@ + decimal(shown)
                    + ", restarts: "@ + decimal((p.restart_count + 1) as nat) + ")"@,
            )
            &&& p.child ==> todo[0] == EffectView::KillChild(p.config.name)
            &&& todo.last() == EffectView::CountRestart(p.config.name)
            &&& p.config.pid_file matches Some(f) ==> (t[i].pid matches Some(n)
                ==> todo.contains(EffectView::WriteFile(f, decimal(n as nat))))
        }),
{
    let p = s[i];
    lemma_position_is(s, p.config.name, i);
    let (t, result, todo) = restart_change(s, p.config.name, outcome);
    let first = kill_effects(p) + start_effects(p.config, outcome.pulled);
    let second = pid_effects(t[i]);
    assert(todo == first + second + seq![EffectView::CountRestart(p.config.name)]);
    if p.child {
        assert(first[0] == EffectView::KillChild(p.config.name));
        assert(todo[0] == first[0]);
    }
    if second.len() > 0 {
        assert(todo[first.len() as int] == second[0]);
    }
}

/// A restart that fails leaves the process stopped under its configuration, and the others as
/// they were; one of an unknown process changes nothing.
pub proof fn law_not_restarted(s: Seq<ManagedView>, name: Seq<char>, outcome: StartOutcomeView)
    requires
        distinct_names(s),
    ensures
        ({
            let (t, result, todo) = restart_change(s, name, outcome);
            &&& (forall|j: int| 0 <= j < s.len() ==> (#[trigger] s[j]).config.name != name) ==> {
                &&& t == s && todo.len() == 0
                &&& result == Err::<Seq<char>, _>("process '"@ + name + "' not found"@)
                &&& delete_change(s, name) == (t, result, todo)
                &&& reload_change(s, name, outcome) == (t, result, todo)
            }
            &&& forall|i: int|
                #![trigger s[i]]
                0 <= i < s.len() && s[i].config.name == name ==> (started(
                    s[i].config,
                    outcome,
                ) matches Err(e) ==> {
                    &&& result == Err::<Seq<char>, _>(e)
                    &&& t.len() == s.len()
                    &&& forall|j: int| 0 <= j < s.len() && j != i ==> t[j] == #[trigger] s[j]
                    &&& t[i].config == s[i].config && t[i].status == ProcessStatus::Stopped
                    &&& !t[i].child && t[i].pid is None
                    &&& t[i].restart_count == s[i].restart_count
                })
        }),
{
    lemma_named(s, name);
    assert forall|i: int| #![trigger s[i]] 0 <= i < s.len() && s[i].config.name == name implies (
    started(s[i].config, outcome) matches Err(e) ==> {
        let (t, result, todo) = restart_change(s, name, outcome);
        &&& result == Err::<Seq<char>, _>(e)
        &&& t.len() == s.len()
        &&& forall|j: int| 0 <= j < s.len() && j != i ==> t[j] == #[trigger] s[j]
        &&& t[i].config == s[i].config && t[i].status == ProcessStatus::Stopped
        &&& !t[i].child && t[i].pid is None
        &&& t[i].restart_count == s[i].restart_count
    }) by {
        lemma_position_is(s, name, i);
    }
}

/// Stopping everything kills each child once, in order, and nothing else.
pub proof fn law_all_killed(s: Seq<ManagedView>, n: int)
    requires
        0 <= n <= s.len(),
    ensures
        forall|i: int|
            0 <= i < n && (#[trigger] s[i]).child ==> kill_list(s, n).contains(
                EffectView::KillChild(s[i].config.name),
            ),
        forall|e: EffectView| #[trigger]
            kill_list(s, n).contains(e) ==> exists|i: int|
                0 <= i < n && (#[trigger] s[i]).child && e == EffectView::KillChild(
                    s[i].config.name,
                ),
        kill_list(s, n).len() == children(s, n),
    decreases n,
{
    if n > 0 {
        law_all_killed(s, n - 1);
        let front = kill_list(s, n - 1);
        let all = kill_list(s, n);
        assert forall|i: int| 0 <= i < n && (#[trigger] s[i]).child implies all.contains(
            EffectView::KillChild(s[i].config.name),
        ) by {
            if i < n - 1 {
                let k = choose|k: int|
                    0 <= k < front.len() && front[k] == EffectView::KillChild(s[i].config.name);
                assert(all[k] == front[k]);
            } else {
                assert(all[front.len() as int] == EffectView::KillChild(s[i].config.name));
            }
        }
        assert forall|e: EffectView| #[trigger] all.contains(e) implies exists|i: int|
            0 <= i < n && (#[trigger] s[i]).child && e == EffectView::KillChild(
                s[i].config.name,
            ) by {
            let k = choose|k: int| 0 <= k < all.len() && all[k] == e;
            if k < front.len() {
                assert(front[k] == e);
                assert(front.contains(e));
            } else {
                assert(s[n - 1].child);
            }
        }
    }
}

/// How many of the first processes have a child.
pub open spec fn children(s: Seq<ManagedView>, n: int) -> int
    decreases n,
{
    if n <= 0 {
        0
    } else {
        children(s, n - 1) + if s[n - 1].child {
            1int
        } else {
            0
        }
    }
}

/// What a listing tells of a process: its own name, number, state, mode, mapping, start and
/// restarts, and how many whole seconds it has been up.
pub proof fn law_listed(p: ManagedView, now: Timestamp)
    ensures
        ({
            let i = info_of(p, now);
            &&& i.name == p.config.name && i.mode == p.config.mode
            &&& i.port_mapping == p.config.port_mapping
            &&& i.pid == p.pid && i.status == p.status
            &&& i.path == p.resolved.path
            &&& i.started_at == p.started_at && i.restart_count == p.restart_count
            &&& p.started_at is None ==> i.uptime_secs is None
            &&& p.started_at matches Some(t) ==> (i.uptime_secs matches Some(u) && {
                let past = now.secs * 1_000_000_000 + now.nanos - t.secs * 1_000_000_000 - t.nanos;
                &&& past <= 0 ==> u == 0
                &&& 0 < past < 0x1_0000_0000_0000_0000 ==> u * 1_000_000_000 <= past < (u + 1)
                    * 1_000_000_000
            })
        }),
{
}

/// An update replaces what it names and keeps all else.
pub proof fn law_update_fields(
    c: ProcessConfigView,
    port_mapping: Option<PortMappingView>,
    ssl: Option<SslConfigView>,
    acme: Option<Seq<char>>,
    env_file: Option<Seq<char>>,
    env_vars: Option<Map<Seq<char>, Seq<char>>>,
    args: Option<Seq<Seq<char>>>,
)
    ensures
        ({
            let d = updated(c, port_mapping, ssl, acme, env_file, env_vars, args);
            &&& port_mapping is Some ==> d.port_mapping == port_mapping
            &&& port_mapping is None ==> d.port_mapping == c.port_mapping
            &&& ssl is Some ==> d.ssl == ssl
            &&& ssl is None ==> d.ssl == c.ssl
            &&& acme is Some ==> d.acme == acme
            &&& acme is None ==> d.acme == c.acme
            &&& env_file is Some ==> d.env_file == env_file
            &&& env_file is None ==> d.env_file == c.env_file
            &&& env_vars matches Some(v) ==> d.env_vars == v
            &&& env_vars is None ==> d.env_vars == c.env_vars
            &&& args matches Some(a) ==> d.args == a
            &&& args is None ==> d.args == c.args
            &&& d.name == c.name && d.path == c.path && d.mode == c.mode && d.spa == c.spa
            &&& d.deny == c.deny && d.allow == c.allow
            &&& d.is_oci == c.is_oci && d.oci_reference == c.oci_reference
            &&& d.pid_file == c.pid_file
        }),
{
}

/// The watched processes are those that run with a child.
pub proof fn law_watched(s: Seq<ManagedView>, name: Seq<char>)
    ensures
        names_where(s, s.len() as int, |p: ManagedView| is_watched(p)).contains(name)
            <==> exists|i: int|
            0 <= i < s.len() && (#[trigger] s[i]).config.name == name && s[i].child && s[i].status
                == ProcessStatus::Running,
{
    let test = |p: ManagedView| is_watched(p);
    lemma_names_where(s, s.len() as int, test, name);
    if names_where(s, s.len() as int, test).contains(name) {
        let j = choose|j: int|
            0 <= j < s.len() && test(#[trigger] s[j]) && s[j].config.name == name;
        assert(s[j].config.name == name && s[j].child && s[j].status == ProcessStatus::Running);
    }
    if exists|i: int|
        0 <= i < s.len() && (#[trigger] s[i]).config.name == name && s[i].child && s[i].status
            == ProcessStatus::Running {
        let i = choose|i: int|
            0 <= i < s.len() && (#[trigger] s[i]).config.name == name && s[i].child && s[i].status
                == ProcessStatus::Running;
        assert(test(s[i]) && s[i].config.name == name);
    }
}

/// A check marks as failed the running processes whose child has exited, and changes nothing
/// else of any process.
pub proof fn law_checked(p: ManagedView, exited: Seq<Seq<char>>)
    ensures
        ({
            let q = after_check(p, exited);
            let died = p.status == ProcessStatus::Running && p.child && exited.contains(
                p.config.name,
            );
            &&& died ==> q.status == ProcessStatus::Errored
            &&& !died ==> q.status == p.status
            &&& q.config == p.config && q.resolved == p.resolved && q.child == p.child
            &&& q.pid == p.pid && q.started_at == p.started_at
            &&& q.restart_count == p.restart_count
        }),
{
}

/// The processes that are measured are those with a process number, under that number.
pub proof fn law_measured(s: Seq<ManagedView>, n: int, name: Seq<char>, pid: u32)
    requires
        0 <= n <= s.len(),
    ensures
        with_pid(s, n).contains((name, pid)) <==> exists|i: int|
            0 <= i < n && (#[trigger] s[i]).config.name == name && s[i].pid == Some(pid),
    decreases n,
{
    if n > 0 {
        law_measured(s, n - 1, name, pid);
        let front = with_pid(s, n - 1);
        let all = with_pid(s, n);
        if all.contains((name, pid)) {
            let k = choose|k: int| 0 <= k < all.len() && all[k] == (name, pid);
            if k < front.len() {
                assert(front[k] == (name, pid));
                let i = choose|i: int|
                    0 <= i < n - 1 && (#[trigger] s[i]).config.name == name && s[i].pid == Some(
                        pid,
                    );
                assert(s[i].config.name == name);
            } else {
                assert(s[n - 1].config.name == name && s[n - 1].pid == Some(pid));
            }
        }
        if exists|i: int|
            0 <= i < n && (#[trigger] s[i]).config.name == name && s[i].pid == Some(pid) {
            let i = choose|i: int|
                0 <= i < n && (#[trigger] s[i]).config.name == name && s[i].pid == Some(pid);
            if i == n - 1 {
                assert(all[front.len() as int] == (name, pid));
            } else {
                assert(s[i].config.name == name);
                let k = choose|k: int| 0 <= k < front.len() && front[k] == (name, pid);
                assert(all[k] == front[k]);
            }
        }
    }
}

/// The last lines of a log are shown: all of them where there are no more than asked for, and
/// else as many as asked for, in their order.
pub proof fn law_log_tail(a: Seq<Seq<char>>, b: Seq<Seq<char>>, n: int)
    requires
        n >= 0,
    ensures
        b.len() == n ==> tail(a + b, n) == b,
        b.len() <= n ==> tail(b, n) == b,
{
    assert(b.len() == n && a.len() > 0 ==> (a + b).skip((a + b).len() - n) =~= b);
    assert(a.len() == 0 ==> a + b =~= b);
}

/// Logs are shown line by line: those of the standard output, then, where there are any, those
/// of the standard error under a heading; where there is neither, that is said.
pub proof fn law_logs_shown(
    out: Option<Seq<char>>,
    err: Option<Seq<char>>,
    n: int,
    ls: Seq<Seq<char>>,
    l: Seq<char>,
)
    ensures
        out matches Some(t) ==> log_tail(out, n) == tail(lines(t), n),
        out is None ==> log_tail(out, n).len() == 0,
        with_newlines(Seq::empty()) == Seq::<char>::empty(),
        with_newlines(ls.push(l)) == with_newlines(ls) + l + "\n"@,
        log_tail(out, n).len() > 0 && log_tail(err, n).len() == 0 ==> logs_text(out, err, n)
            == with_newlines(log_tail(out, n)),
        log_tail(err, n).len() > 0 ==> logs_text(out, err, n) == with_newlines(log_tail(out, n))
            + "--- stderr ---\n"@ + with_newlines(log_tail(err, n)),
        log_tail(out, n).len() == 0 && log_tail(err, n).len() == 0 ==> logs_text(out, err, n)
            == "(no logs yet)\n"@,
{
    assert(ls.push(l).drop_last() =~= ls);
    reveal_strlit("\n");
    reveal_strlit("--- stderr ---\n");
    let v = log_tail(out, n);
    if v.len() > 0 {
        assert(with_newlines(v).len() > 0);
    }
}

/// A captured line is stamped with its time and ends with a newline.
pub proof fn law_stamped(time: Seq<char>, line: Seq<char>)
    ensures
        stamped(time, line) == seq!['['] + time + seq![']', ' '] + line + seq!['\n'],
{
    reveal_strlit("[");
    reveal_strlit("] ");
    reveal_strlit("\n");
    assert(stamped(time, line) =~= seq!['['] + time + seq![']', ' '] + line + seq!['\n']);
}

/// Every process has its two logs among those that are looked at, and there are no others.
pub proof fn law_rotated_logs(s: Seq<ManagedView>, n: int)
    requires
        0 <= n <= s.len(),
    ensures
        log_files(s, n).len() == 2 * n,
        forall|i: int|
            #![trigger s[i]]
            0 <= i < n ==> log_files(s, n)[2 * i] == launch_of(s[i].config).stdout_log && log_files(
                s,
                n,
            )[2 * i + 1] == launch_of(s[i].config).stderr_log,
    decreases n,
{
    if n > 0 {
        law_rotated_logs(s, n - 1);
        assert forall|i: int| #![trigger s[i]] 0 <= i < n implies log_files(s, n)[2 * i]
            == launch_of(s[i].config).stdout_log && log_files(s, n)[2 * i + 1] == launch_of(
            s[i].config,
        ).stderr_log by {
            if i < n - 1 {
                assert(log_files(s, n)[2 * i] == log_files(s, n - 1)[2 * i]);
                assert(log_files(s, n)[2 * i + 1] == log_files(s, n - 1)[2 * i + 1]);
            }
        }
    }
}

/// Restoring processes under different free names, each of which starts, brings every one of
/// them back in its order behind those that are there.
pub proof fn law_all_restored(
    s: Seq<ManagedView>,
    list: Seq<ProcessConfig>,
    outcomes: Seq<SpawnOutcome>,
    n: int,
)
    requires
        0 <= n <= list.len(),
        list.len() == outcomes.len(),
        forall|i: int, j: int|
            #![trigger s[i], list[j]]
            0 <= i < s.len() && 0 <= j < list.len() ==> s[i].config.name != list[j]@.name,
        forall|i: int, j: int|
            #![trigger list[i], list[j]]
            0 <= i < j < list.len() ==> list[i]@.name != list[j]@.name,
        forall|i: int|
            #![trigger list[i]]
            #![trigger outcomes[i]]
            0 <= i < list.len() && !list[i]@.spa ==> outcomes[i].dirs is Ok && started(
                list[i]@,
                outcomes[i].start@,
            ) is Ok,
    ensures
        ({
            let t = restored_change(s, list, outcomes, n).0;
            &&& t.len() == s.len() + n
            &&& forall|i: int| 0 <= i < s.len() ==> t[i] == #[trigger] s[i]
            &&& forall|i: int|
                #![trigger list[i]]
                0 <= i < n ==> {
                    &&& t[s.len() + i].config == list[i]@
                    &&& t[s.len() + i].status == ProcessStatus::Running
                    &&& t[s.len() + i].child == !list[i]@.spa
                }
        }),
    decreases n,
{
    if n > 0 {
        law_all_restored(s, list, outcomes, n - 1);
        let t = restored_change(s, list, outcomes, n - 1).0;
        let c = list[n - 1]@;
        let o = outcomes[n - 1];
        assert forall|i: int| 0 <= i < t.len() implies (#[trigger] t[i]).config.name != c.name by {
            if i < s.len() {
                assert(t[i] == s[i]);
            } else {
                assert(t[s.len() + (i - s.len())].config == list[i - s.len()]@);
            }
        }
        lemma_named(t, c.name);
        let u = restored_change(s, list, outcomes, n).0;
        if !c.spa {
            law_started(c, o.start@);
        }
        assert forall|i: int| #![trigger list[i]] 0 <= i < n implies u[s.len() + i].config
            == list[i]@ && u[s.len() + i].status == ProcessStatus::Running && u[s.len()
            + i].child == !list[i]@.spa by {
            if i < n - 1 {
                assert(u[s.len() + i] == t[s.len() + i]);
            }
        }
        assert forall|i: int| 0 <= i < s.len() implies u[i] == #[trigger] s[i] by {
            assert(u[i] == t[i]);
        }
    }
}

/// A reload that succeeds starts the new child before the old one is killed; the process then runs
/// under the new number, which is written to its file, and the restart is counted.
pub proof fn law_process_reloaded(s: Seq<ManagedView>, i: int, outcome: StartOutcomeView)
    requires
        distinct_names(s),
        0 <= i < s.len(),
        s[i].restart_count < u32::MAX,
        started(s[i].config, outcome) is Ok,
    ensures
        ({
            let p = s[i];
            let (t, result, todo) = reload_change(s, p.config.name, outcome);
            &&& result is Ok && t.len() == s.len()
            &&& forall|j: int| 0 <= j < s.len() && j != i ==> t[j] == #[trigger] s[j]
            &&& t[i].config == p.config && t[i].pid == outcome.spawned->Ok_0
            &&& t[i].child && t[i].status == ProcessStatus::Running
            &&& t[i].started_at == Some(outcome.at)
            &&& t[i].restart_count == p.restart_count + 1
            &&& p.child <==> todo.contains(EffectView::KillChild(p.config.name))
            &&& todo.last() == EffectView::CountRestart(p.config.name)
            &&& p.config.pid_file matches Some(f) ==> (t[i].pid matches Some(n)
                ==> todo.contains(EffectView::WriteFile(f, decimal(n as nat))))
        }),
{
    let p = s[i];
    lemma_position_is(s, p.config.name, i);
    let (t, result, todo) = reload_change(s, p.config.name, outcome);
    let first = start_effects(p.config, outcome.pulled);
    let second = kill_effects(p);
    let third = pid_effects(t[i]);
    assert(todo == first + second + third + seq![EffectView::CountRestart(p.config.name)]);
    if second.len() > 0 {
        assert(todo[first.len() as int] == second[0]);
    }
    if third.len() > 0 {
        assert(todo[(first.len() + second.len()) as int] == third[0]);
    }
}

/// A changed configuration or program of a process leaves all else that is known of it.
pub proof fn law_process_changed(p: ManagedView, c: ProcessConfigView, path: Seq<char>)
    ensures
        with_config(p, c).config == c,
        with_config(p, c).resolved == p.resolved,
        with_config(p, c).pid == p.pid && with_config(p, c).child == p.child,
        with_config(p, c).status == p.status && with_config(p, c).started_at == p.started_at,
        with_config(p, c).restart_count == p.restart_count,
        with_path(p, path).config == p.config,
        with_path(p, path).resolved.path == path,
        with_path(p, path).resolved.args == p.resolved.args,
        with_path(p, path).resolved.env_vars == p.resolved.env_vars,
        with_path(p, path).pid == p.pid && with_path(p, path).child == p.child,
        with_path(p, path).status == p.status && with_path(p, path).started_at == p.started_at,
        with_path(p, path).restart_count == p.restart_count,
{
}

/// A pull is counted once, as a success or as a failure, and only where there is one.
pub proof fn law_pull_counted(config: ProcessConfigView, pulled: Result<PulledView, Seq<char>>)
    ensures
        !config.is_oci ==> start_effects(config, pulled).len() == 0,
        config.is_oci && pulled is Ok ==> start_effects(config, pulled) == seq![
            EffectView::CountPull,
        ],
        config.is_oci && pulled is Err ==> start_effects(config, pulled) == seq![
            EffectView::CountPullError,
        ],
{
}

/// The names under which rotated logs are kept, and how many there are.
pub proof fn law_rotated_name(path: Seq<char>, i: nat)
    ensures
        rotated(path, i) == path + seq!['.'] + decimal(i),
        LOG_MAX_SIZE == 10485760,
        LOG_MAX_ROTATED == 5,
{
    reveal_strlit(".");
    assert("."@ =~= seq!['.']);
}

} // verus!
