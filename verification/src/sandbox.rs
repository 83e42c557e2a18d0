//! What a process is denied: the network, by a system call filter, and the file
//! system outside of its own directory, by access rules.

use seccompiler::{BpfProgram, SeccompAction, SeccompFilter, TargetArch};
use vstd::prelude::*;
use vstd::string::*;
use crate::text::{cat2, cat3, same, texts};

verus! {

// ---------------------------------------------------------------------------
// File system rules
// ---------------------------------------------------------------------------

/// What a rule permits beneath its path.
#[derive(Clone, Copy, Debug, PartialEq, Eq, Structural)]
pub enum IoAccess {
    /// Reading files and directories, and executing.
    ReadExecute,
    /// Everything.
    Full,
}

/// A path beneath which access is permitted; the rule is left out where the path
/// cannot be opened.
#[derive(Debug, PartialEq, Eq)]
pub struct IoRule {
    pub path: String,
    pub access: IoAccess,
    /// Whether a path that cannot be opened is worth a warning.
    pub expected: bool,
}

/// The contents of an `IoRule`.
#[verifier::ext_equal]
pub struct IoRuleView {
    pub path: Seq<char>,
    pub access: IoAccess,
    pub expected: bool,
}

impl View for IoRule {
    type V = IoRuleView;

    open spec fn view(&self) -> IoRuleView {
        IoRuleView { path: self.path@, access: self.access, expected: self.expected }
    }
}

/// The contents of a list of rules.
pub open spec fn rules_view(v: Seq<IoRule>) -> Seq<IoRuleView> {
    v.map_values(|r: IoRule| r@)
}

/// The rule for a path that every process may read.
pub open spec fn system_rule(path: Seq<char>) -> IoRuleView {
    IoRuleView { path, access: IoAccess::ReadExecute, expected: false }
}

/// The rule for a path that the user allows.
pub open spec fn allowed_rule(path: Seq<char>) -> IoRuleView {
    IoRuleView { path, access: IoAccess::Full, expected: true }
}

/// The rule for a path of the process itself.
pub open spec fn own_rule(path: Seq<char>) -> IoRuleView {
    IoRuleView { path, access: IoAccess::Full, expected: false }
}

/// What dynamic linking and the standard devices need.
pub open spec fn system_rules() -> Seq<IoRuleView> {
    seq![
        system_rule("/lib"@),
        system_rule("/lib64"@),
        system_rule("/usr/lib"@),
        system_rule("/usr/lib64"@),
        system_rule("/usr/local/lib"@),
        system_rule("/etc/ld.so.cache"@),
        system_rule("/etc/ld.so.conf"@),
        system_rule("/etc/ld.so.conf.d"@),
        system_rule("/proc/self"@),
        system_rule("/dev/null"@),
        system_rule("/dev/urandom"@),
        system_rule("/dev/zero"@),
    ]
}

/// The rules of a process that is denied input and output, in order: what the system
/// needs, its working directory and the allowed paths.
pub open spec fn io_rules_of(allow: Seq<Seq<char>>, working_dir: Seq<char>) -> Seq<IoRuleView> {
    system_rules() + seq![own_rule(working_dir)] + allow.map_values(
        |p: Seq<char>| allowed_rule(p),
    )
}

fn rule(path: &str, access: IoAccess, expected: bool) -> (r: IoRule)
    ensures
        r@ == (IoRuleView { path: path@, access, expected }),
{
    IoRule { path: path.to_string(), access, expected }
}

fn system_rule_list() -> (r: Vec<IoRule>)
    ensures
        rules_view(r@) == system_rules(),
{
    let mut out: Vec<IoRule> = Vec::new();
    out.push(rule("/lib", IoAccess::ReadExecute, false));
    out.push(rule("/lib64", IoAccess::ReadExecute, false));
    out.push(rule("/usr/lib", IoAccess::ReadExecute, false));
    out.push(rule("/usr/lib64", IoAccess::ReadExecute, false));
    out.push(rule("/usr/local/lib", IoAccess::ReadExecute, false));
    out.push(rule("/etc/ld.so.cache", IoAccess::ReadExecute, false));
    out.push(rule("/etc/ld.so.conf", IoAccess::ReadExecute, false));
    out.push(rule("/etc/ld.so.conf.d", IoAccess::ReadExecute, false));
    out.push(rule("/proc/self", IoAccess::ReadExecute, false));
    out.push(rule("/dev/null", IoAccess::ReadExecute, false));
    out.push(rule("/dev/urandom", IoAccess::ReadExecute, false));
    out.push(rule("/dev/zero", IoAccess::ReadExecute, false));
    assert(rules_view(out@) =~= system_rules());
    out
}

/// The rules of a process that is denied input and output.
pub fn apply_deny_io(allowed_paths: &Vec<String>, working_dir: &str) -> (r: Vec<IoRule>)
    ensures
        rules_view(r@) == io_rules_of(texts(allowed_paths@), working_dir@),
{
    let mut out = system_rule_list();
    let ghost base = system_rules() + seq![own_rule(working_dir@)];
    let ghost all = texts(allowed_paths@);
    let ghost was = rules_view(out@);
    out.push(rule(working_dir, IoAccess::Full, false));
    proof {
        assert(rules_view(out@) =~= was.push(own_rule(working_dir@)));
        assert(rules_view(out@) =~= base);
        assert(rules_view(out@) =~= base + all.take(0).map_values(
            |p: Seq<char>| allowed_rule(p),
        ));
    }
    let mut i: usize = 0;
    while i < allowed_paths.len()
        invariant
            i <= allowed_paths.len(),
            all == texts(allowed_paths@),
            rules_view(out@) == base + all.take(i as int).map_values(
                |p: Seq<char>| allowed_rule(p),
            ),
        decreases allowed_paths.len() - i,
    {
        let ghost before = rules_view(out@);
        out.push(rule(allowed_paths[i].as_str(), IoAccess::Full, true));
        proof {
            assert(all[i as int] == allowed_paths@[i as int]@);
            assert(rules_view(out@) =~= before.push(allowed_rule(all[i as int])));
            assert(all.take(i + 1) =~= all.take(i as int).push(all[i as int]));
            assert(rules_view(out@) =~= base + all.take(i + 1).map_values(
                |p: Seq<char>| allowed_rule(p),
            ));
        }
        i += 1;
    }
    assert(all.take(i as int) =~= all);
    out
}

/// Nothing outside of the working directory and the allowed paths can be written.
pub proof fn law_full_access(allow: Seq<Seq<char>>, working_dir: Seq<char>, i: int)
    requires
        0 <= i < io_rules_of(allow, working_dir).len(),
        io_rules_of(allow, working_dir)[i].access == IoAccess::Full,
    ensures
        ({
            let p = io_rules_of(allow, working_dir)[i].path;
            p == working_dir || allow.contains(p)
        }),
{
    let n = system_rules().len() + 1;
    if n <= i < n + allow.len() {
        assert(allow[i - n] == io_rules_of(allow, working_dir)[i].path);
    }
}

// ---------------------------------------------------------------------------
// The system call filter
// ---------------------------------------------------------------------------

/// An instruction of a filter program: its code, the two jump offsets and the operand.
pub type Instruction = (u16, u8, u8, u32);

/// Where the making of a filter failed.
#[derive(Clone, Copy, Debug, PartialEq, Eq, Structural)]
pub enum FilterStage {
    /// The processor is not supported.
    Arch,
    /// The filter makes no sense.
    Filter,
    /// The filter cannot be compiled.
    Compile,
}

/// What a filter does with a system call.
#[derive(Clone, Copy, Debug, PartialEq, Eq, Structural)]
pub enum Verdict {
    /// It lets the call pass.
    Allow,
    /// It answers with this error number.
    Errno(u32),
}

/// The program that `seccompiler` makes of a filter that answers the listed system
/// calls, whatever their arguments are, with one verdict and all others with another.
pub uninterp spec fn filter_program(
    calls: Seq<i64>,
    matched: Verdict,
    others: Verdict,
    arch: Seq<char>,
) -> Result<Seq<(u16, u8, u8, u32)>, (FilterStage, Seq<char>)>;

/// Whether filters are made for a processor.
pub open spec fn is_known(arch: Seq<char>) -> bool {
    arch == "x86_64"@ || arch == "aarch64"@ || arch == "riscv64"@
}

/// The contents of what a compilation gave.
pub open spec fn program_view(r: Result<Vec<Instruction>, (FilterStage, String)>) -> Result<
    Seq<Instruction>,
    (FilterStage, Seq<char>),
> {
    match r {
        Ok(p) => Ok(p@),
        Err((stage, e)) => Err((stage, e@)),
    }
}

/// `seccompiler::SeccompFilter::new` with an empty chain of rules for each call, which
/// matches the call whatever its arguments are, and the filter's conversion into a
/// `BpfProgram`; the processor by `TargetArch`'s `TryFrom<&str>`. The program, or the stage
/// and text of the error, is a function of the calls, the two verdicts and the processor, and
/// `filter_program` names it. There is a program where the processor is one of the three that
/// `TargetArch` knows, the verdicts differ and the list is short: five instructions for each
/// call stay below the limit. The conversion panics on a call that is no `u32`.
#[verifier::external_body]
fn compile_filter(calls: &Vec<i64>, matched: Verdict, others: Verdict, arch: &str) -> (r: Result<
    Vec<Instruction>,
    (FilterStage, String),
>)
    requires
        forall|i: int| 0 <= i < calls@.len() ==> 0 <= #[trigger] calls@[i] <= u32::MAX,
    ensures
        program_view(r) == filter_program(calls@, matched, others, arch@),
        is_known(arch@) && matched != others && calls@.len() <= 800 ==> r is Ok,
{
    let arch = TargetArch::try_from(arch).map_err(|e| (FilterStage::Arch, e.to_string()))?;
    let rules = calls.iter().map(|c| (*c, vec![])).collect();
    let action = |v: Verdict| match v {
        Verdict::Allow => SeccompAction::Allow,
        Verdict::Errno(n) => SeccompAction::Errno(n),
    };
    let filter = SeccompFilter::new(rules, action(others), action(matched), arch)
        .map_err(|e| (FilterStage::Filter, e.to_string()))?;
    let program = BpfProgram::try_from(filter)
        .map_err(|e| (FilterStage::Compile, e.to_string()))?;
    Ok(program.iter().map(|i| (i.code, i.jt, i.jf, i.k)).collect())
}

/// A system call that opens or uses a socket.
#[derive(Clone, Copy, Debug, PartialEq, Eq, Structural)]
pub enum NetCall {
    Socket,
    Connect,
    Bind,
    Listen,
    Accept,
    Accept4,
    Sendto,
    Sendmsg,
    Sendmmsg,
}

/// The system calls that are denied together with the network.
pub open spec fn denied_calls() -> Seq<NetCall> {
    seq![
        NetCall::Socket,
        NetCall::Connect,
        NetCall::Bind,
        NetCall::Listen,
        NetCall::Accept,
        NetCall::Accept4,
        NetCall::Sendto,
        NetCall::Sendmsg,
        NetCall::Sendmmsg,
    ]
}

/// The numbers that a machine gives to the calls.
#[derive(Clone, Copy, Debug, PartialEq, Eq, Structural)]
pub struct CallTable {
    pub socket: i64,
    pub connect: i64,
    pub bind: i64,
    pub listen: i64,
    pub accept: i64,
    pub accept4: i64,
    pub sendto: i64,
    pub sendmsg: i64,
    pub sendmmsg: i64,
}

impl CallTable {
    /// The number of a call.
    pub open spec fn number_of(self, call: NetCall) -> i64 {
        match call {
            NetCall::Socket => self.socket,
            NetCall::Connect => self.connect,
            NetCall::Bind => self.bind,
            NetCall::Listen => self.listen,
            NetCall::Accept => self.accept,
            NetCall::Accept4 => self.accept4,
            NetCall::Sendto => self.sendto,
            NetCall::Sendmsg => self.sendmsg,
            NetCall::Sendmmsg => self.sendmmsg,
        }
    }

    /// Every number is a natural number of 32 bits.
    pub open spec fn valid(self) -> bool {
        forall|c: NetCall| 0 <= #[trigger] self.number_of(c) <= u32::MAX
    }

    /// No two calls share a number.
    pub open spec fn distinct(self) -> bool {
        forall|a: NetCall, b: NetCall|
            #![trigger self.number_of(a), self.number_of(b)]
            a != b ==> self.number_of(a) != self.number_of(b)
    }

    /// The number of a call.
    pub fn number(&self, call: NetCall) -> (r: i64)
        ensures
            r == self.number_of(call),
    {
        match call {
            NetCall::Socket => self.socket,
            NetCall::Connect => self.connect,
            NetCall::Bind => self.bind,
            NetCall::Listen => self.listen,
            NetCall::Accept => self.accept,
            NetCall::Accept4 => self.accept4,
            NetCall::Sendto => self.sendto,
            NetCall::Sendmsg => self.sendmsg,
            NetCall::Sendmmsg => self.sendmmsg,
        }
    }
}

/// The constants of `nix::libc` for the calls. They differ between processors, so that
/// nothing is said of them but that they are natural numbers of 32 bits and differ from each
/// other.
#[verifier::external_body]
fn libc_calls() -> (r: CallTable)
    ensures
        r.valid(),
        r.distinct(),
{
    CallTable {
        socket: nix::libc::SYS_socket,
        connect: nix::libc::SYS_connect,
        bind: nix::libc::SYS_bind,
        listen: nix::libc::SYS_listen,
        accept: nix::libc::SYS_accept,
        accept4: nix::libc::SYS_accept4,
        sendto: nix::libc::SYS_sendto,
        sendmsg: nix::libc::SYS_sendmsg,
        sendmmsg: nix::libc::SYS_sendmmsg,
    }
}

/// The numbers that this machine gives to the calls.
pub fn machine_calls() -> (r: CallTable)
    ensures
        r.valid(),
        r.distinct(),
{
    libc_calls()
}

/// The system calls that are denied together with the network.
pub fn network_calls() -> (r: Vec<NetCall>)
    ensures
        r@ == denied_calls(),
{
    let mut out: Vec<NetCall> = Vec::new();
    out.push(NetCall::Socket);
    out.push(NetCall::Connect);
    out.push(NetCall::Bind);
    out.push(NetCall::Listen);
    out.push(NetCall::Accept);
    out.push(NetCall::Accept4);
    out.push(NetCall::Sendto);
    out.push(NetCall::Sendmsg);
    out.push(NetCall::Sendmmsg);
    assert(out@ =~= denied_calls());
    out
}

/// The numbers of system calls, in order.
pub fn call_numbers(table: &CallTable, calls: &Vec<NetCall>) -> (r: Vec<i64>)
    ensures
        r@ == calls@.map_values(|c: NetCall| table.number_of(c)),
{
    let mut out: Vec<i64> = Vec::new();
    let mut i: usize = 0;
    while i < calls.len()
        invariant
            i <= calls@.len(),
            out@ =~= calls@.take(i as int).map_values(|c: NetCall| table.number_of(c)),
        decreases calls@.len() - i,
    {
        out.push(table.number(calls[i]));
        assert(calls@.take(i + 1) =~= calls@.take(i as int).push(calls@[i as int]));
        i += 1;
    }
    assert(calls@.take(i as int) =~= calls@);
    out
}

/// The error number for an operation that is not permitted.
pub const EPERM: u32 = 1;

/// How the failure to make a filter is reported.
pub open spec fn filter_failure(stage: FilterStage, e: Seq<char>) -> Seq<char> {
    match stage {
        FilterStage::Arch => "unsupported arch: "@ + e,
        FilterStage::Filter => "seccomp filter error: "@ + e,
        FilterStage::Compile => "seccomp compile error: "@ + e,
    }
}

/// A compiled filter, or how its failure is reported.
pub fn filter_result(compiled: Result<Vec<Instruction>, (FilterStage, String)>) -> (r: Result<
    Vec<Instruction>,
    String,
>)
    ensures
        match (compiled, r) {
            (Ok(p), Ok(q)) => q@ == p@,
            (Err((stage, e)), Err(m)) => m@ == filter_failure(stage, e@),
            _ => false,
        },
{
    match compiled {
        Ok(p) => Ok(p),
        Err((stage, e)) => Err(
            match stage {
                FilterStage::Arch => cat2("unsupported arch: ", e.as_str()),
                FilterStage::Filter => cat2("seccomp filter error: ", e.as_str()),
                FilterStage::Compile => cat2("seccomp compile error: ", e.as_str()),
            },
        ),
    }
}

/// The program that answers the listed calls with `EPERM`, whatever their arguments are, and
/// lets all others pass.
pub fn deny_calls(calls: &Vec<i64>, arch: &str) -> (r: Result<Vec<Instruction>, String>)
    requires
        forall|i: int| 0 <= i < calls@.len() ==> 0 <= #[trigger] calls@[i] <= u32::MAX,
    ensures
        denies(calls@, arch@, r),
        is_known(arch@) && calls@.len() <= 800 ==> r is Ok,
{
    filter_result(compile_filter(calls, Verdict::Errno(EPERM), Verdict::Allow, arch))
}

/// Whether a result is the program that answers the listed calls with `EPERM` and lets all
/// others pass, or the report of its failure.
pub open spec fn denies(
    calls: Seq<i64>,
    arch: Seq<char>,
    r: Result<Vec<Instruction>, String>,
) -> bool {
    match (filter_program(calls, Verdict::Errno(EPERM), Verdict::Allow, arch), r) {
        (Ok(p), Ok(q)) => q@ == p,
        (Err((stage, e)), Err(m)) => m@ == filter_failure(stage, e),
        _ => false,
    }
}

/// The program that denies the network on the processor `arch`: it is the program for the
/// numbers that the machine gives to the calls that open or use a socket.
pub fn apply_deny_net(table: &CallTable, arch: &str) -> (r: Result<Vec<Instruction>, String>)
    requires
        table.valid(),
    ensures
        denies(denied_calls().map_values(|c: NetCall| table.number_of(c)), arch@, r),
        is_known(arch@) ==> r is Ok,
{
    let calls = call_numbers(table, &network_calls());
    assert forall|i: int| 0 <= i < calls@.len() implies 0 <= #[trigger] calls@[i] <= u32::MAX by {
        assert(calls@[i] == table.number_of(denied_calls()[i]));
    }
    deny_calls(&calls, arch)
}

// ---------------------------------------------------------------------------
// The sandbox of a process
// ---------------------------------------------------------------------------

/// One restriction.
#[derive(Debug, PartialEq, Eq)]
pub enum SandboxStep {
    /// Install the filter that denies the network.
    DenyNet,
    /// Put the rules into force that restrict the file system.
    DenyIo(Vec<IoRule>),
}

/// The contents of a `SandboxStep`.
#[verifier::ext_equal]
pub enum SandboxStepView {
    DenyNet,
    DenyIo(Seq<IoRuleView>),
}

impl View for SandboxStep {
    type V = SandboxStepView;

    open spec fn view(&self) -> SandboxStepView {
        match *self {
            SandboxStep::DenyNet => SandboxStepView::DenyNet,
            SandboxStep::DenyIo(v) => SandboxStepView::DenyIo(rules_view(v@)),
        }
    }
}

/// The contents of a list of steps.
pub open spec fn steps_view(v: Seq<SandboxStep>) -> Seq<SandboxStepView> {
    v.map_values(|s: SandboxStep| s@)
}

/// The restrictions to put into force, in order, and what comes of it where all of
/// them succeed.
#[derive(Debug, PartialEq, Eq)]
pub struct SandboxPlan {
    pub steps: Vec<SandboxStep>,
    pub outcome: Result<(), String>,
}

/// The restriction that a capability stands for.
pub open spec fn step_for(
    cap: Seq<char>,
    allow: Seq<Seq<char>>,
    working_dir: Seq<char>,
) -> Option<SandboxStepView> {
    if cap == "net"@ {
        Some(SandboxStepView::DenyNet)
    } else if cap == "io"@ {
        Some(SandboxStepView::DenyIo(io_rules_of(allow, working_dir)))
    } else {
        None
    }
}

/// How many capabilities are known before the first that is not.
pub open spec fn known(deny: Seq<Seq<char>>) -> int
    decreases deny.len(),
{
    if deny.len() == 0 || (deny[0] != "net"@ && deny[0] != "io"@) {
        0
    } else {
        1 + known(deny.skip(1))
    }
}

/// The restrictions for the capabilities before the first that is not known.
pub open spec fn steps_of(
    deny: Seq<Seq<char>>,
    allow: Seq<Seq<char>>,
    working_dir: Seq<char>,
) -> Seq<SandboxStepView> {
    Seq::new(known(deny) as nat, |i: int| step_for(deny[i], allow, working_dir).unwrap())
}

proof fn lemma_known(deny: Seq<Seq<char>>, n: int)
    requires
        0 <= n <= deny.len(),
        forall|i: int| 0 <= i < n ==> deny[i] == "net"@ || deny[i] == "io"@,
        n < deny.len() ==> deny[n] != "net"@ && deny[n] != "io"@,
    ensures
        known(deny) == n,
    decreases n,
{
    if n > 0 {
        assert forall|i: int| 0 <= i < n - 1 implies deny.skip(1)[i] == "net"@ || deny.skip(1)[i]
            == "io"@ by {
            assert(deny.skip(1)[i] == deny[i + 1]);
        }
        lemma_known(deny.skip(1), n - 1);
    }
}

/// The restrictions of a process on Linux: they are put into force in the order of
/// the list, up to the first capability that is not known, which is an error.
pub fn apply_sandbox(deny: &Vec<String>, allow: &Vec<String>, working_dir: &str) -> (r: SandboxPlan)
    ensures
        steps_view(r.steps@) == steps_of(texts(deny@), texts(allow@), working_dir@),
        match r.outcome {
            Ok(_) => known(texts(deny@)) == deny@.len(),
            Err(e) => known(texts(deny@)) < deny@.len() && e@ == "unknown deny capability: '"@
                + texts(deny@)[known(texts(deny@))] + "'"@,
        },
{
    let ghost caps = texts(deny@);
    let ghost step = |i: int| step_for(caps[i], texts(allow@), working_dir@).unwrap();
    let mut steps: Vec<SandboxStep> = Vec::new();
    let mut i: usize = 0;
    assert(steps_view(steps@) =~= Seq::new(0, step));
    while i < deny.len()
        invariant
            i <= deny.len(),
            caps == texts(deny@),
            step == (|i: int| step_for(caps[i], texts(allow@), working_dir@).unwrap()),
            forall|j: int| 0 <= j < i ==> caps[j] == "net"@ || caps[j] == "io"@,
            steps_view(steps@) == Seq::new(i as nat, step),
        decreases deny.len() - i,
    {
        let ghost was = steps_view(steps@);
        assert(caps[i as int] == deny@[i as int]@);
        if same(deny[i].as_str(), "net") {
            steps.push(SandboxStep::DenyNet);
        } else if same(deny[i].as_str(), "io") {
            steps.push(SandboxStep::DenyIo(apply_deny_io(allow, working_dir)));
        } else {
            proof {
                lemma_known(caps, i as int);
            }
            return SandboxPlan {
                steps,
                outcome: Err(cat3("unknown deny capability: '", deny[i].as_str(), "'")),
            };
        }
        assert(steps_view(steps@) =~= was.push(step(i as int)));
        assert(steps_view(steps@) =~= Seq::new((i + 1) as nat, step));
        i += 1;
    }
    proof {
        lemma_known(caps, i as int);
    }
    SandboxPlan { steps, outcome: Ok(()) }
}

/// The restrictions of a process on other systems: there are none, and asking for one
/// is an error.
pub fn refuse_sandbox(deny: &Vec<String>) -> (r: Result<(), String>)
    ensures
        match r {
            Ok(_) => deny@.len() == 0,
            Err(e) => deny@.len() > 0 && e@ == "sandboxing (--deny) is only supported on Linux"@,
        },
{
    if deny.len() == 0 {
        Ok(())
    } else {
        Err("sandboxing (--deny) is only supported on Linux".to_string())
    }
}

// ---------------------------------------------------------------------------
// Laws
// ---------------------------------------------------------------------------

/// A process without access to files can read and run the system's libraries, and has full access
/// to its own place and to what is allowed, and to nothing else.
pub proof fn law_io_rules(allow: Seq<Seq<char>>, working_dir: Seq<char>, path: Seq<char>)
    ensures
        ({
            let rules = io_rules_of(allow, working_dir);
            &&& rules.contains(
                IoRuleView { path: working_dir, access: IoAccess::Full, expected: false },
            )
            &&& allow.contains(path) ==> rules.contains(
                IoRuleView { path, access: IoAccess::Full, expected: true },
            )
            &&& rules.len() == 13 + allow.len()
            &&& forall|i: int|
                0 <= i < 12 ==> (#[trigger] rules[i]).access == IoAccess::ReadExecute
                    && !rules[i].expected
        }),
{
    let rules = io_rules_of(allow, working_dir);
    assert(rules[12] == own_rule(working_dir));
    if allow.contains(path) {
        let i = choose|i: int| 0 <= i < allow.len() && allow[i] == path;
        assert(rules[13 + i] == allowed_rule(path));
    }
}

/// The paths of the system that stay readable.
pub proof fn law_system_paths(allow: Seq<Seq<char>>, working_dir: Seq<char>)
    ensures
        ({
            let rules = io_rules_of(allow, working_dir);
            &&& rules[0].path == "/lib"@ && rules[1].path == "/lib64"@
            &&& rules[2].path == "/usr/lib"@ && rules[3].path == "/usr/lib64"@
            &&& rules[4].path == "/usr/local/lib"@ && rules[5].path == "/etc/ld.so.cache"@
            &&& rules[6].path == "/etc/ld.so.conf"@ && rules[7].path == "/etc/ld.so.conf.d"@
            &&& rules[8].path == "/proc/self"@ && rules[9].path == "/dev/null"@
            &&& rules[10].path == "/dev/urandom"@ && rules[11].path == "/dev/zero"@
        }),
{
}

/// Each denied capability is taken away in its order, the network by a filter of calls and files
/// by the rules of the process.
pub proof fn law_sandbox_steps(
    deny: Seq<Seq<char>>,
    allow: Seq<Seq<char>>,
    working_dir: Seq<char>,
)
    requires
        forall|i: int| 0 <= i < deny.len() ==> #[trigger] deny[i] == "net"@ || deny[i] == "io"@,
    ensures
        known(deny) == deny.len(),
        steps_of(deny, allow, working_dir).len() == deny.len(),
        forall|i: int|
            #![trigger deny[i]]
            0 <= i < deny.len() && deny[i] == "net"@ ==> steps_of(deny, allow, working_dir)[i]
                == SandboxStepView::DenyNet,
        forall|i: int|
            #![trigger deny[i]]
            0 <= i < deny.len() && deny[i] == "io"@ ==> steps_of(deny, allow, working_dir)[i]
                == SandboxStepView::DenyIo(io_rules_of(allow, working_dir)),
{
    lemma_known(deny, deny.len() as int);
    reveal_strlit("net");
    reveal_strlit("io");
    assert("net"@.len() != "io"@.len());
}

/// An unknown capability ends the sandbox: those before it are taken away, and none after it.
pub proof fn law_unknown_capability(a: Seq<Seq<char>>, x: Seq<char>, b: Seq<Seq<char>>)
    requires
        forall|i: int| 0 <= i < a.len() ==> #[trigger] a[i] == "net"@ || a[i] == "io"@,
        x != "net"@ && x != "io"@,
    ensures
        known(a.push(x) + b) == a.len(),
{
    let deny = a.push(x) + b;
    assert forall|i: int| 0 <= i < a.len() implies #[trigger] deny[i] == "net"@ || deny[i]
        == "io"@ by {
        assert(deny[i] == a[i]);
    }
    assert(deny[a.len() as int] == x);
    lemma_known(deny, a.len() as int);
}

/// Every call that opens or uses a connection is denied: the program gets an error, and all other
/// calls go through.
pub proof fn law_network_denied(c: NetCall, table: CallTable)
    ensures
        denied_calls().contains(c),
        denied_calls().map_values(|x: NetCall| table.number_of(x)).contains(table.number_of(c)),
        denied_calls().len() == 9,
{
    let d = denied_calls();
    let i: int = match c {
        NetCall::Socket => 0,
        NetCall::Connect => 1,
        NetCall::Bind => 2,
        NetCall::Listen => 3,
        NetCall::Accept => 4,
        NetCall::Accept4 => 5,
        NetCall::Sendto => 6,
        NetCall::Sendmsg => 7,
        NetCall::Sendmmsg => 8,
    };
    assert(d[i] == c);
    let f = |x: NetCall| table.number_of(x);
    assert(d.map_values(f)[i] == table.number_of(c));
}

/// What is denied fails with "operation not permitted", and what is not denied is allowed.
pub proof fn law_denied_with(calls: Seq<i64>, arch: Seq<char>, r: Result<Vec<Instruction>, String>)
    requires
        denies(calls, arch, r),
    ensures
        r matches Ok(q) ==> filter_program(calls, Verdict::Errno(1), Verdict::Allow, arch) == Ok::<
            _,
            (FilterStage, Seq<char>),
        >(q@),
        r is Err ==> filter_program(calls, Verdict::Errno(1), Verdict::Allow, arch) is Err,
{
}

/// What a filter fails with is told by its stage.
pub proof fn law_filter_failures(e: Seq<char>)
    ensures
        filter_failure(FilterStage::Arch, e) == "unsupported arch: "@ + e,
        filter_failure(FilterStage::Filter, e) == "seccomp filter error: "@ + e,
        filter_failure(FilterStage::Compile, e) == "seccomp compile error: "@ + e,
{
}

} // verus!
