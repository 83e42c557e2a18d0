use nyrun::sandbox::{
    apply_deny_io, apply_deny_net, apply_sandbox, call_numbers, deny_calls, filter_result, machine_calls,
    network_calls, refuse_sandbox, CallTable, FilterStage, IoAccess, NetCall, SandboxStep,
};
use std::collections::BTreeMap;

fn owned(v: &[&str]) -> Vec<String> {
    v.iter().map(|s| s.to_string()).collect()
}

/// What a filter program answers to a system call: the value that it returns.
fn answer(program: &[(u16, u8, u8, u32)], arch: u32, call: u32) -> u32 {
    let mut pc = 0usize;
    let mut acc = 0u32;
    loop {
        let (code, jt, jf, k) = program[pc];
        pc += 1;
        match code {
            0x20 => {
                acc = match k {
                    0 => call,
                    4 => arch,
                    _ => 0,
                }
            }
            0x15 => pc += if acc == k { jt as usize } else { jf as usize },
            0x05 => pc += k as usize,
            0x06 => return k,
            other => panic!("{other:x}"),
        }
    }
}

const X86_64: u32 = 0xc000_003e;
const ALLOW: u32 = 0x7fff_0000;
const EPERM: u32 = 0x0005_0001;

#[test]
fn the_network_is_denied() {
    let calls: Vec<i64> = vec![41, 42, 49, 50, 43, 288, 44, 46, 307];
    let program = deny_calls(&calls, "x86_64").unwrap();
    for call in 0..400 {
        let want = if calls.contains(&(call as i64)) { EPERM } else { ALLOW };
        assert_eq!(answer(&program, X86_64, call), want, "{call}");
    }
}

#[test]
fn the_filter_is_that_of_the_crate() {
    let calls: Vec<i64> = vec![41, 42];
    let mut rules: BTreeMap<i64, Vec<seccompiler::SeccompRule>> = BTreeMap::new();
    for c in &calls {
        rules.insert(*c, vec![]);
    }
    let filter = seccompiler::SeccompFilter::new(
        rules,
        seccompiler::SeccompAction::Allow,
        seccompiler::SeccompAction::Errno(nix::libc::EPERM as u32),
        seccompiler::TargetArch::aarch64,
    )
    .unwrap();
    let want: seccompiler::BpfProgram = filter.try_into().unwrap();
    let got = deny_calls(&calls, "aarch64").unwrap();
    let want: Vec<(u16, u8, u8, u32)> = want.iter().map(|i| (i.code, i.jt, i.jf, i.k)).collect();
    assert_eq!(got, want);
}

#[test]
fn the_calls_of_this_machine() {
    let calls = network_calls();
    assert_eq!(
        calls,
        vec![
            NetCall::Socket,
            NetCall::Connect,
            NetCall::Bind,
            NetCall::Listen,
            NetCall::Accept,
            NetCall::Accept4,
            NetCall::Sendto,
            NetCall::Sendmsg,
            NetCall::Sendmmsg,
        ]
    );
    let numbers = call_numbers(&machine_calls(), &calls);
    assert_eq!(
        numbers,
        vec![
            nix::libc::SYS_socket,
            nix::libc::SYS_connect,
            nix::libc::SYS_bind,
            nix::libc::SYS_listen,
            nix::libc::SYS_accept,
            nix::libc::SYS_accept4,
            nix::libc::SYS_sendto,
            nix::libc::SYS_sendmsg,
            nix::libc::SYS_sendmmsg,
        ]
    );
    for arch in ["x86_64", "aarch64", "riscv64"] {
        let program = apply_deny_net(&machine_calls(), arch);
        assert!(program.is_ok());
        assert_eq!(program, deny_calls(&numbers, arch));
    }
    let many: Vec<i64> = (0..800).collect();
    assert!(deny_calls(&many, "x86_64").is_ok());
}

#[test]
fn the_calls_of_another_machine() {
    let table = CallTable {
        socket: 198,
        connect: 203,
        bind: 200,
        listen: 201,
        accept: 202,
        accept4: 242,
        sendto: 206,
        sendmsg: 211,
        sendmmsg: 269,
    };
    let numbers = vec![198, 203, 200, 201, 202, 242, 206, 211, 269];
    assert_eq!(call_numbers(&table, &network_calls()), numbers);
    assert_eq!(table.number(NetCall::Sendmmsg), 269);
    let program = apply_deny_net(&table, "x86_64").unwrap();
    for call in 0..400 {
        let want = if numbers.contains(&(call as i64)) { EPERM } else { ALLOW };
        assert_eq!(answer(&program, X86_64, call), want, "{call}");
    }
}

#[test]
fn filters_that_cannot_be_made() {
    let e = apply_deny_net(&machine_calls(), "pdp11").unwrap_err();
    assert!(e.starts_with("unsupported arch: "), "{e}");
    for (stage, message) in [
        (FilterStage::Arch, "unsupported arch: e"),
        (FilterStage::Filter, "seccomp filter error: e"),
        (FilterStage::Compile, "seccomp compile error: e"),
    ] {
        assert_eq!(filter_result(Err((stage, "e".to_string()))), Err(message.to_string()));
    }
    assert_eq!(filter_result(Ok(vec![(1, 2, 3, 4)])), Ok(vec![(1, 2, 3, 4)]));
}

#[test]
fn rules_for_the_file_system() {
    let rules = apply_deny_io(&owned(&["/tmp/data", "/var/log"]), "/srv/app");
    let shown: Vec<(&str, IoAccess, bool)> =
        rules.iter().map(|r| (r.path.as_str(), r.access, r.expected)).collect();
    let read = |p| (p, IoAccess::ReadExecute, false);
    assert_eq!(
        shown,
        vec![
            read("/lib"),
            read("/lib64"),
            read("/usr/lib"),
            read("/usr/lib64"),
            read("/usr/local/lib"),
            read("/etc/ld.so.cache"),
            read("/etc/ld.so.conf"),
            read("/etc/ld.so.conf.d"),
            read("/proc/self"),
            read("/dev/null"),
            read("/dev/urandom"),
            read("/dev/zero"),
            ("/srv/app", IoAccess::Full, false),
            ("/tmp/data", IoAccess::Full, true),
            ("/var/log", IoAccess::Full, true),
        ]
    );
    for rule in apply_deny_io(&owned(&[]), "/srv/app") {
        assert_eq!(rule.access == IoAccess::Full, rule.path == "/srv/app");
    }
}

#[test]
fn restrictions_in_order() {
    let none = apply_sandbox(&owned(&[]), &owned(&["/x"]), "/srv");
    assert_eq!((none.steps.len(), none.outcome), (0, Ok(())));
    let plan = apply_sandbox(&owned(&["io", "net"]), &owned(&[]), "/srv");
    assert_eq!(plan.steps[0], SandboxStep::DenyIo(apply_deny_io(&owned(&[]), "/srv")));
    assert_eq!(plan.steps[1], SandboxStep::DenyNet);
    assert_eq!((plan.steps.len(), plan.outcome), (2, Ok(())));
    let plan = apply_sandbox(&owned(&["net", "gpu", "io"]), &owned(&[]), "/srv");
    assert_eq!(plan.steps, vec![SandboxStep::DenyNet]);
    assert_eq!(plan.outcome, Err("unknown deny capability: 'gpu'".to_string()));
}

#[test]
fn other_systems_refuse() {
    assert_eq!(refuse_sandbox(&owned(&[])), Ok(()));
    assert_eq!(
        refuse_sandbox(&owned(&["net"])),
        Err("sandboxing (--deny) is only supported on Linux".to_string())
    );
}
