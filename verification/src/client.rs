//! What the command line prints.

use vstd::prelude::*;
use vstd::string::*;
use crate::config::{mapping_text, port_text};
use crate::number::{decimal, number_text};
use crate::protocol::{
    infos, ProcessInfo, ProcessInfoView, ProcessMode, ProcessStatus, Response, ResponseView,
};
use crate::text::{cat2, cat3, cat4, cat5};

verus! {

// ---------------------------------------------------------------------------
// Times and columns
// ---------------------------------------------------------------------------

/// How long a process has run: the two largest units.
pub open spec fn uptime_text(secs: nat) -> Seq<char> {
    if secs < 60 {
        decimal(secs) + "s"@
    } else if secs < 3600 {
        decimal(secs / 60) + "m "@ + decimal(secs % 60) + "s"@
    } else if secs < 86400 {
        decimal(secs / 3600) + "h "@ + decimal(secs % 3600 / 60) + "m"@
    } else {
        decimal(secs / 86400) + "d "@ + decimal(secs % 86400 / 3600) + "h"@
    }
}

/// How long a process has run.
pub fn format_uptime(secs: u64) -> (r: String)
    ensures
        r@ == uptime_text(secs as nat),
{
    if secs < 60 {
        cat2(number_text(secs).as_str(), "s")
    } else if secs < 3600 {
        cat4(number_text(secs / 60).as_str(), "m ", number_text(secs % 60).as_str(), "s")
    } else if secs < 86400 {
        cat4(number_text(secs / 3600).as_str(), "h ", number_text(secs % 3600 / 60).as_str(), "m")
    } else {
        cat4(
            number_text(secs / 86400).as_str(),
            "d ",
            number_text(secs % 86400 / 3600).as_str(),
            "h",
        )
    }
}

/// The same character so many times.
pub open spec fn repeated(c: char, n: int) -> Seq<char> {
    Seq::new(
        if n > 0 {
            n as nat
        } else {
            0
        },
        |i: int| c,
    )
}

/// A text with spaces behind it up to a width.
pub open spec fn padded(s: Seq<char>, width: int) -> Seq<char> {
    s + repeated(' ', width - s.len())
}

fn repeat_text(unit: &str, n: usize) -> (r: String)
    requires
        unit@.len() == 1,
    ensures
        r@ == repeated(unit@[0], n as int),
{
    let mut out = String::new();
    let mut i: usize = 0;
    assert(out@ =~= repeated(unit@[0], 0));
    while i < n
        invariant
            i <= n,
            unit@.len() == 1,
            out@ == repeated(unit@[0], i as int),
        decreases n - i,
    {
        out = out.concat(unit);
        assert(out@ =~= repeated(unit@[0], i + 1));
        i += 1;
    }
    out
}

fn pad(s: &str, width: usize) -> (r: String)
    ensures
        r@ == padded(s@, width as int),
{
    let n = s.unicode_len();
    proof {
        reveal_strlit(" ");
    }
    if n < width {
        cat2(s, repeat_text(" ", width - n).as_str())
    } else {
        assert(repeated(' ', width - s@.len()) =~= Seq::empty());
        assert(padded(s@, width as int) =~= s@);
        s.to_string()
    }
}

/// One line of the list of processes.
pub open spec fn row(
    name: Seq<char>,
    pid: Seq<char>,
    status: Seq<char>,
    mode: Seq<char>,
    port: Seq<char>,
    uptime: Seq<char>,
) -> Seq<char> {
    padded(name, 20) + " "@ + padded(pid, 8) + " "@ + padded(status, 10) + " "@ + padded(mode, 8)
        + " "@ + padded(port, 15) + " "@ + padded(uptime, 10) + "\n"@
}

fn row_text(
    name: &str,
    pid: &str,
    status: &str,
    mode: &str,
    port: &str,
    uptime: &str,
) -> (r: String)
    ensures
        r@ == row(name@, pid@, status@, mode@, port@, uptime@),
{
    let first = cat5(
        pad(name, 20).as_str(),
        " ",
        pad(pid, 8).as_str(),
        " ",
        pad(status, 10).as_str(),
    );
    let second = cat5(first.as_str(), " ", pad(mode, 8).as_str(), " ", pad(port, 15).as_str());
    cat4(second.as_str(), " ", pad(uptime, 10).as_str(), "\n")
}

// ---------------------------------------------------------------------------
// The list of processes
// ---------------------------------------------------------------------------

/// The name of a status.
pub open spec fn status_name(s: ProcessStatus) -> Seq<char> {
    match s {
        ProcessStatus::Running => "Running"@,
        ProcessStatus::Stopped => "Stopped"@,
        ProcessStatus::Errored => "Errored"@,
        ProcessStatus::Starting => "Starting"@,
    }
}

/// The name of a mode.
pub open spec fn mode_name(m: ProcessMode) -> Seq<char> {
    match m {
        ProcessMode::Bin => "Bin"@,
        ProcessMode::Run => "Run"@,
    }
}

/// The line of a process.
pub open spec fn process_row(p: ProcessInfoView) -> Seq<char> {
    row(
        p.name,
        match p.pid {
            Some(n) => decimal(n as nat),
            None => "-"@,
        },
        status_name(p.status),
        mode_name(p.mode),
        match p.port_mapping {
            Some(m) => mapping_text(m),
            None => "-"@,
        },
        match p.uptime_secs {
            Some(s) => uptime_text(s as nat),
            None => "-"@,
        },
    )
}

/// The lines of processes.
pub open spec fn process_rows(v: Seq<ProcessInfoView>) -> Seq<char>
    decreases v.len(),
{
    if v.len() == 0 {
        Seq::empty()
    } else {
        process_rows(v.drop_last()) + process_row(v.last())
    }
}

/// The list of processes as it is printed.
pub open spec fn process_table(v: Seq<ProcessInfoView>) -> Seq<char> {
    if v.len() == 0 {
        "no processes running\n"@
    } else {
        row("NAME"@, "PID"@, "STATUS"@, "MODE"@, "PORT"@, "UPTIME"@) + repeated('-', 75) + "\n"@
            + process_rows(v)
    }
}

fn process_line(p: &ProcessInfo) -> (r: String)
    ensures
        r@ == process_row(p@),
{
    let pid = match p.pid {
        Some(n) => number_text(n as u64),
        None => "-".to_string(),
    };
    let status = match p.status {
        ProcessStatus::Running => "Running",
        ProcessStatus::Stopped => "Stopped",
        ProcessStatus::Errored => "Errored",
        ProcessStatus::Starting => "Starting",
    };
    let mode = match p.mode {
        ProcessMode::Bin => "Bin",
        ProcessMode::Run => "Run",
    };
    let port = match &p.port_mapping {
        Some(m) => port_text(m),
        None => "-".to_string(),
    };
    let uptime = match p.uptime_secs {
        Some(s) => format_uptime(s),
        None => "-".to_string(),
    };
    row_text(p.name.as_str(), pid.as_str(), status, mode, port.as_str(), uptime.as_str())
}

/// The list of processes as it is printed.
pub fn print_process_list(procs: &Vec<ProcessInfo>) -> (r: String)
    ensures
        r@ == process_table(infos(procs@)),
{
    let ghost all = infos(procs@);
    assert(all.len() == procs@.len());
    if procs.len() == 0 {
        return "no processes running\n".to_string();
    }
    proof {
        reveal_strlit("-");
    }
    let head = row_text("NAME", "PID", "STATUS", "MODE", "PORT", "UPTIME");
    let top = cat3(head.as_str(), repeat_text("-", 75).as_str(), "\n");
    let mut out = String::new();
    let mut i: usize = 0;
    assert(all.take(0) =~= Seq::empty());
    assert(out@ =~= Seq::empty());
    while i < procs.len()
        invariant
            i <= procs@.len(),
            all == infos(procs@),
            out@ == process_rows(all.take(i as int)),
        decreases procs@.len() - i,
    {
        proof {
            assert(all.take(i + 1).drop_last() =~= all.take(i as int));
            assert(all.take(i + 1).last() == procs@[i as int]@);
        }
        let line = process_line(&procs[i]);
        out = out.concat(line.as_str());
        i += 1;
    }
    assert(all.take(i as int) =~= all);
    cat2(top.as_str(), out.as_str())
}

// ---------------------------------------------------------------------------
// Answers
// ---------------------------------------------------------------------------

/// What is printed, and where to.
#[derive(Debug, PartialEq, Eq)]
pub enum Printed {
    Stdout(String),
    Stderr(String),
    Nothing,
}

/// What is printed for an answer.
pub fn print_response(response: &Response) -> (r: Printed)
    ensures
        match (response@, r) {
            (ResponseView::Success(m), Printed::Stdout(t)) => t@ == m + "\n"@,
            (ResponseView::ProcessList(v), Printed::Stdout(t)) => t@ == process_table(v),
            (ResponseView::Logs(l), Printed::Stdout(t)) => t@ == l,
            (ResponseView::Error(e), Printed::Stderr(t)) => t@ == "error: "@ + e + "\n"@,
            (ResponseView::ConfigList(_), Printed::Nothing) => true,
            _ => false,
        },
{
    match response {
        Response::Success(m) => Printed::Stdout(cat2(m.as_str(), "\n")),
        Response::ProcessList(v) => Printed::Stdout(print_process_list(v)),
        Response::ConfigList(_) => Printed::Nothing,
        Response::Logs(l) => Printed::Stdout(l.clone()),
        Response::Error(e) => Printed::Stderr(cat3("error: ", e.as_str(), "\n")),
    }
}

/// A step of talking to the daemon.
#[derive(Clone, Copy, Debug, PartialEq, Eq, Structural)]
pub enum TalkStep {
    Connect,
    Send,
    Receive,
}

/// How a step that failed is reported.
pub fn talk_failure(step: TalkStep, e: &str) -> (r: String)
    ensures
        r@ == match step {
            TalkStep::Connect => "failed to connect to daemon: "@ + e@,
            TalkStep::Send => "failed to send request: "@ + e@,
            TalkStep::Receive => "failed to read response: "@ + e@,
        },
{
    match step {
        TalkStep::Connect => cat2("failed to connect to daemon: ", e),
        TalkStep::Send => cat2("failed to send request: ", e),
        TalkStep::Receive => cat2("failed to read response: ", e),
    }
}

// ---------------------------------------------------------------------------
// Laws
// ---------------------------------------------------------------------------

/// A time is told in its two largest units that count: seconds alone, minutes and seconds, hours
/// and minutes, or days and hours.
pub proof fn law_uptime_text(d: nat, h: nat, m: nat, s: nat)
    requires
        h < 24 && m < 60 && s < 60,
    ensures
        ({
            let text = uptime_text(d * 86400 + h * 3600 + m * 60 + s);
            &&& d > 0 ==> text == decimal(d) + "d "@ + decimal(h) + "h"@
            &&& d == 0 && h > 0 ==> text == decimal(h) + "h "@ + decimal(m) + "m"@
            &&& d == 0 && h == 0 && m > 0 ==> text == decimal(m) + "m "@ + decimal(s) + "s"@
            &&& d == 0 && h == 0 && m == 0 ==> text == decimal(s) + "s"@
        }),
{
    let t = d * 86400 + h * 3600 + m * 60 + s;
    assert(t / 86400 == d && t % 86400 == h * 3600 + m * 60 + s);
    assert((t % 86400) / 3600 == h);
    if d == 0 {
        assert(t / 3600 == h && t % 3600 == m * 60 + s && t % 3600 / 60 == m);
        if h == 0 {
            assert(t / 60 == m && t % 60 == s);
        }
    }
}

/// A text is filled up with blanks to the width of its column, and one that is longer is not cut.
pub proof fn law_padded(s: Seq<char>, width: int)
    ensures
        padded(s, width).len() == if s.len() < width {
            width
        } else {
            s.len() as int
        },
        forall|i: int| 0 <= i < s.len() ==> padded(s, width)[i] == s[i],
        forall|i: int| s.len() <= i < padded(s, width).len() ==> padded(s, width)[i] == ' ',
{
}

/// The line of a process: its name, number, state, mode, ports and time, each in its column; what
/// it has not is a dash.
pub proof fn law_process_row(p: ProcessInfoView)
    ensures
        process_row(p) == padded(p.name, 20) + " "@ + padded(
            match p.pid {
                Some(n) => decimal(n as nat),
                None => "-"@,
            },
            8,
        ) + " "@ + padded(
            match p.status {
                ProcessStatus::Running => "Running"@,
                ProcessStatus::Stopped => "Stopped"@,
                ProcessStatus::Errored => "Errored"@,
                ProcessStatus::Starting => "Starting"@,
            },
            10,
        ) + " "@ + padded(
            match p.mode {
                ProcessMode::Bin => "Bin"@,
                ProcessMode::Run => "Run"@,
            },
            8,
        ) + " "@ + padded(
            match p.port_mapping {
                Some(m) => mapping_text(m),
                None => "-"@,
            },
            15,
        ) + " "@ + padded(
            match p.uptime_secs {
                Some(s) => uptime_text(s as nat),
                None => "-"@,
            },
            10,
        ) + "\n"@,
{
}

/// The table has a line for each process, in order, under its head; without a process it is said
/// that there is none.
pub proof fn law_process_table(v: Seq<ProcessInfoView>, p: ProcessInfoView)
    ensures
        process_table(Seq::empty()) == "no processes running\n"@,
        v.len() > 0 ==> process_table(v.push(p)) == process_table(v) + process_row(p),
        process_table(seq![p]) == padded("NAME"@, 20) + " "@ + padded("PID"@, 8) + " "@ + padded(
            "STATUS"@,
            10,
        ) + " "@ + padded("MODE"@, 8) + " "@ + padded("PORT"@, 15) + " "@ + padded("UPTIME"@, 10)
            + "\n"@ + Seq::new(75, |i: int| '-') + "\n"@ + process_row(p),
{
    assert(v.push(p).drop_last() =~= v);
    let one = seq![p];
    assert(one.drop_last() =~= Seq::<ProcessInfoView>::empty());
    assert(process_rows(one.drop_last()) =~= Seq::<char>::empty());
    assert(process_rows(one) =~= process_row(p));
    assert(repeated('-', 75) =~= Seq::new(75, |i: int| '-'));
    if v.len() > 0 {
        assert(process_table(v.push(p)) =~= process_table(v) + process_row(p));
    }
}

} // verus!
