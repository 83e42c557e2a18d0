//! Process descriptions, the messages between client and daemon, and their framing.

use vstd::prelude::*;
use crate::text::{copy_opt, copy_texts, opt_text, same, texts};

verus! {

// ---------------------------------------------------------------------------
// Environment variables
// ---------------------------------------------------------------------------

/// The variables that a list of assignments sets; a later one wins.
pub open spec fn env_of(pairs: Seq<(String, String)>) -> Map<Seq<char>, Seq<char>>
    decreases pairs.len(),
{
    if pairs.len() == 0 {
        Map::empty()
    } else {
        env_of(pairs.drop_last()).insert(pairs.last().0@, pairs.last().1@)
    }
}

/// Whether no variable is assigned twice.
pub open spec fn distinct_keys(pairs: Seq<(String, String)>) -> bool {
    forall|i: int, j: int| 0 <= i < j < pairs.len() ==> pairs[i].0@ != pairs[j].0@
}

/// A variable that is about to be set may be dropped before.
proof fn lemma_env_without(pairs: Seq<(String, String)>, kept: Seq<(String, String)>, key: Seq<char>, n: int)
    requires
        0 <= n <= pairs.len(),
        kept == pairs.take(n).filter(|p: (String, String)| p.0@ != key),
    ensures
        env_of(kept).remove(key) == env_of(pairs.take(n)).remove(key),
        forall|i: int| 0 <= i < kept.len() ==> kept[i].0@ != key,
    decreases n,
{
    let keep = |p: (String, String)| p.0@ != key;
    reveal(Seq::filter);
    if n == 0 {
        assert(pairs.take(0) =~= Seq::empty());
        assert(kept =~= Seq::empty());
    } else {
        let front = pairs.take(n - 1);
        assert(pairs.take(n) =~= front.push(pairs[n - 1]));
        front.lemma_filter_push(pairs[n - 1], keep);
        lemma_env_without(pairs, front.filter(keep), key, n - 1);
        assert(pairs.take(n).drop_last() =~= front);
        if keep(pairs[n - 1]) {
            assert(kept =~= front.filter(keep).push(pairs[n - 1]));
            assert(kept.drop_last() =~= front.filter(keep));
            let (x, y) = (pairs[n - 1].0@, pairs[n - 1].1@);
            let a = env_of(front.filter(keep));
            let b = env_of(front);
            assert(a.insert(x, y).remove(key) =~= a.remove(key).insert(x, y));
            assert(b.insert(x, y).remove(key) =~= b.remove(key).insert(x, y));
        } else {
            assert(env_of(kept).remove(key) =~= env_of(pairs.take(n)).remove(key));
        }
    }
}

/// Sets one variable.
pub fn set_var(pairs: &mut Vec<(String, String)>, key: String, value: String)
    requires
        distinct_keys(old(pairs)@),
    ensures
        env_of(final(pairs)@) == env_of(old(pairs)@).insert(key@, value@),
        distinct_keys(final(pairs)@),
{
    let ghost all = pairs@;
    let ghost k = key@;
    let ghost keep = |p: (String, String)| p.0@ != k;
    let mut out: Vec<(String, String)> = Vec::new();
    let mut i: usize = 0;
    proof {
        reveal(Seq::filter);
        assert(all.take(0) =~= Seq::empty());
        assert(out@ =~= all.take(0).filter(keep));
    }
    while i < pairs.len()
        invariant
            pairs@ == all,
            i <= pairs.len(),
            distinct_keys(all),
            k == key@,
            keep == (|p: (String, String)| p.0@ != k),
            out@ == all.take(i as int).filter(keep),
            distinct_keys(out@),
            forall|j: int, k: int|
                #![trigger out@[j], all[k]]
                0 <= j < out@.len() && i <= k < all.len() ==> out@[j].0@ != all[k].0@,
        decreases pairs.len() - i,
    {
        proof {
            assert(all.take(i + 1) =~= all.take(i as int).push(all[i as int]));
            all.take(i as int).lemma_filter_push(all[i as int], keep);
        }
        if !same(pairs[i].0.as_str(), key.as_str()) {
            out.push((pairs[i].0.clone(), pairs[i].1.clone()));
        }
        i += 1;
    }
    proof {
        assert(all.take(i as int) =~= all);
        lemma_env_without(all, out@, k, all.len() as int);
    }
    let ghost kept = out@;
    let ghost v = value@;
    out.push((key, value));
    proof {
        assert(out@.drop_last() =~= kept);
        assert(env_of(out@) =~= env_of(kept).remove(k).insert(k, v));
        assert(env_of(out@) =~= env_of(all).insert(k, v));
    }
    *pairs = out;
}

/// A copy of a list of assignments.
pub fn copy_env(v: &Vec<(String, String)>) -> (r: Vec<(String, String)>)
    ensures
        r@ == v@,
{
    let mut out: Vec<(String, String)> = Vec::new();
    let mut i: usize = 0;
    while i < v.len()
        invariant
            i <= v.len(),
            out@ == v@.take(i as int),
        decreases v.len() - i,
    {
        out.push((v[i].0.clone(), v[i].1.clone()));
        assert(out@ =~= v@.take(i + 1));
        i += 1;
    }
    assert(v@.take(i as int) =~= v@);
    out
}

// ---------------------------------------------------------------------------
// Processes
// ---------------------------------------------------------------------------

/// How a process was started.
#[derive(Clone, Copy, Debug, PartialEq, Eq, Structural)]
pub enum ProcessMode {
    /// A process of its own.
    Bin,
    /// A process behind the proxy.
    Run,
}

/// Where the proxy listens for a process, and where the process listens.
#[derive(Debug, PartialEq, Eq)]
pub struct PortMapping {
    pub host: Option<String>,
    pub public_port: u16,
    pub app_port: Option<u16>,
}

/// The contents of a `PortMapping`.
#[verifier::ext_equal]
pub struct PortMappingView {
    pub host: Option<Seq<char>>,
    pub public_port: u16,
    pub app_port: Option<u16>,
}

impl View for PortMapping {
    type V = PortMappingView;

    open spec fn view(&self) -> PortMappingView {
        PortMappingView {
            host: opt_text(self.host),
            public_port: self.public_port,
            app_port: self.app_port,
        }
    }
}

impl PortMappingView {
    /// The port on which the process listens.
    pub open spec fn upstream(self) -> u16 {
        match self.app_port {
            Some(p) => p,
            None => self.public_port,
        }
    }
}

impl Clone for PortMapping {
    fn clone(&self) -> (r: Self)
        ensures
            r@ == self@,
    {
        PortMapping {
            host: copy_opt(&self.host),
            public_port: self.public_port,
            app_port: self.app_port,
        }
    }
}

impl PortMapping {
    /// The port on which the process listens.
    pub fn upstream_port(&self) -> (r: u16)
        ensures
            r == self@.upstream(),
    {
        match self.app_port {
            Some(p) => p,
            None => self.public_port,
        }
    }
}

/// The files of a certificate that the user supplies.
#[derive(Debug, PartialEq, Eq)]
pub struct SslConfig {
    pub cert_path: String,
    pub key_path: String,
}

/// The contents of an `SslConfig`.
#[verifier::ext_equal]
pub struct SslConfigView {
    pub cert_path: Seq<char>,
    pub key_path: Seq<char>,
}

impl View for SslConfig {
    type V = SslConfigView;

    open spec fn view(&self) -> SslConfigView {
        SslConfigView { cert_path: self.cert_path@, key_path: self.key_path@ }
    }
}

impl Clone for SslConfig {
    fn clone(&self) -> (r: Self)
        ensures
            r@ == self@,
    {
        SslConfig { cert_path: self.cert_path.clone(), key_path: self.key_path.clone() }
    }
}

/// The contents of an optional `PortMapping`.
pub open spec fn opt_mapping(o: Option<PortMapping>) -> Option<PortMappingView> {
    match o {
        Some(m) => Some(m@),
        None => None,
    }
}

/// The contents of an optional `SslConfig`.
pub open spec fn opt_ssl(o: Option<SslConfig>) -> Option<SslConfigView> {
    match o {
        Some(s) => Some(s@),
        None => None,
    }
}

/// A copy of an optional `PortMapping`.
pub fn copy_mapping(o: &Option<PortMapping>) -> (r: Option<PortMapping>)
    ensures
        opt_mapping(r) == opt_mapping(*o),
{
    match o {
        Some(m) => Some(m.clone()),
        None => None,
    }
}

/// A copy of an optional `SslConfig`.
pub fn copy_ssl(o: &Option<SslConfig>) -> (r: Option<SslConfig>)
    ensures
        opt_ssl(r) == opt_ssl(*o),
{
    match o {
        Some(s) => Some(s.clone()),
        None => None,
    }
}

/// Everything that is needed to start a process and to put it behind the proxy.
#[derive(Debug, PartialEq, Eq)]
pub struct ProcessConfig {
    pub name: String,
    pub path: String,
    pub args: Vec<String>,
    /// Assignments of environment variables; a later one wins.
    pub env_vars: Vec<(String, String)>,
    pub env_file: Option<String>,
    pub mode: ProcessMode,
    pub port_mapping: Option<PortMapping>,
    pub spa: bool,
    pub ssl: Option<SslConfig>,
    pub acme: Option<String>,
    pub deny: Vec<String>,
    pub allow: Vec<String>,
    pub is_oci: bool,
    pub oci_reference: Option<String>,
    pub pid_file: Option<String>,
}

/// The contents of a `ProcessConfig`.
#[verifier::ext_equal]
pub struct ProcessConfigView {
    pub name: Seq<char>,
    pub path: Seq<char>,
    pub args: Seq<Seq<char>>,
    pub env_vars: Map<Seq<char>, Seq<char>>,
    pub env_file: Option<Seq<char>>,
    pub mode: ProcessMode,
    pub port_mapping: Option<PortMappingView>,
    pub spa: bool,
    pub ssl: Option<SslConfigView>,
    pub acme: Option<Seq<char>>,
    pub deny: Seq<Seq<char>>,
    pub allow: Seq<Seq<char>>,
    pub is_oci: bool,
    pub oci_reference: Option<Seq<char>>,
    pub pid_file: Option<Seq<char>>,
}

impl View for ProcessConfig {
    type V = ProcessConfigView;

    open spec fn view(&self) -> ProcessConfigView {
        ProcessConfigView {
            name: self.name@,
            path: self.path@,
            args: texts(self.args@),
            env_vars: env_of(self.env_vars@),
            env_file: opt_text(self.env_file),
            mode: self.mode,
            port_mapping: opt_mapping(self.port_mapping),
            spa: self.spa,
            ssl: opt_ssl(self.ssl),
            acme: opt_text(self.acme),
            deny: texts(self.deny@),
            allow: texts(self.allow@),
            is_oci: self.is_oci,
            oci_reference: opt_text(self.oci_reference),
            pid_file: opt_text(self.pid_file),
        }
    }
}

impl Clone for ProcessConfig {
    fn clone(&self) -> (r: Self)
        ensures
            r@ == self@,
    {
        ProcessConfig {
            name: self.name.clone(),
            path: self.path.clone(),
            args: copy_texts(&self.args),
            env_vars: copy_env(&self.env_vars),
            env_file: copy_opt(&self.env_file),
            mode: self.mode,
            port_mapping: copy_mapping(&self.port_mapping),
            spa: self.spa,
            ssl: copy_ssl(&self.ssl),
            acme: copy_opt(&self.acme),
            deny: copy_texts(&self.deny),
            allow: copy_texts(&self.allow),
            is_oci: self.is_oci,
            oci_reference: copy_opt(&self.oci_reference),
            pid_file: copy_opt(&self.pid_file),
        }
    }
}

/// Whether a process runs.
#[derive(Clone, Copy, Debug, PartialEq, Eq, Structural)]
pub enum ProcessStatus {
    Running,
    Stopped,
    Errored,
    Starting,
}

/// A point in time: seconds since the Unix epoch and nanoseconds into the second.
#[derive(Clone, Copy, Debug, PartialEq, Eq, Structural)]
pub struct Timestamp {
    pub secs: i64,
    pub nanos: u32,
}

impl Timestamp {
    /// The nanoseconds since the Unix epoch.
    pub open spec fn total(self) -> int {
        self.secs * 1_000_000_000 + self.nanos
    }
}

/// What a listing says of a process.
#[derive(Debug, PartialEq, Eq)]
pub struct ProcessInfo {
    pub name: String,
    pub pid: Option<u32>,
    pub status: ProcessStatus,
    pub mode: ProcessMode,
    pub path: String,
    pub port_mapping: Option<PortMapping>,
    pub started_at: Option<Timestamp>,
    pub restart_count: u32,
    pub uptime_secs: Option<u64>,
}

/// The contents of a `ProcessInfo`.
#[verifier::ext_equal]
pub struct ProcessInfoView {
    pub name: Seq<char>,
    pub pid: Option<u32>,
    pub status: ProcessStatus,
    pub mode: ProcessMode,
    pub path: Seq<char>,
    pub port_mapping: Option<PortMappingView>,
    pub started_at: Option<Timestamp>,
    pub restart_count: u32,
    pub uptime_secs: Option<u64>,
}

impl View for ProcessInfo {
    type V = ProcessInfoView;

    open spec fn view(&self) -> ProcessInfoView {
        ProcessInfoView {
            name: self.name@,
            pid: self.pid,
            status: self.status,
            mode: self.mode,
            path: self.path@,
            port_mapping: opt_mapping(self.port_mapping),
            started_at: self.started_at,
            restart_count: self.restart_count,
            uptime_secs: self.uptime_secs,
        }
    }
}

// ---------------------------------------------------------------------------
// Messages
// ---------------------------------------------------------------------------

/// What a client asks of the daemon.
#[allow(inconsistent_fields)]
#[derive(Debug, PartialEq, Eq)]
pub enum Request {
    Bin { config: ProcessConfig },
    Run { config: ProcessConfig },
    Ls,
    Del { name: String },
    Restart { name: String },
    Reload { name: String },
    Update {
        name: String,
        port: Option<String>,
        ssl: Option<Vec<String>>,
        acme: Option<String>,
        env_file: Option<String>,
        args: Option<String>,
        image: Option<String>,
    },
    Logs { name: String, lines: usize },
    SetKey { key: String, value: String },
    Export,
    Save,
    Kill,
    MetricsEnable { port: u16 },
    MetricsDisable,
    Link { api_key: String },
    Unlink,
}

/// The contents of a `Request`.
#[verifier::ext_equal]
pub enum RequestView {
    Bin(ProcessConfigView),
    Run(ProcessConfigView),
    Ls,
    Del(Seq<char>),
    Restart(Seq<char>),
    Reload(Seq<char>),
    Update(UpdateView),
    Logs(Seq<char>, usize),
    SetKey(Seq<char>, Seq<char>),
    Export,
    Save,
    Kill,
    MetricsEnable(u16),
    MetricsDisable,
    Link(Seq<char>),
    Unlink,
}

/// The contents of a request to update a process.
#[verifier::ext_equal]
pub struct UpdateView {
    pub name: Seq<char>,
    pub port: Option<Seq<char>>,
    pub ssl: Option<Seq<Seq<char>>>,
    pub acme: Option<Seq<char>>,
    pub env_file: Option<Seq<char>>,
    pub args: Option<Seq<char>>,
    pub image: Option<Seq<char>>,
}

/// The contents of an optional list of strings.
pub open spec fn opt_texts(o: Option<Vec<String>>) -> Option<Seq<Seq<char>>> {
    match o {
        Some(v) => Some(texts(v@)),
        None => None,
    }
}

impl View for Request {
    type V = RequestView;

    open spec fn view(&self) -> RequestView {
        match *self {
            Request::Bin { config } => RequestView::Bin(config@),
            Request::Run { config } => RequestView::Run(config@),
            Request::Ls => RequestView::Ls,
            Request::Del { name } => RequestView::Del(name@),
            Request::Restart { name } => RequestView::Restart(name@),
            Request::Reload { name } => RequestView::Reload(name@),
            Request::Update { name, port, ssl, acme, env_file, args, image } => RequestView::Update(
                UpdateView {
                    name: name@,
                    port: opt_text(port),
                    ssl: opt_texts(ssl),
                    acme: opt_text(acme),
                    env_file: opt_text(env_file),
                    args: opt_text(args),
                    image: opt_text(image),
                },
            ),
            Request::Logs { name, lines } => RequestView::Logs(name@, lines),
            Request::SetKey { key, value } => RequestView::SetKey(key@, value@),
            Request::Export => RequestView::Export,
            Request::Save => RequestView::Save,
            Request::Kill => RequestView::Kill,
            Request::MetricsEnable { port } => RequestView::MetricsEnable(port),
            Request::MetricsDisable => RequestView::MetricsDisable,
            Request::Link { api_key } => RequestView::Link(api_key@),
            Request::Unlink => RequestView::Unlink,
        }
    }
}

/// What the daemon answers.
#[derive(Debug, PartialEq, Eq)]
pub enum Response {
    Success(String),
    ProcessList(Vec<ProcessInfo>),
    ConfigList(Vec<ProcessConfig>),
    Logs(String),
    Error(String),
}

/// The contents of a `Response`.
#[verifier::ext_equal]
pub enum ResponseView {
    Success(Seq<char>),
    ProcessList(Seq<ProcessInfoView>),
    ConfigList(Seq<ProcessConfigView>),
    Logs(Seq<char>),
    Error(Seq<char>),
}

/// The contents of a list of process descriptions.
pub open spec fn infos(v: Seq<ProcessInfo>) -> Seq<ProcessInfoView> {
    v.map_values(|p: ProcessInfo| p@)
}

/// The contents of a list of process configurations.
pub open spec fn configs(v: Seq<ProcessConfig>) -> Seq<ProcessConfigView> {
    v.map_values(|c: ProcessConfig| c@)
}

impl View for Response {
    type V = ResponseView;

    open spec fn view(&self) -> ResponseView {
        match *self {
            Response::Success(s) => ResponseView::Success(s@),
            Response::ProcessList(v) => ResponseView::ProcessList(infos(v@)),
            Response::ConfigList(v) => ResponseView::ConfigList(configs(v@)),
            Response::Logs(s) => ResponseView::Logs(s@),
            Response::Error(s) => ResponseView::Error(s@),
        }
    }
}

// ---------------------------------------------------------------------------
// Framing: a length of four bytes, most significant first, and the message
// ---------------------------------------------------------------------------

/// The longest message that a reader accepts, in bytes.
pub const MAX_MESSAGE: usize = 10485760;

/// The four bytes of a length, most significant first.
pub open spec fn length_bytes(n: int) -> Seq<u8> {
    seq![
        (n / 0x1000000 % 0x100) as u8,
        (n / 0x10000 % 0x100) as u8,
        (n / 0x100 % 0x100) as u8,
        (n % 0x100) as u8,
    ]
}

/// The length that the first four bytes spell.
pub open spec fn length_of(b: Seq<u8>) -> int {
    b[0] * 0x1000000 + b[1] * 0x10000 + b[2] * 0x100 + b[3]
}

/// A message with its length in front; the length counts modulo two to the 32nd.
pub open spec fn framed(data: Seq<u8>) -> Seq<u8> {
    length_bytes(data.len() as int % 0x1_0000_0000) + data
}

/// Why no message could be read.
#[derive(Clone, Copy, Debug, PartialEq, Eq, Structural)]
pub enum FrameError {
    /// The bytes end before the message does.
    UnexpectedEof,
    /// The length is over the limit.
    TooLarge,
}

/// What a reader makes of a stream of bytes.
pub open spec fn unframed(b: Seq<u8>) -> Result<Seq<u8>, FrameError> {
    if b.len() < 4 {
        Err(FrameError::UnexpectedEof)
    } else if length_of(b) > MAX_MESSAGE {
        Err(FrameError::TooLarge)
    } else if b.len() < 4 + length_of(b) {
        Err(FrameError::UnexpectedEof)
    } else {
        Ok(b.subrange(4, 4 + length_of(b)))
    }
}

/// Frames a serialised message for writing.
pub fn write_message(data: &Vec<u8>) -> (r: Vec<u8>)
    ensures
        r@ == framed(data@),
{
    let n: u64 = data.len() as u64 % 0x1_0000_0000;
    let mut out: Vec<u8> = Vec::new();
    out.push((n / 0x1000000 % 0x100) as u8);
    out.push((n / 0x10000 % 0x100) as u8);
    out.push((n / 0x100 % 0x100) as u8);
    out.push((n % 0x100) as u8);
    let mut i: usize = 0;
    assert(out@ =~= length_bytes(n as int));
    assert(data@.take(0) =~= Seq::empty());
    while i < data.len()
        invariant
            i <= data.len(),
            out@ == length_bytes(n as int) + data@.take(i as int),
        decreases data.len() - i,
    {
        out.push(data[i]);
        assert(out@ =~= length_bytes(n as int) + data@.take(i + 1));
        i += 1;
    }
    assert(data@.take(i as int) =~= data@);
    out
}

/// The number of bytes that follow a header of four bytes.
pub fn message_len(header: &Vec<u8>) -> (r: Result<usize, FrameError>)
    requires
        header@.len() == 4,
    ensures
        match r {
            Ok(n) => n == length_of(header@) && n <= MAX_MESSAGE,
            Err(e) => e == FrameError::TooLarge && length_of(header@) > MAX_MESSAGE,
        },
{
    let n: u64 = header[0] as u64 * 0x1000000 + header[1] as u64 * 0x10000 + header[2] as u64
        * 0x100 + header[3] as u64;
    if n > MAX_MESSAGE as u64 {
        Err(FrameError::TooLarge)
    } else {
        Ok(n as usize)
    }
}

/// Reads the first message of a stream of bytes.
pub fn read_message(stream: &Vec<u8>) -> (r: Result<Vec<u8>, FrameError>)
    ensures
        match r {
            Ok(m) => unframed(stream@) == Ok::<Seq<u8>, FrameError>(m@),
            Err(e) => unframed(stream@) == Err::<Seq<u8>, FrameError>(e),
        },
{
    if stream.len() < 4 {
        return Err(FrameError::UnexpectedEof);
    }
    let mut header: Vec<u8> = Vec::new();
    header.push(stream[0]);
    header.push(stream[1]);
    header.push(stream[2]);
    header.push(stream[3]);
    assert(length_of(header@) == length_of(stream@));
    let n: usize = match message_len(&header) {
        Ok(n) => n,
        Err(e) => {
            return Err(e);
        },
    };
    if stream.len() - 4 < n {
        return Err(FrameError::UnexpectedEof);
    }
    let mut out: Vec<u8> = Vec::new();
    let mut i: usize = 0;
    while i < n
        invariant
            i <= n,
            4 + n <= stream@.len(),
            stream@.len() <= usize::MAX,
            out@ == stream@.subrange(4, 4 + i),
        decreases n - i,
    {
        out.push(stream[4 + i]);
        assert(out@ =~= stream@.subrange(4, 4 + i + 1));
        i += 1;
    }
    Ok(out)
}

/// What an accepted message was written as is read back, whatever follows it.
pub proof fn law_read_write(data: Seq<u8>, rest: Seq<u8>)
    requires
        data.len() <= MAX_MESSAGE,
    ensures
        unframed(framed(data) + rest) == Ok::<Seq<u8>, FrameError>(data),
{
    let b = framed(data) + rest;
    lemma_length_bytes(data.len() as int);
    assert(length_of(b) == data.len());
    assert(b.subrange(4, data.len() + 4int) =~= data);
}

/// A message over the limit is refused, as long as its length fits in four bytes.
pub proof fn law_too_large(data: Seq<u8>, rest: Seq<u8>)
    requires
        MAX_MESSAGE < data.len() < 0x1_0000_0000,
    ensures
        unframed(framed(data) + rest) == Err::<Seq<u8>, FrameError>(FrameError::TooLarge),
{
    let b = framed(data) + rest;
    lemma_length_bytes(data.len() as int);
    assert(length_of(b) == data.len());
}

/// The bytes of a length spell it.
proof fn lemma_length_bytes(n: int)
    requires
        0 <= n < 0x1_0000_0000,
    ensures
        length_of(length_bytes(n)) == n,
{
    assert(n == n / 0x1000000 % 0x100 * 0x1000000 + n / 0x10000 % 0x100 * 0x10000 + n / 0x100
        % 0x100 * 0x100 + n % 0x100);
}

/// A message is sent as the four bytes of its length, the most significant first, and then its
/// bytes.
pub proof fn law_frame(data: Seq<u8>)
    requires
        data.len() < 0x1_0000_0000,
    ensures
        framed(data).len() == data.len() + 4,
        framed(data).skip(4) == data,
        framed(data)[0] * 16777216 + framed(data)[1] * 65536 + framed(data)[2] * 256 + framed(
            data,
        )[3] == data.len(),
{
    let n: int = data.len() as int;
    assert(framed(data).skip(4) =~= data);
    assert(n % 0x1_0000_0000 == n);
    assert(n / 0x1000000 % 0x100 == n / 0x1000000);
}

/// A stream that ends before a message does gives none, and neither does one whose length is over
/// ten megabytes.
pub proof fn law_short_stream(data: Seq<u8>, k: int)
    requires
        0 <= k < data.len() + 4,
        data.len() < 0x1_0000_0000,
    ensures
        data.len() <= 10485760 || k < 4 ==> unframed(framed(data).take(k)) == Err::<Seq<u8>, _>(
            FrameError::UnexpectedEof,
        ),
        data.len() > 10485760 && k >= 4 ==> unframed(framed(data).take(k)) == Err::<Seq<u8>, _>(
            FrameError::TooLarge,
        ),
{
    law_frame(data);
    let b = framed(data).take(k);
    if k >= 4 {
        assert(b[0] == framed(data)[0] && b[1] == framed(data)[1] && b[2] == framed(data)[2] && b[3]
            == framed(data)[3]);
        assert(length_of(b) == data.len());
    }
}

/// Requests go on to the port of the program, and without one to the public port.
pub proof fn law_upstream(m: PortMappingView)
    ensures
        m.app_port matches Some(p) ==> m.upstream() == p,
        m.app_port is None ==> m.upstream() == m.public_port,
{
}

/// Of two values for a variable the later one counts; the other variables stay.
pub proof fn law_env_pairs(pairs: Seq<(String, String)>, last: (String, String), k: Seq<char>)
    ensures
        env_of(Seq::empty()) == Map::<Seq<char>, Seq<char>>::empty(),
        env_of(pairs.push(last)).contains_key(last.0@),
        env_of(pairs.push(last))[last.0@] == last.1@,
        k != last.0@ ==> (env_of(pairs.push(last)).contains_key(k) <==> env_of(pairs).contains_key(
            k,
        )),
        k != last.0@ && env_of(pairs).contains_key(k) ==> env_of(pairs.push(last))[k] == env_of(
            pairs,
        )[k],
{
    assert(pairs.push(last).drop_last() =~= pairs);
}

} // verus!
