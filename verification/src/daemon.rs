//! The files of the daemon, its pace, and the unit of its system service.

use vstd::prelude::*;
use crate::path::{
    components, dot_dot, inside, is_absolute, is_inside, join, joined, law_join_inside,
    lemma_end_slash, lemma_no_way_back, parent, parent_of, stays_within,
};
use crate::process::NYRUN_DIR;
use crate::protocol::{configs, ProcessConfig, ProcessConfigView};
use crate::server::SOCK_PATH;
use crate::text::{cat2, cat3, ends_with, occurs_at, opt_text, same, texts};

verus! {

/// The file that holds the number of the daemon's process.
pub const PID_PATH: &'static str = "/var/run/nyrun/nyrun.pid";

/// The seconds between two looks at the processes.
pub const CHECK_SECS: u64 = 2;

/// After how many looks the logs are looked at.
pub const ROTATE_TICKS: u64 = 30;

/// Where the unit of the system service goes.
pub const UNIT_PATH: &'static str = "/etc/systemd/system/nyrun.service";

// ---------------------------------------------------------------------------
// Directories and pace
// ---------------------------------------------------------------------------

/// The directories that the daemon needs.
pub open spec fn needed_dirs() -> Seq<Seq<char>> {
    seq![
        NYRUN_DIR@,
        NYRUN_DIR@ + "/"@ + "logs"@,
        NYRUN_DIR@ + "/"@ + "certs"@,
        NYRUN_DIR@ + "/"@ + "oci"@,
        NYRUN_DIR@ + "/"@ + "state"@,
    ]
}

/// The directories that the daemon needs.
pub fn ensure_dirs() -> (r: Vec<String>)
    ensures
        texts(r@) == needed_dirs(),
{
    let mut out: Vec<String> = Vec::new();
    out.push(NYRUN_DIR.to_string());
    out.push(cat3(NYRUN_DIR, "/", "logs"));
    out.push(cat3(NYRUN_DIR, "/", "certs"));
    out.push(cat3(NYRUN_DIR, "/", "oci"));
    out.push(cat3(NYRUN_DIR, "/", "state"));
    assert(texts(out@) =~= needed_dirs());
    out
}

/// The files that a daemon leaves behind.
pub fn cleanup() -> (r: Vec<String>)
    ensures
        texts(r@) == seq![SOCK_PATH@, PID_PATH@],
{
    let mut out: Vec<String> = Vec::new();
    out.push(SOCK_PATH.to_string());
    out.push(PID_PATH.to_string());
    assert(texts(out@) =~= seq![SOCK_PATH@, PID_PATH@]);
    out
}

/// The next look at the processes, and whether the logs are looked at too.
pub fn next_tick(tick: u64) -> (r: (u64, bool))
    requires
        tick < u64::MAX,
    ensures
        r.0 == tick + 1,
        r.1 == ((tick + 1) % (ROTATE_TICKS as int) == 0),
        r.1 <==> (tick + 1) % 30 == 0,
{
    let t = tick + 1;
    (t, t % ROTATE_TICKS == 0)
}

// ---------------------------------------------------------------------------
// The system service
// ---------------------------------------------------------------------------

/// The unit of the system service that runs a program as the daemon.
pub open spec fn unit_of(exe: Seq<char>) -> Seq<char> {
    "[Unit]\nDescription=nyrun process manager\nAfter=network.target\n\n[Service]\nType=forking\nExecStart="@
        + exe
        + " daemon\nPIDFile=/var/run/nyrun/nyrun.pid\nExecReload=/bin/kill -HUP $MAINPID\nRestart=on-failure\nRestartSec=5\n\n[Install]\nWantedBy=multi-user.target\n"@
}

/// The unit of the system service that runs a program as the daemon.
pub fn generate_systemd_unit(exe: &str) -> (r: String)
    ensures
        r@ == unit_of(exe@),
{
    cat3(
        "[Unit]\nDescription=nyrun process manager\nAfter=network.target\n\n[Service]\nType=forking\nExecStart=",
        exe,
        " daemon\nPIDFile=/var/run/nyrun/nyrun.pid\nExecReload=/bin/kill -HUP $MAINPID\nRestart=on-failure\nRestartSec=5\n\n[Install]\nWantedBy=multi-user.target\n",
    )
}

// ---------------------------------------------------------------------------
// Backups
// ---------------------------------------------------------------------------

/// The file that a backup goes to.
pub open spec fn backup_file(name: Seq<char>) -> Seq<char> {
    if ".zip"@.is_suffix_of(name) {
        name
    } else {
        name + ".zip"@
    }
}

/// The file that a backup goes to.
pub fn create_backup(output_name: &str) -> (r: String)
    ensures
        r@ == backup_file(output_name@),
{
    if ends_with(output_name, ".zip") {
        output_name.to_string()
    } else {
        cat2(output_name, ".zip")
    }
}

/// The path of something in a directory, both seen from the directory of the daemon.
pub open spec fn child_of(dir: Seq<char>, name: Seq<char>) -> Seq<char> {
    if dir.len() == 0 {
        name
    } else {
        dir + "/"@ + name
    }
}

/// What is done with something that a backup comes across.
#[derive(Debug, PartialEq, Eq)]
pub enum BackupEntry {
    /// It is a directory: the archive gets it under this name, and its contents.
    Directory(String),
    /// It is a file: the archive gets it under this name.
    File(String),
    /// It stays out: it belongs to the running daemon.
    Skip,
}

/// The contents of a `BackupEntry`.
#[verifier::ext_equal]
pub enum BackupEntryView {
    Directory(Seq<char>),
    File(Seq<char>),
    Skip,
}

impl View for BackupEntry {
    type V = BackupEntryView;

    open spec fn view(&self) -> BackupEntryView {
        match *self {
            BackupEntry::Directory(n) => BackupEntryView::Directory(n@),
            BackupEntry::File(n) => BackupEntryView::File(n@),
            BackupEntry::Skip => BackupEntryView::Skip,
        }
    }
}

/// What is done with something that a backup comes across.
pub open spec fn backup_plan(dir: Seq<char>, name: Seq<char>, is_dir: bool) -> BackupEntryView {
    if is_dir {
        BackupEntryView::Directory(child_of(dir, name) + "/"@)
    } else if ".sock"@.is_suffix_of(name) || ".pid"@.is_suffix_of(name) {
        BackupEntryView::Skip
    } else {
        BackupEntryView::File(child_of(dir, name))
    }
}

/// The path of something in a directory, both seen from the directory of the daemon.
pub fn child_path(dir: &str, name: &str) -> (r: String)
    ensures
        r@ == child_of(dir@, name@),
{
    if same(dir, "") {
        proof {
            reveal_strlit("");
        }
        name.to_string()
    } else {
        proof {
            reveal_strlit("");
            if dir@.len() == 0 {
                assert(dir@ =~= ""@);
            }
        }
        cat3(dir, "/", name)
    }
}

/// What is done with something that a backup comes across. `dir` is the directory that it
/// is in, seen from the directory of the daemon.
pub fn backup_entry(dir: &str, name: &str, is_dir: bool) -> (r: BackupEntry)
    ensures
        r@ == backup_plan(dir@, name@, is_dir),
{
    let path = child_path(dir, name);
    if is_dir {
        BackupEntry::Directory(cat2(path.as_str(), "/"))
    } else if ends_with(name, ".sock") || ends_with(name, ".pid") {
        BackupEntry::Skip
    } else {
        BackupEntry::File(path)
    }
}

/// Where an entry of an archive goes, or why the archive is refused.
pub open spec fn restored(name: Seq<char>) -> Result<Seq<char>, Seq<char>> {
    let path = joined(NYRUN_DIR@, name);
    if is_inside(path, NYRUN_DIR@) {
        Ok(path)
    } else {
        Err("path traversal detected in zip: "@ + name)
    }
}

/// Where an entry of an archive goes, or why the archive is refused.
pub fn restore_backup(name: &str) -> (r: Result<String, String>)
    ensures
        match (r, restored(name@)) {
            (Ok(p), Ok(v)) => p@ == v,
            (Err(e), Err(v)) => e@ == v,
            _ => false,
        },
{
    let path = join(NYRUN_DIR, name);
    if inside(path.as_str(), NYRUN_DIR) {
        Ok(path)
    } else {
        Err(cat2("path traversal detected in zip: ", name))
    }
}

/// The directory that an entry needs.
pub fn restore_parent(path: &str) -> (r: Option<String>)
    ensures
        opt_text(r) == parent_of(path@),
{
    parent(path)
}

/// Nothing is restored outside of the directory of the daemon: an entry with a relative
/// name goes there, unless it leads out of it, and one with an absolute name only where it
/// lies there.
pub proof fn law_restored_inside(name: Seq<char>)
    ensures
        restored(name) matches Ok(p) ==> is_inside(p, NYRUN_DIR@),
        !is_absolute(name) && stays_within(components(name)) ==> restored(name) == Ok::<
            _,
            Seq<char>,
        >(joined(NYRUN_DIR@, name)),
        !is_absolute(name) && !stays_within(components(name)) ==> restored(name) is Err,
        is_absolute(name) ==> (restored(name) is Ok <==> is_inside(name, NYRUN_DIR@)),
{
    if !is_absolute(name) {
        law_join_inside(NYRUN_DIR@, name);
    }
}

/// Something in the directory of the daemon: the directory that it is in, seen from there,
/// its name and what it holds; a directory holds nothing of its own.
#[verifier::ext_equal]
pub struct BackupItem {
    pub dir: Seq<char>,
    pub name: Seq<char>,
    pub content: Option<Seq<u8>>,
}

impl BackupItem {
    /// Its path, seen from the directory of the daemon.
    pub open spec fn path(self) -> Seq<char> {
        child_of(self.dir, self.name)
    }

    /// Where it lies, component by component.
    pub open spec fn place(self) -> Seq<Seq<char>> {
        components(joined(NYRUN_DIR@, self.path()))
    }

    /// Its path is relative and leads nowhere else.
    pub open spec fn valid(self) -> bool {
        !is_absolute(self.path()) && !components(self.path()).contains(dot_dot()) && self.path().len()
            > 0
    }

    /// What the archive gets of it: a name and what it holds.
    pub open spec fn entry(self) -> Option<(Seq<char>, Option<Seq<u8>>)> {
        match backup_plan(self.dir, self.name, self.content is None) {
            BackupEntryView::Directory(n) => Some((n, None)),
            BackupEntryView::File(n) => Some((n, self.content)),
            BackupEntryView::Skip => None,
        }
    }

    /// Whether it is a file that is kept.
    pub open spec fn is_kept_file(self) -> bool {
        self.content is Some && self.entry() is Some
    }
}

/// The archive of a directory, from all that lies in it.
pub open spec fn archive_of(items: Seq<BackupItem>) -> Seq<(Seq<char>, Option<Seq<u8>>)>
    decreases items.len(),
{
    if items.len() == 0 {
        Seq::empty()
    } else {
        match items.last().entry() {
            Some(e) => archive_of(items.drop_last()).push(e),
            None => archive_of(items.drop_last()),
        }
    }
}

/// Directories and files by the components of their paths.
#[verifier::ext_equal]
pub struct Tree {
    pub dirs: Set<Seq<Seq<char>>>,
    pub files: Map<Seq<Seq<char>>, Seq<u8>>,
}

/// What restoring an archive to an empty directory gives; nothing where it is refused.
pub open spec fn unpacked(entries: Seq<(Seq<char>, Option<Seq<u8>>)>) -> Option<Tree>
    decreases entries.len(),
{
    if entries.len() == 0 {
        Some(Tree { dirs: Set::empty(), files: Map::empty() })
    } else {
        match (unpacked(entries.drop_last()), restored(entries.last().0)) {
            (Some(t), Ok(p)) => match entries.last().1 {
                None => Some(Tree { dirs: t.dirs.insert(components(p)), ..t }),
                Some(b) => Some(
                    Tree {
                        dirs: t.dirs.insert(components(p).drop_last()),
                        files: t.files.insert(components(p), b),
                    },
                ),
            },
            _ => None,
        }
    }
}

/// A backup that is restored gives back every directory, and every file with what it held,
/// but for those that belong to the running daemon, and no other file.
pub proof fn law_backup_restore(items: Seq<BackupItem>)
    requires
        forall|i: int| 0 <= i < items.len() ==> (#[trigger] items[i]).valid(),
        forall|i: int, j: int|
            #![trigger items[i], items[j]]
            0 <= i < j < items.len() && items[i].content is Some && items[j].content is Some
                ==> items[i].place() != items[j].place(),
    ensures
        unpacked(archive_of(items)) matches Some(t) && {
            &&& forall|i: int|
                #![trigger items[i]]
                0 <= i < items.len() && items[i].content is None ==> t.dirs.contains(
                    items[i].place(),
                )
            &&& forall|i: int|
                #![trigger items[i]]
                0 <= i < items.len() && items[i].is_kept_file() ==> t.files.contains_key(
                    items[i].place(),
                ) && t.files[items[i].place()] == items[i].content->Some_0
            &&& forall|k: Seq<Seq<char>>| #[trigger]
                t.files.contains_key(k) ==> exists|i: int|
                    0 <= i < items.len() && (#[trigger] items[i]).is_kept_file()
                        && items[i].place() == k
        },
    decreases items.len(),
{
    if items.len() > 0 {
        let front = items.drop_last();
        let last = items.last();
        assert forall|i: int| 0 <= i < front.len() implies (#[trigger] front[i]).valid() by {
            assert(front[i] == items[i]);
        }
        assert forall|i: int, j: int|
            #![trigger front[i], front[j]]
            0 <= i < j < front.len() && front[i].content is Some && front[j].content is Some
            implies front[i].place() != front[j].place() by {
            assert(front[i] == items[i] && front[j] == items[j]);
        }
        law_backup_restore(front);
        assert(items[items.len() - 1] == last);
        assert(last.valid());
        lemma_entry_restored(last);
        let old_tree = unpacked(archive_of(front))->Some_0;
        if last.entry() is Some {
            assert(archive_of(items).drop_last() =~= archive_of(front));
        }
        let t = unpacked(archive_of(items))->Some_0;
        assert forall|i: int|
            #![trigger items[i]]
            0 <= i < items.len() && items[i].content is None implies t.dirs.contains(
            items[i].place(),
        ) by {
            if i < front.len() {
                assert(front[i] == items[i]);
            }
        }
        assert forall|i: int|
            #![trigger items[i]]
            0 <= i < items.len() && items[i].is_kept_file() implies t.files.contains_key(
            items[i].place(),
        ) && t.files[items[i].place()] == items[i].content->Some_0 by {
            if i < front.len() {
                assert(front[i] == items[i]);
                if last.content is Some {
                    assert(items[i].place() != items[items.len() - 1].place());
                }
            }
        }
        assert forall|k: Seq<Seq<char>>| #[trigger] t.files.contains_key(k) implies exists|i: int|
            0 <= i < items.len() && (#[trigger] items[i]).is_kept_file() && items[i].place() == k by {
            if old_tree.files.contains_key(k) {
                let i = choose|i: int|
                    0 <= i < front.len() && (#[trigger] front[i]).is_kept_file()
                        && front[i].place() == k;
                assert(items[i] == front[i]);
            } else {
                assert(items[items.len() - 1].is_kept_file());
            }
        }
    }
}

/// The entry of an item is restored to where the item lies.
proof fn lemma_entry_restored(i: BackupItem)
    requires
        i.valid(),
    ensures
        i.content is None ==> i.entry() is Some,
        i.entry() matches Some((n, c)) ==> {
            &&& c == i.content
            &&& restored(n) matches Ok(p) && components(p) == i.place()
        },
{
    reveal_strlit("/var/run/nyrun");
    reveal_strlit("/");
    let path = i.path();
    let slashed = path + "/"@;
    assert("/"@ =~= seq!['/']);
    assert(slashed =~= path + seq!['/']);
    assert(!is_absolute(slashed));
    lemma_end_slash(path);
    lemma_no_way_back(components(path));
    law_join_inside(NYRUN_DIR@, path);
    law_join_inside(NYRUN_DIR@, slashed);
    assert(joined(NYRUN_DIR@, slashed) =~= joined(NYRUN_DIR@, path) + seq!['/']);
    lemma_end_slash(joined(NYRUN_DIR@, path));
}

// ---------------------------------------------------------------------------
// Processes from a file
// ---------------------------------------------------------------------------

/// The configurations with this name, or all of them.
pub open spec fn selected(v: Seq<ProcessConfigView>, only: Option<Seq<char>>) -> Seq<
    ProcessConfigView,
> {
    match only {
        Some(n) => v.filter(|c: ProcessConfigView| c.name == n),
        None => v,
    }
}

/// The configurations with this name, or all of them.
pub fn select_configs(all: Vec<ProcessConfig>, only: &Option<String>) -> (r: Vec<ProcessConfig>)
    ensures
        configs(r@) == selected(configs(all@), opt_text(*only)),
{
    let name = match only {
        Some(n) => n,
        None => {
            return all;
        },
    };
    let ghost v = configs(all@);
    let ghost keep = |c: ProcessConfigView| c.name == name@;
    let mut out: Vec<ProcessConfig> = Vec::new();
    let mut i: usize = 0;
    proof {
        reveal(Seq::filter);
        assert(v.take(0) =~= Seq::empty());
        assert(configs(out@) =~= v.take(0).filter(keep));
    }
    while i < all.len()
        invariant
            i <= all@.len(),
            v == configs(all@),
            keep == (|c: ProcessConfigView| c.name == name@),
            configs(out@) == v.take(i as int).filter(keep),
        decreases all@.len() - i,
    {
        let ghost was = configs(out@);
        proof {
            assert(v.take(i + 1) =~= v.take(i as int).push(v[i as int]));
            v.take(i as int).lemma_filter_push(v[i as int], keep);
            assert(v[i as int] == all@[i as int]@);
        }
        if same(all[i].name.as_str(), name.as_str()) {
            out.push(all[i].clone());
            assert(configs(out@) =~= was.push(v[i as int]));
        }
        i += 1;
    }
    assert(v.take(i as int) =~= v);
    out
}

// ---------------------------------------------------------------------------
// Laws of files
// ---------------------------------------------------------------------------

/// A backup is an archive of the given name, which ends in `.zip` once.
pub proof fn law_backup_name(name: Seq<char>)
    ensures
        ".zip"@.is_suffix_of(backup_file(name)),
        ".zip"@.is_suffix_of(name) ==> backup_file(name) == name,
        !".zip"@.is_suffix_of(name) ==> backup_file(name) == name + ".zip"@,
        backup_file(backup_file(name)) == backup_file(name),
{
    let z = name + ".zip"@;
    assert(z.subrange(z.len() - ".zip"@.len(), z.len() as int) =~= ".zip"@);
}

/// A backup holds every directory and every file but sockets and process numbers, each under its
/// path from the top.
pub proof fn law_backup_entries(dir: Seq<char>, name: Seq<char>)
    ensures
        ({
            let path = if dir.len() == 0 {
                name
            } else {
                dir + "/"@ + name
            };
            let left_out = ".sock"@.is_suffix_of(name) || ".pid"@.is_suffix_of(name);
            &&& backup_plan(dir, name, true) == BackupEntryView::Directory(path + "/"@)
            &&& left_out ==> backup_plan(dir, name, false) is Skip
            &&& !left_out ==> backup_plan(dir, name, false) == BackupEntryView::File(path)
        }),
{
}

/// Of the configurations of a file, one is started where it is named, and else all in order.
pub proof fn law_selected(v: Seq<ProcessConfigView>, name: Seq<char>, c: ProcessConfigView)
    ensures
        selected(v, None) == v,
        selected(v, Some(name)).contains(c) <==> v.contains(c) && c.name == name,
{
    let test = |x: ProcessConfigView| x.name == name;
    if v.contains(c) && c.name == name {
        let i = choose|i: int| 0 <= i < v.len() && v[i] == c;
        assert(test(v[i]));
        v.lemma_filter_contains(test, i);
    }
    if v.filter(test).contains(c) {
        v.lemma_filter_contains_rev(test, c);
        let i = choose|i: int| 0 <= i < v.filter(test).len() && v.filter(test)[i] == c;
        v.lemma_filter_pred(test, i);
    }
}

/// The directories that the daemon needs.
pub proof fn law_needed_dirs()
    ensures
        needed_dirs() == seq![
            "/var/run/nyrun"@,
            "/var/run/nyrun/logs"@,
            "/var/run/nyrun/certs"@,
            "/var/run/nyrun/oci"@,
            "/var/run/nyrun/state"@,
        ],
{
    reveal_strlit("/var/run/nyrun");
    reveal_strlit("/");
    reveal_strlit("logs");
    reveal_strlit("certs");
    reveal_strlit("oci");
    reveal_strlit("state");
    reveal_strlit("/var/run/nyrun/logs");
    reveal_strlit("/var/run/nyrun/certs");
    reveal_strlit("/var/run/nyrun/oci");
    reveal_strlit("/var/run/nyrun/state");
    assert(NYRUN_DIR@ + "/"@ + "logs"@ =~= "/var/run/nyrun/logs"@);
    assert(NYRUN_DIR@ + "/"@ + "certs"@ =~= "/var/run/nyrun/certs"@);
    assert(NYRUN_DIR@ + "/"@ + "oci"@ =~= "/var/run/nyrun/oci"@);
    assert(NYRUN_DIR@ + "/"@ + "state"@ =~= "/var/run/nyrun/state"@);
}

/// The unit starts the daemon of the given program, and names the file of its process number.
pub proof fn law_unit(exe: Seq<char>)
    ensures
        exists|at: int| #[trigger]
            occurs_at(
                unit_of(exe),
                "\nExecStart="@ + exe + " daemon\nPIDFile=/var/run/nyrun/nyrun.pid\n"@,
                at,
            ),
{
    reveal_strlit(
        "[Unit]\nDescription=nyrun process manager\nAfter=network.target\n\n[Service]\nType=forking\nExecStart=",
    );
    reveal_strlit(
        " daemon\nPIDFile=/var/run/nyrun/nyrun.pid\nExecReload=/bin/kill -HUP $MAINPID\nRestart=on-failure\nRestartSec=5\n\n[Install]\nWantedBy=multi-user.target\n",
    );
    reveal_strlit("\nExecStart=");
    reveal_strlit(" daemon\nPIDFile=/var/run/nyrun/nyrun.pid\n");
    let head = "[Unit]\nDescription=nyrun process manager\nAfter=network.target\n\n[Service]\nType=forking\nExecStart="@;
    let middle = "\nExecStart="@ + exe + " daemon\nPIDFile=/var/run/nyrun/nyrun.pid\n"@;
    let at = head.len() - 11;
    let u = unit_of(exe);
    assert(u.subrange(at, at + middle.len()) =~= middle);
    assert(occurs_at(u, middle, at));
}

} // verus!
