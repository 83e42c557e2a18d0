//! What is kept between two runs of the daemon, and how it is written.

use vstd::prelude::*;
use crate::protocol::{configs, ProcessConfig, ProcessConfigView};
use crate::text::{cat2, texts};

verus! {

/// The directory of the store.
pub const STATE_DIR: &'static str = "/var/run/nyrun/state";

/// The file in which a state may be kept as JSON, outside of the store.
pub const OLD_STATE_FILE: &'static str = "/var/run/nyrun/state.json";

/// What the keys of process configurations start with.
pub const CONFIG_PREFIX: &'static str = "config:";

/// One operation on the store.
#[derive(Debug, PartialEq, Eq)]
pub enum StoreOp {
    Delete { key: String },
    Put { key: String, value: Vec<u8> },
    Flush,
}

/// The contents of a `StoreOp`.
#[verifier::ext_equal]
pub enum StoreOpView {
    Delete(Seq<char>),
    Put(Seq<char>, Seq<u8>),
    Flush,
}

impl View for StoreOp {
    type V = StoreOpView;

    open spec fn view(&self) -> StoreOpView {
        match *self {
            StoreOp::Delete { key } => StoreOpView::Delete(key@),
            StoreOp::Put { key, value } => StoreOpView::Put(key@, value@),
            StoreOp::Flush => StoreOpView::Flush,
        }
    }
}

/// The contents of a list of operations.
pub open spec fn ops_view(v: Seq<StoreOp>) -> Seq<StoreOpView> {
    v.map_values(|o: StoreOp| o@)
}

/// The store after an operation.
pub open spec fn apply_op(store: Map<Seq<char>, Seq<u8>>, op: StoreOpView) -> Map<
    Seq<char>,
    Seq<u8>,
> {
    match op {
        StoreOpView::Delete(k) => store.remove(k),
        StoreOpView::Put(k, v) => store.insert(k, v),
        StoreOpView::Flush => store,
    }
}

/// The store after a list of operations.
pub open spec fn apply_ops(store: Map<Seq<char>, Seq<u8>>, ops: Seq<StoreOpView>) -> Map<
    Seq<char>,
    Seq<u8>,
>
    decreases ops.len(),
{
    if ops.len() == 0 {
        store
    } else {
        apply_op(apply_ops(store, ops.drop_last()), ops.last())
    }
}

/// How a failed operation is reported.
pub open spec fn op_failure(op: StoreOpView, e: Seq<char>) -> Seq<char> {
    match op {
        StoreOpView::Delete(_) => "delete error: "@ + e,
        StoreOpView::Put(_, _) => "put error: "@ + e,
        StoreOpView::Flush => "flush error: "@ + e,
    }
}

/// How a failed operation is reported.
pub fn store_failure(op: &StoreOp, e: &str) -> (r: String)
    ensures
        r@ == op_failure(op@, e@),
{
    match op {
        StoreOp::Delete { .. } => cat2("delete error: ", e),
        StoreOp::Put { .. } => cat2("put error: ", e),
        StoreOp::Flush => cat2("flush error: ", e),
    }
}

/// The key of the process `name`.
pub open spec fn config_key(name: Seq<char>) -> Seq<char> {
    CONFIG_PREFIX@ + name
}

/// The operations that delete the listed keys.
pub open spec fn deletions(keys: Seq<Seq<char>>) -> Seq<StoreOpView> {
    keys.map_values(|k: Seq<char>| StoreOpView::Delete(k))
}

/// A serialised configuration and the name of its process.
pub type Saved = (String, Vec<u8>);

/// The contents of a list of serialised configurations.
pub open spec fn saved_view(v: Seq<Saved>) -> Seq<(Seq<char>, Seq<u8>)> {
    v.map_values(|s: Saved| (s.0@, s.1@))
}

/// The operations that write the listed configurations.
pub open spec fn insertions(items: Seq<(Seq<char>, Seq<u8>)>) -> Seq<StoreOpView> {
    items.map_values(|s: (Seq<char>, Seq<u8>)| StoreOpView::Put(config_key(s.0), s.1))
}

/// The operations of a save: all earlier configurations go, the present ones come.
pub open spec fn save_ops(
    old_keys: Seq<Seq<char>>,
    items: Seq<(Seq<char>, Seq<u8>)>,
) -> Seq<StoreOpView> {
    deletions(old_keys) + insertions(items) + seq![StoreOpView::Flush]
}

/// The operations that replace the configurations under `old_keys` by the given ones.
pub fn save(old_keys: Vec<String>, items: Vec<Saved>) -> (r: Vec<StoreOp>)
    ensures
        ops_view(r@) == save_ops(texts(old_keys@), saved_view(items@)),
{
    let ghost keys = texts(old_keys@);
    let ghost all = saved_view(items@);
    let mut out: Vec<StoreOp> = Vec::new();
    let mut i: usize = 0;
    assert(ops_view(out@) =~= deletions(keys.take(0)));
    while i < old_keys.len()
        invariant
            i <= old_keys.len(),
            keys == texts(old_keys@),
            ops_view(out@) == deletions(keys.take(i as int)),
        decreases old_keys.len() - i,
    {
        let ghost was = ops_view(out@);
        out.push(StoreOp::Delete { key: old_keys[i].clone() });
        proof {
            assert(keys[i as int] == old_keys@[i as int]@);
            assert(ops_view(out@) =~= was.push(StoreOpView::Delete(keys[i as int])));
            assert(keys.take(i + 1) =~= keys.take(i as int).push(keys[i as int]));
            assert(ops_view(out@) =~= deletions(keys.take(i + 1)));
        }
        i += 1;
    }
    assert(keys.take(i as int) =~= keys);
    assert(deletions(keys) + insertions(all.take(0)) =~= deletions(keys));
    let mut j: usize = 0;
    while j < items.len()
        invariant
            j <= items.len(),
            all == saved_view(items@),
            ops_view(out@) == deletions(keys) + insertions(all.take(j as int)),
        decreases items.len() - j,
    {
        let ghost was = ops_view(out@);
        let value = copy_bytes(&items[j].1);
        out.push(StoreOp::Put { key: cat2(CONFIG_PREFIX, items[j].0.as_str()), value });
        proof {
            let (n, v) = all[j as int];
            assert(ops_view(out@) =~= was.push(StoreOpView::Put(config_key(n), v)));
            assert(all.take(j + 1) =~= all.take(j as int).push(all[j as int]));
            assert(ops_view(out@) =~= deletions(keys) + insertions(all.take(j + 1)));
        }
        j += 1;
    }
    assert(all.take(j as int) =~= all);
    let ghost was = ops_view(out@);
    out.push(StoreOp::Flush);
    assert(ops_view(out@) =~= was.push(StoreOpView::Flush));
    assert(ops_view(out@) =~= save_ops(keys, all));
    out
}

/// A copy of a list of bytes.
pub fn copy_bytes(v: &Vec<u8>) -> (r: Vec<u8>)
    ensures
        r@ == v@,
{
    let mut out: Vec<u8> = Vec::new();
    let mut i: usize = 0;
    while i < v.len()
        invariant
            i <= v.len(),
            out@ == v@.take(i as int),
        decreases v.len() - i,
    {
        out.push(v[i]);
        assert(out@ =~= v@.take(i + 1));
        i += 1;
    }
    assert(v@.take(i as int) =~= v@);
    out
}

/// The keys of process configurations that a store holds.
pub open spec fn is_config_key(key: Seq<char>) -> bool {
    CONFIG_PREFIX@.is_prefix_of(key)
}

proof fn lemma_apply_concat(
    store: Map<Seq<char>, Seq<u8>>,
    a: Seq<StoreOpView>,
    b: Seq<StoreOpView>,
)
    ensures
        apply_ops(store, a + b) == apply_ops(apply_ops(store, a), b),
    decreases b.len(),
{
    if b.len() == 0 {
        assert(a + b =~= a);
    } else {
        assert((a + b).drop_last() =~= a + b.drop_last());
        lemma_apply_concat(store, a, b.drop_last());
    }
}

proof fn lemma_deletions(store: Map<Seq<char>, Seq<u8>>, keys: Seq<Seq<char>>, k: Seq<char>)
    ensures
        apply_ops(store, deletions(keys)).contains_key(k) <==> store.contains_key(k)
            && !keys.contains(k),
        store.contains_key(k) && !keys.contains(k) ==> apply_ops(store, deletions(keys))[k]
            == store[k],
    decreases keys.len(),
{
    if keys.len() > 0 {
        let front = keys.drop_last();
        lemma_deletions(store, front, k);
        assert(deletions(keys).drop_last() =~= deletions(front));
        assert(keys.contains(k) <==> front.contains(k) || keys.last() == k) by {
            if keys.contains(k) {
                let i = choose|i: int| 0 <= i < keys.len() && keys[i] == k;
                if i < keys.len() - 1 {
                    assert(front[i] == k);
                }
            }
            if front.contains(k) {
                let i = choose|i: int| 0 <= i < front.len() && front[i] == k;
                assert(keys[i] == k);
            }
            assert(keys[keys.len() - 1] == keys.last());
        }
    }
}

proof fn lemma_key_of(a: Seq<char>, b: Seq<char>)
    ensures
        config_key(a) == config_key(b) ==> a == b,
        is_config_key(config_key(a)),
{
    let n = CONFIG_PREFIX@.len();
    assert(config_key(a).skip(n as int) =~= a);
    assert(config_key(b).skip(n as int) =~= b);
    assert(config_key(a).subrange(0, n as int) =~= CONFIG_PREFIX@);
}

proof fn lemma_insertions(
    store: Map<Seq<char>, Seq<u8>>,
    items: Seq<(Seq<char>, Seq<u8>)>,
    i: int,
)
    requires
        forall|a: int, b: int| 0 <= a < b < items.len() ==> items[a].0 != items[b].0,
        0 <= i < items.len(),
    ensures
        apply_ops(store, insertions(items)).contains_key(config_key(items[i].0)),
        apply_ops(store, insertions(items))[config_key(items[i].0)] == items[i].1,
    decreases items.len(),
{
    let front = items.drop_last();
    assert(insertions(items).drop_last() =~= insertions(front));
    if i < items.len() - 1 {
        lemma_insertions(store, front, i);
        assert(items[i].0 != items[items.len() - 1].0);
        lemma_key_of(items[i].0, items.last().0);
    }
}

proof fn lemma_insertions_only(
    store: Map<Seq<char>, Seq<u8>>,
    items: Seq<(Seq<char>, Seq<u8>)>,
    k: Seq<char>,
)
    requires
        forall|i: int| 0 <= i < items.len() ==> config_key(#[trigger] items[i].0) != k,
    ensures
        apply_ops(store, insertions(items)).contains_key(k) <==> store.contains_key(k),
        store.contains_key(k) ==> apply_ops(store, insertions(items))[k] == store[k],
    decreases items.len(),
{
    if items.len() > 0 {
        let front = items.drop_last();
        assert(insertions(items).drop_last() =~= insertions(front));
        assert forall|i: int| 0 <= i < front.len() implies config_key(#[trigger] front[i].0)
            != k by {
            assert(front[i] == items[i]);
        }
        lemma_insertions_only(store, front, k);
        assert(config_key(items[items.len() - 1].0) != k);
    }
}

/// After a save the store holds, under the keys of configurations, what was saved and
/// nothing else; what it holds under other keys stays.
pub proof fn law_saved_state(
    store: Map<Seq<char>, Seq<u8>>,
    old_keys: Seq<Seq<char>>,
    items: Seq<(Seq<char>, Seq<u8>)>,
)
    requires
        forall|k: Seq<char>| #[trigger]
            old_keys.contains(k) <==> store.contains_key(k) && is_config_key(k),
        forall|a: int, b: int| 0 <= a < b < items.len() ==> items[a].0 != items[b].0,
    ensures
        ({
            let after = apply_ops(store, save_ops(old_keys, items));
            &&& forall|i: int|
                #![trigger items[i]]
                0 <= i < items.len() ==> after.contains_key(config_key(items[i].0))
                    && after[config_key(items[i].0)] == items[i].1
            &&& forall|k: Seq<char>| #[trigger]
                after.contains_key(k) && is_config_key(k) ==> exists|i: int|
                    0 <= i < items.len() && k == config_key(#[trigger] items[i].0)
            &&& forall|k: Seq<char>|
                !is_config_key(k) ==> (#[trigger] after.contains_key(k) <==> store.contains_key(k))
                    && (store.contains_key(k) ==> after[k] == store[k])
        }),
{
    let cleared = apply_ops(store, deletions(old_keys));
    let filled = apply_ops(cleared, insertions(items));
    let after = apply_ops(store, save_ops(old_keys, items));
    lemma_apply_concat(store, deletions(old_keys), insertions(items));
    lemma_apply_concat(store, deletions(old_keys) + insertions(items), seq![StoreOpView::Flush]);
    assert(after == filled) by {
        let flush = seq![StoreOpView::Flush];
        assert(flush.drop_last() =~= Seq::empty());
        assert(apply_ops(filled, flush.drop_last()) == filled);
        assert(apply_ops(filled, flush) == filled);
    }
    assert forall|i: int| #![trigger items[i]] 0 <= i < items.len() implies after.contains_key(
        config_key(items[i].0),
    ) && after[config_key(items[i].0)] == items[i].1 by {
        lemma_insertions(cleared, items, i);
    }
    assert forall|k: Seq<char>| #[trigger] after.contains_key(k) && is_config_key(k) implies exists|
        i: int,
    |
        0 <= i < items.len() && k == config_key(#[trigger] items[i].0) by {
        if forall|i: int| 0 <= i < items.len() ==> config_key(#[trigger] items[i].0) != k {
            lemma_insertions_only(cleared, items, k);
            lemma_deletions(store, old_keys, k);
        }
    }
    assert forall|k: Seq<char>| !is_config_key(k) implies (#[trigger] after.contains_key(k)
        <==> store.contains_key(k)) && (store.contains_key(k) ==> after[k] == store[k]) by {
        assert forall|i: int| 0 <= i < items.len() implies config_key(#[trigger] items[i].0)
            != k by {
            lemma_key_of(items[i].0, items[i].0);
        }
        lemma_insertions_only(cleared, items, k);
        lemma_deletions(store, old_keys, k);
    }
}

/// The configurations that could be read, in order.
pub open spec fn readable(v: Seq<Result<ProcessConfig, String>>) -> Seq<ProcessConfigView>
    decreases v.len(),
{
    if v.len() == 0 {
        Seq::empty()
    } else {
        match v.last() {
            Ok(c) => readable(v.drop_last()).push(c@),
            Err(_) => readable(v.drop_last()),
        }
    }
}

/// The configurations of a store, from what each of its entries was read as.
pub fn load(entries: &Vec<Result<ProcessConfig, String>>) -> (r: Vec<ProcessConfig>)
    ensures
        configs(r@) == readable(entries@),
{
    let mut out: Vec<ProcessConfig> = Vec::new();
    let mut i: usize = 0;
    assert(entries@.take(0) =~= Seq::empty());
    assert(configs(out@) =~= Seq::empty());
    while i < entries.len()
        invariant
            i <= entries.len(),
            configs(out@) == readable(entries@.take(i as int)),
        decreases entries.len() - i,
    {
        let ghost was = configs(out@);
        assert(entries@.take(i + 1).drop_last() =~= entries@.take(i as int));
        match &entries[i] {
            Ok(c) => {
                out.push(c.clone());
                assert(configs(out@) =~= was.push(c@));
            },
            Err(_) => {},
        }
        i += 1;
    }
    assert(entries@.take(i as int) =~= entries@);
    out
}

/// Where every entry of the store could be read, all of them are loaded, in order.
pub proof fn law_load_complete(v: Seq<Result<ProcessConfig, String>>)
    requires
        forall|i: int| 0 <= i < v.len() ==> (#[trigger] v[i]) is Ok,
    ensures
        readable(v) == Seq::new(v.len(), |i: int| v[i]->Ok_0@),
    decreases v.len(),
{
    let all = Seq::new(v.len(), |i: int| v[i]->Ok_0@);
    if v.len() > 0 {
        let front = v.drop_last();
        law_load_complete(front);
        assert(v[v.len() - 1] is Ok);
        assert(all =~= Seq::new(front.len(), |i: int| front[i]->Ok_0@).push(v.last()->Ok_0@));
    } else {
        assert(all =~= Seq::empty());
    }
}

/// The keys of saved configurations.
pub open spec fn saved_keys(items: Seq<(Seq<char>, Seq<u8>)>) -> Seq<Seq<char>> {
    items.map_values(|s: (Seq<char>, Seq<u8>)| config_key(s.0))
}

/// What was saved is loaded: the same configurations, each once. `keys` are the keys of
/// configurations that the store holds after the save, in the order in which they are read,
/// and `decode` is how a value is read.
pub proof fn law_save_load(
    store: Map<Seq<char>, Seq<u8>>,
    old_keys: Seq<Seq<char>>,
    items: Seq<(Seq<char>, Seq<u8>)>,
    saved: Seq<ProcessConfigView>,
    keys: Seq<Seq<char>>,
    decode: spec_fn(Seq<u8>) -> Result<ProcessConfig, String>,
)
    requires
        forall|k: Seq<char>| #[trigger]
            old_keys.contains(k) <==> store.contains_key(k) && is_config_key(k),
        forall|a: int, b: int| 0 <= a < b < items.len() ==> items[a].0 != items[b].0,
        items.len() == saved.len(),
        forall|i: int|
            #![trigger items[i]]
            #![trigger saved[i]]
            0 <= i < items.len() ==> items[i].0 == saved[i].name && (decode(items[i].1) matches Ok(
                c,
            ) && c@ == saved[i]),
        keys.no_duplicates(),
        forall|k: Seq<char>| #[trigger]
            keys.contains(k) <==> apply_ops(store, save_ops(old_keys, items)).contains_key(k)
                && is_config_key(k),
    ensures
        ({
            let after = apply_ops(store, save_ops(old_keys, items));
            let loaded = readable(Seq::new(keys.len(), |j: int| decode(after[keys[j]])));
            &&& loaded.len() == saved.len()
            &&& forall|i: int| 0 <= i < saved.len() ==> loaded.contains(#[trigger] saved[i])
            &&& forall|j: int| 0 <= j < loaded.len() ==> saved.contains(#[trigger] loaded[j])
        }),
{
    let after = apply_ops(store, save_ops(old_keys, items));
    let entries = Seq::new(keys.len(), |j: int| decode(after[keys[j]]));
    let own = saved_keys(items);
    law_saved_state(store, old_keys, items);
    assert forall|j: int| 0 <= j < entries.len() implies exists|i: int|
        0 <= i < items.len() && #[trigger] own[i] == keys[j] && #[trigger] entries[j] == decode(
            items[i].1,
        ) by {
        assert(keys.contains(keys[j]));
        assert(after.contains_key(keys[j]) && is_config_key(keys[j]));
        let i = choose|i: int| 0 <= i < items.len() && keys[j] == config_key(#[trigger] items[i].0);
        assert(own[i] == keys[j]);
    }
    assert forall|j: int| 0 <= j < entries.len() implies (#[trigger] entries[j]) is Ok by {
        let i = choose|i: int|
            0 <= i < items.len() && #[trigger] own[i] == keys[j] && entries[j] == decode(items[i].1);
        assert(items[i].0 == saved[i].name);
    }
    law_load_complete(entries);
    let loaded = readable(entries);
    assert forall|j: int| 0 <= j < loaded.len() implies saved.contains(#[trigger] loaded[j]) by {
        let i = choose|i: int|
            0 <= i < items.len() && #[trigger] own[i] == keys[j] && entries[j] == decode(items[i].1);
        assert(items[i].0 == saved[i].name);
        assert(saved[i] == loaded[j]);
    }
    assert forall|i: int| 0 <= i < saved.len() implies loaded.contains(#[trigger] saved[i]) by {
        let k = config_key(items[i].0);
        lemma_key_of(items[i].0, items[i].0);
        assert(after.contains_key(k));
        assert(keys.contains(k));
        let j = choose|j: int| 0 <= j < keys.len() && keys[j] == k;
        assert(entries[j] == decode(items[i].1));
        assert(loaded[j] == saved[i]);
    }
    assert(own.no_duplicates()) by {
        assert forall|a: int, b: int| 0 <= a < own.len() && 0 <= b < own.len() && a != b implies own[a]
            != own[b] by {
            lemma_key_of(items[a].0, items[b].0);
            if a < b {
                assert(items[a].0 != items[b].0);
            } else {
                assert(items[b].0 != items[a].0);
            }
        }
    }
    assert(own.to_set() =~= keys.to_set()) by {
        assert forall|k: Seq<char>| own.contains(k) <==> keys.contains(k) by {
            if own.contains(k) {
                let i = choose|i: int| 0 <= i < own.len() && own[i] == k;
                lemma_key_of(items[i].0, items[i].0);
                assert(after.contains_key(config_key(items[i].0)));
            }
            if keys.contains(k) {
                assert(after.contains_key(k) && is_config_key(k));
                let i = choose|i: int|
                    0 <= i < items.len() && k == config_key(#[trigger] items[i].0);
                assert(own[i] == k);
            }
        }
    }
    own.unique_seq_to_set();
    keys.unique_seq_to_set();
}

/// What is done with a state that is kept as JSON.
#[derive(Debug, PartialEq, Eq)]
pub enum Migration {
    /// There is none, or it cannot be read: nothing is done.
    Leave,
    /// It is empty: its file is removed.
    RemoveFile,
    /// It is saved to the store, and its file removed where that succeeds.
    Save(Vec<ProcessConfig>),
}

/// What is done with a state that is kept as JSON. `read` is what its file was read as,
/// and missing where there is no file.
pub fn migrate(read: Option<Result<Vec<ProcessConfig>, String>>) -> (r: Migration)
    ensures
        match read {
            Some(Ok(v)) => if v@.len() == 0 {
                r is RemoveFile
            } else {
                r == Migration::Save(v)
            },
            _ => r is Leave,
        },
{
    match read {
        Some(Ok(v)) => if v.len() == 0 {
            Migration::RemoveFile
        } else {
            Migration::Save(v)
        },
        _ => Migration::Leave,
    }
}

/// Whether the JSON file is removed once its state was saved.
pub fn remove_old_file(saved: &Result<(), String>) -> (r: bool)
    ensures
        r == (*saved is Ok),
{
    saved.is_ok()
}

/// A configuration is kept under its name behind a prefix, so that no two names share a key, and
/// no key of another kind is taken for one.
pub proof fn law_config_keys(a: Seq<char>, b: Seq<char>)
    ensures
        config_key(a) == "config:"@ + a,
        config_key(a) == config_key(b) ==> a == b,
        is_config_key(config_key(a)),
        is_config_key(a) ==> a.len() >= 7 && a == "config:"@ + a.skip(7),
{
    reveal_strlit("config:");
    let p = "config:"@;
    assert(config_key(a).skip(7) =~= a);
    assert(config_key(b).skip(7) =~= b);
    assert(p =~= config_key(a).subrange(0, p.len() as int));
    if is_config_key(a) {
        assert(a =~= p + a.skip(7));
    }
}

/// What a step of the store fails with is told by its kind.
pub proof fn law_store_failures(key: Seq<char>, value: Seq<u8>, e: Seq<char>)
    ensures
        op_failure(StoreOpView::Delete(key), e) == "delete error: "@ + e,
        op_failure(StoreOpView::Put(key, value), e) == "put error: "@ + e,
        op_failure(StoreOpView::Flush, e) == "flush error: "@ + e,
{
}

/// What cannot be read is passed over, and all else is loaded in its order.
pub proof fn law_load_skips(v: Seq<Result<ProcessConfig, String>>, r: Result<ProcessConfig, String>)
    ensures
        r matches Ok(c) ==> readable(v.push(r)) == readable(v).push(c@),
        r is Err ==> readable(v.push(r)) == readable(v),
        readable(Seq::empty()).len() == 0,
{
    assert(v.push(r).drop_last() =~= v);
}

/// Saving ends with a flush, and everything that was there goes before anything new comes.
pub proof fn law_save_order(old_keys: Seq<Seq<char>>, items: Seq<(Seq<char>, Seq<u8>)>, i: int)
    ensures
        ({
            let ops = save_ops(old_keys, items);
            &&& ops.len() == old_keys.len() + items.len() + 1
            &&& ops.last() == StoreOpView::Flush
            &&& 0 <= i < old_keys.len() ==> ops[i] == StoreOpView::Delete(old_keys[i])
            &&& 0 <= i < items.len() ==> ops[old_keys.len() + i] == StoreOpView::Put(
                "config:"@ + items[i].0,
                items[i].1,
            )
        }),
{
}

} // verus!
