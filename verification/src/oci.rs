//! Container images: references, registries, layers and entry points.

use std::io::Read;
use vstd::prelude::*;
use vstd::string::*;
use vstd::utf8::*;
use crate::json::{
    json_kind, json_text, json_text_list, json_with_text, kind_of, opt_list, put_text, text_list,
    text_member, JsonKind,
};
use crate::number::{decimal, number_text};
use crate::path::{
    components, file_name, inside, is_absolute, is_inside, join, joined, law_component_added,
    law_join_inside, law_join_name, law_parent, law_ways_back, lemma_no_way_back,
    lemma_one_component, name_of, parent, parent_of, stays_within,
};
use crate::text::{
    after_last, after_last_char, before, before_char, byte_chars, byte_text, cat2, cat3, cat4,
    contains_char, contains_text, has_text, lemma_after_last, lemma_find_is, occurs, opt_text, same,
    slice, starts_with, text_bytes, texts, to_chars,
};

verus! {

/// Where images are unpacked.
pub const OCI_DIR: &'static str = "/var/run/nyrun/oci";

/// The registry of a reference that names none, where the settings name none.
pub const DEFAULT_REGISTRY: &'static str = "docker.io";

/// The file that holds the settings.
pub const SETTINGS_FILE: &'static str = "/var/run/nyrun/settings.json";

// ---------------------------------------------------------------------------
// References
// ---------------------------------------------------------------------------

/// Whether `char::is_alphanumeric` holds of a character outside of ASCII.
pub uninterp spec fn alphanumeric(c: char) -> bool;

/// An ASCII letter or digit.
pub open spec fn ascii_alphanumeric(c: char) -> bool {
    ||| '0' <= c <= '9'
    ||| 'A' <= c <= 'Z'
    ||| 'a' <= c <= 'z'
}

/// A letter or a digit.
pub open spec fn letter_or_digit(c: char) -> bool {
    if c as int <= 0x7f {
        ascii_alphanumeric(c)
    } else {
        alphanumeric(c)
    }
}

/// `char::is_alphanumeric`: of ASCII it holds for the letters and digits, and outside of
/// ASCII `alphanumeric` names what it gives.
#[verifier::external_body]
fn is_alphanumeric(c: char) -> (r: bool)
    ensures
        r == if c as int <= 0x7f {
            ascii_alphanumeric(c)
        } else {
            alphanumeric(c)
        },
{
    c.is_alphanumeric()
}

/// Whether a reference names its registry: a first segment with a dot or a colon.
pub open spec fn names_registry(s: Seq<char>) -> bool {
    s.contains('/') && (before(s, '/').contains('.') || before(s, '/').contains(':'))
}

/// Whether a text is written as a path of the file system.
pub open spec fn is_local(s: Seq<char>) -> bool {
    ||| "/"@.is_prefix_of(s)
    ||| "./"@.is_prefix_of(s)
    ||| "../"@.is_prefix_of(s)
}

/// Whether a character may stand in the name of an image without registry.
pub open spec fn simple_char(c: char) -> bool {
    letter_or_digit(c) || c == '-' || c == '_'
}

/// Whether a text is the name of an image, with or without a tag, and without any
/// registry.
pub open spec fn is_short(s: Seq<char>) -> bool {
    let name = before(s, ':');
    &&& !s.contains('/')
    &&& name.len() > 0
    &&& forall|i: int| 0 <= i < name.len() ==> simple_char(#[trigger] name[i])
}

/// Whether a text is a reference to an image and no local path.
pub open spec fn is_image(s: Seq<char>) -> bool {
    !is_local(s) && (names_registry(s) || is_short(s))
}

fn has_registry(s: &str) -> (r: bool)
    ensures
        r == names_registry(s@),
{
    if !contains_char(s, '/') {
        return false;
    }
    let first = before_char(s, '/');
    contains_char(first.as_str(), '.') || contains_char(first.as_str(), ':')
}

fn all_simple(s: &str) -> (r: bool)
    ensures
        r == (forall|i: int| 0 <= i < s@.len() ==> simple_char(#[trigger] s@[i])),
{
    let cs = to_chars(s);
    let mut i: usize = 0;
    while i < cs.len()
        invariant
            cs@ == s@,
            i <= cs.len(),
            forall|j: int| 0 <= j < i ==> simple_char(#[trigger] s@[j]),
        decreases cs.len() - i,
    {
        let c = cs[i];
        assert(s@[i as int] == c);
        if !(is_alphanumeric(c) || c == '-' || c == '_') {
            return false;
        }
        i += 1;
    }
    true
}

/// Whether a text is a reference to an image and no local path.
pub fn is_oci_reference(path: &str) -> (r: bool)
    ensures
        r == is_image(path@),
{
    if starts_with(path, "/") || starts_with(path, "./") || starts_with(path, "../") {
        return false;
    }
    if has_registry(path) {
        return true;
    }
    if contains_char(path, '/') {
        return false;
    }
    let name = before_char(path, ':');
    name.as_str().unicode_len() > 0 && all_simple(name.as_str())
}

/// A name of ASCII letters, digits, hyphens and underscores is a reference to an image,
/// with a tag and without one.
pub proof fn law_short_name(name: Seq<char>, tag: Seq<char>)
    requires
        name.len() > 0,
        forall|i: int|
            0 <= i < name.len() ==> ascii_alphanumeric(#[trigger] name[i]) || name[i] == '-'
                || name[i] == '_',
        !tag.contains('/'),
    ensures
        is_image(name),
        is_image(name + seq![':'] + tag),
{
    reveal_strlit("/");
    reveal_strlit("./");
    reveal_strlit("../");
    let t = name + seq![':'] + tag;
    lemma_find_is(name, ':', name.len() as int);
    lemma_find_is(t, ':', name.len() as int);
    assert(before(name, ':') =~= name);
    assert(before(t, ':') =~= name);
    assert(t[0] == name[0]);
    if name.contains('/') {
        let i = choose|i: int| 0 <= i < name.len() && name[i] == '/';
        assert(ascii_alphanumeric(name[i]) || name[i] == '-' || name[i] == '_');
    }
    if t.contains('/') {
        let i = choose|i: int| 0 <= i < t.len() && t[i] == '/';
        if i < name.len() {
            assert(name[i] == '/');
            assert(name.contains('/'));
        } else {
            assert(tag[i - name.len() - 1] == '/');
        }
    }
    lemma_not_local(name);
    lemma_not_local(t);
}

/// A text that starts with neither a slash nor a dot is no local path.
proof fn lemma_not_local(s: Seq<char>)
    requires
        s.len() > 0,
        s[0] != '/',
        s[0] != '.',
    ensures
        !is_local(s),
{
    reveal_strlit("/");
    reveal_strlit("./");
    reveal_strlit("../");
    assert("/"@[0] == '/');
    assert("./"@[0] == '.');
    assert("../"@[0] == '.');
    if "/"@.is_prefix_of(s) {
        assert(s.subrange(0, "/"@.len() as int)[0] == s[0]);
    }
    if "./"@.is_prefix_of(s) {
        assert(s.subrange(0, "./"@.len() as int)[0] == s[0]);
    }
    if "../"@.is_prefix_of(s) {
        assert(s.subrange(0, "../"@.len() as int)[0] == s[0]);
    }
}

/// A reference with its registry; images of `docker.io` stand under `library`.
pub open spec fn normalized(reference: Seq<char>, registry: Seq<char>) -> Seq<char> {
    if names_registry(reference) {
        reference
    } else if registry == DEFAULT_REGISTRY@ {
        registry + "/library/"@ + reference
    } else {
        registry + "/"@ + reference
    }
}

/// A reference with its registry: the given one where it names none.
pub fn normalize_reference(reference: &str, registry: &str) -> (r: String)
    ensures
        r@ == normalized(reference@, registry@),
{
    if has_registry(reference) {
        reference.to_string()
    } else if same(registry, DEFAULT_REGISTRY) {
        cat3(registry, "/library/", reference)
    } else {
        cat3(registry, "/", reference)
    }
}

/// The name of an image: the last segment of its reference, without tag and digest.
pub open spec fn image_name(reference: Seq<char>) -> Seq<char> {
    before(before(after_last(reference, '/'), ':'), '@')
}

/// The name of an image: the last segment of its reference, without tag and digest.
pub fn image_name_from_ref(reference: &str) -> (r: String)
    ensures
        r@ == image_name(reference@),
{
    let segment = after_last_char(reference, '/');
    let without_tag = before_char(segment.as_str(), ':');
    before_char(without_tag.as_str(), '@')
}

// ---------------------------------------------------------------------------
// The default registry
// ---------------------------------------------------------------------------

/// The registry that the text of the settings file names, or the default.
pub open spec fn registry_of(settings: Option<Seq<char>>) -> Seq<char> {
    match settings {
        Some(data) => match json_text(data, "default-registry"@) {
            Some(reg) => reg,
            None => DEFAULT_REGISTRY@,
        },
        None => DEFAULT_REGISTRY@,
    }
}

/// The registry that a setting names, or the default.
pub fn registry_or_default(setting: Option<String>) -> (r: String)
    ensures
        r@ == match setting {
            Some(reg) => reg@,
            None => DEFAULT_REGISTRY@,
        },
{
    match setting {
        Some(reg) => reg,
        None => DEFAULT_REGISTRY.to_string(),
    }
}

/// The registry that the text of the settings file names, or the default; the text
/// is missing where the file cannot be read.
pub fn load_default_registry(settings: &Option<String>) -> (r: String)
    ensures
        r@ == registry_of(opt_text(*settings)),
{
    match settings {
        Some(data) => registry_or_default(text_member(data.as_str(), "default-registry")),
        None => registry_or_default(None),
    }
}

/// The text onto which a setting is written: an empty object where there is no JSON.
pub open spec fn settings_base(settings: Option<Seq<char>>) -> Seq<char> {
    match settings {
        Some(data) => if json_kind(data) == JsonKind::Invalid {
            "{}"@
        } else {
            data
        },
        None => "{}"@,
    }
}

/// The text of the settings file with a default registry; none where the file holds
/// JSON that is neither an object nor null.
pub fn save_default_registry(settings: &Option<String>, registry: &str) -> (r: Option<String>)
    ensures
        match r {
            Some(text) => {
                let base = settings_base(opt_text(*settings));
                &&& json_kind(base) == JsonKind::Object || json_kind(base) == JsonKind::Null
                &&& text@ == json_with_text(base, "default-registry"@, registry@)
                &&& registry_of(Some(text@)) == registry@
                &&& forall|k: Seq<char>|
                    k != "default-registry"@ ==> #[trigger] json_text(text@, k) == json_text(
                        base,
                        k,
                    )
            },
            None => {
                let k = json_kind(settings_base(opt_text(*settings)));
                settings is Some && k != JsonKind::Object && k != JsonKind::Null
            },
        },
{
    let base = match settings {
        Some(data) => match kind_of(data.as_str()) {
            JsonKind::Invalid => "{}".to_string(),
            _ => data.clone(),
        },
        None => "{}".to_string(),
    };
    match kind_of(base.as_str()) {
        JsonKind::Object | JsonKind::Null => Some(
            put_text(base.as_str(), "default-registry", registry),
        ),
        _ => None,
    }
}

// ---------------------------------------------------------------------------
// Sizes
// ---------------------------------------------------------------------------

/// `n / d` to the nearest integer; from the middle to the even one.
pub open spec fn round_even(n: nat, d: nat) -> nat {
    let q = n / d;
    let r = n % d;
    if 2 * r < d || (2 * r == d && q % 2 == 0) {
        q
    } else {
        q + 1
    }
}

/// The distance between the numbers of 53 significant bits around `n`.
pub open spec fn spacing(n: nat) -> nat
    decreases n,
{
    if n < 0x20_0000_0000_0000 {
        1
    } else {
        2 * spacing(n / 2)
    }
}

/// The number of 53 significant bits that is nearest to `n`.
pub open spec fn nearest(n: nat) -> nat {
    round_even(n, spacing(n)) * spacing(n)
}

/// A number of tenths with one digit behind the point.
pub open spec fn tenths_text(t: nat) -> Seq<char> {
    decimal(t / 10) + "."@ + decimal(t % 10)
}

/// How the size of a layer is written.
pub open spec fn size_text(bytes: nat) -> Seq<char> {
    if bytes >= 1_000_000_000 {
        tenths_text(round_even(nearest(bytes) * 10, 1_073_741_824)) + " GB"@
    } else if bytes >= 1_000_000 {
        tenths_text(round_even(bytes * 10, 1_048_576)) + " MB"@
    } else if bytes >= 1_000 {
        decimal(round_even(bytes, 1_024)) + " KB"@
    } else {
        decimal(bytes) + " B"@
    }
}

fn round_half_even(n: u128, d: u64) -> (r: u128)
    requires
        d > 0,
        n < 0x1000_0000_0000_0000_0000_0000,
    ensures
        r == round_even(n as nat, d as nat),
        r <= n / (d as u128) + 1,
{
    let q: u128 = n / d as u128;
    let rem: u128 = n % d as u128;
    if 2 * rem < d as u128 || (2 * rem == d as u128 && q % 2 == 0) {
        q
    } else {
        assert(q <= n) by (nonlinear_arith)
            requires
                q == n / (d as u128),
                d > 0,
        ;
        q + 1
    }
}

/// The distance between the numbers of 53 significant bits around `n`.
fn spacing_of(n: u64) -> (r: u64)
    ensures
        r == spacing(n as nat),
        1 <= r,
        n >= 0x20_0000_0000_0000 ==> r <= n / 0x10_0000_0000_0000,
        n < 0x20_0000_0000_0000 ==> r == 1,
    decreases n,
{
    if n < 0x20_0000_0000_0000 {
        1
    } else {
        let half = spacing_of(n / 2);
        2 * half
    }
}

fn tenths(t: u64) -> (r: String)
    ensures
        r@ == tenths_text(t as nat),
{
    cat3(number_text(t / 10).as_str(), ".", number_text(t % 10).as_str())
}

/// Writes the size of a layer.
pub fn format_size(bytes: u64) -> (r: String)
    ensures
        r@ == size_text(bytes as nat),
{
    if bytes >= 1_000_000_000 {
        let step: u64 = spacing_of(bytes);
        let count: u128 = round_half_even(bytes as u128, step);
        assert(count * step <= bytes + step) by (nonlinear_arith)
            requires
                count <= bytes as u128 / (step as u128) + 1,
                step >= 1,
        ;
        let near: u128 = count * step as u128;
        let t: u128 = round_half_even(near * 10, 1_073_741_824);
        cat2(tenths(t as u64).as_str(), " GB")
    } else if bytes >= 1_000_000 {
        let t: u128 = round_half_even(bytes as u128 * 10, 1_048_576);
        cat2(tenths(t as u64).as_str(), " MB")
    } else if bytes >= 1_000 {
        let t: u128 = round_half_even(bytes as u128, 1_024);
        cat2(number_text(t as u64).as_str(), " KB")
    } else {
        cat2(number_text(bytes).as_str(), " B")
    }
}

// ---------------------------------------------------------------------------
// Pulling an image
// ---------------------------------------------------------------------------

/// What is wrong with a reference, in the words of `oci_distribution::Reference`'s
/// parser; none where it can be parsed.
pub uninterp spec fn reference_problem(s: Seq<char>) -> Option<Seq<char>>;

/// `oci_distribution::Reference` by `FromStr`: whether a text can be parsed, and
/// else the error's text; `reference_problem` names both.
#[verifier::external_body]
fn parse_reference(s: &str) -> (r: Result<(), String>)
    ensures
        match r {
            Ok(_) => reference_problem(s@) is None,
            Err(e) => reference_problem(s@) == Some(e@),
        },
{
    match s.parse::<oci_distribution::Reference>() {
        Ok(_) => Ok(()),
        Err(e) => Err(e.to_string()),
    }
}

/// The directory of an image.
pub open spec fn image_dir(name: Seq<char>) -> Seq<char> {
    joined(OCI_DIR@, name)
}

/// The directory of an image.
pub fn dest_dir(name: &str) -> (r: String)
    ensures
        r@ == image_dir(name@),
{
    join(OCI_DIR, name)
}

/// The file that keeps an image's configuration.
pub fn config_path(dir: &str) -> (r: String)
    ensures
        r@ == joined(dir@, ".oci-config.json"@),
{
    join(dir, ".oci-config.json")
}

/// What a pull has to do next.
#[derive(Clone, Copy, Debug, PartialEq, Eq, Structural)]
pub enum PullStage {
    /// Fetch the manifest.
    Manifest,
    /// Create the image's directory.
    Directory,
    /// Fetch the configuration.
    Config,
    /// Write the configuration to its file.
    Save,
    /// Fetch the layer that is next.
    Layer,
    /// Unpack the layer that was fetched.
    Extract,
}

/// A pull under way.
#[derive(Debug, PartialEq, Eq)]
pub struct Pull {
    pub reference: String,
    pub name: String,
    /// The digests of the layers, once the manifest is there.
    pub layers: Vec<String>,
    pub stage: PullStage,
    /// The layer that is next.
    pub next: usize,
}

/// The contents of a `Pull`.
#[verifier::ext_equal]
pub struct PullView {
    pub reference: Seq<char>,
    pub name: Seq<char>,
    pub layers: Seq<Seq<char>>,
    pub stage: PullStage,
    pub next: int,
}

impl View for Pull {
    type V = PullView;

    open spec fn view(&self) -> PullView {
        PullView {
            reference: self.reference@,
            name: self.name@,
            layers: texts(self.layers@),
            stage: self.stage,
            next: self.next as int,
        }
    }
}

impl PullView {
    /// A layer that is being fetched or unpacked is one of the manifest's.
    pub open spec fn valid(self) -> bool {
        &&& 0 <= self.next <= self.layers.len()
        &&& (self.stage == PullStage::Layer || self.stage == PullStage::Extract) ==> self.next
            < self.layers.len()
        &&& (self.stage != PullStage::Layer && self.stage != PullStage::Extract) ==> self.next == 0
        &&& (self.stage == PullStage::Manifest) ==> self.layers.len() == 0
    }

    /// How many steps are left.
    pub open spec fn remaining(self) -> int {
        match self.stage {
            PullStage::Manifest => 4,
            PullStage::Directory => 3 + 2 * (self.layers.len() as int),
            PullStage::Config => 2 + 2 * (self.layers.len() as int),
            PullStage::Save => 1 + 2 * (self.layers.len() as int),
            PullStage::Layer => 2 * (self.layers.len() - self.next),
            PullStage::Extract => 2 * (self.layers.len() - self.next) - 1,
        }
    }

    /// What a failure of the present step is reported as.
    pub open spec fn failure(self, e: Seq<char>) -> Seq<char> {
        match self.stage {
            PullStage::Manifest => "failed to pull manifest: "@ + e,
            PullStage::Directory => "failed to create dir "@ + image_dir(self.name) + ": "@ + e,
            PullStage::Config => "failed to pull config: "@ + e,
            PullStage::Save => "failed to write config: "@ + e,
            PullStage::Layer => "failed to pull layer "@ + self.layers[self.next] + ": "@ + e,
            PullStage::Extract => e,
        }
    }

    /// The pull after the present step; none where it was the last one.
    pub open spec fn after(self, found: Seq<Seq<char>>) -> Option<PullView> {
        match self.stage {
            PullStage::Manifest => Some(
                PullView { layers: found, stage: PullStage::Directory, ..self },
            ),
            PullStage::Directory => Some(PullView { stage: PullStage::Config, ..self }),
            PullStage::Config => Some(PullView { stage: PullStage::Save, ..self }),
            PullStage::Save => if self.layers.len() == 0 {
                None
            } else {
                Some(PullView { stage: PullStage::Layer, ..self })
            },
            PullStage::Layer => Some(PullView { stage: PullStage::Extract, ..self }),
            PullStage::Extract => if self.next + 1 == self.layers.len() {
                None
            } else {
                Some(PullView { stage: PullStage::Layer, next: self.next + 1, ..self })
            },
        }
    }
}

/// How a step of a pull ended.
#[derive(Debug, PartialEq, Eq)]
pub enum PullNext {
    /// There is more to do.
    Continue(Pull),
    /// The image is in its directory.
    Finished(String),
    /// The pull failed.
    Failed(String),
}

/// Starts to pull an image into the directory of a process.
pub fn pull_and_extract(reference: &str, name: &str) -> (r: Result<Pull, String>)
    ensures
        match (r, reference_problem(reference@)) {
            (Ok(p), None) => p@.valid() && p@ == (PullView {
                reference: reference@,
                name: name@,
                layers: Seq::empty(),
                stage: PullStage::Manifest,
                next: 0,
            }),
            (Err(e), Some(problem)) => e@ == "invalid OCI reference '"@ + reference@ + "': "@
                + problem,
            _ => false,
        },
{
    match parse_reference(reference) {
        Ok(_) => Ok(start_pull(reference, name)),
        Err(e) => Err(cat4("invalid OCI reference '", reference, "': ", e.as_str())),
    }
}

/// A pull of a reference that can be parsed.
pub fn start_pull(reference: &str, name: &str) -> (r: Pull)
    ensures
        r@.valid(),
        r@ == (PullView {
            reference: reference@,
            name: name@,
            layers: Seq::empty(),
            stage: PullStage::Manifest,
            next: 0,
        }),
{
    let layers: Vec<String> = Vec::new();
    assert(texts(layers@) =~= Seq::empty());
    Pull {
        reference: reference.to_string(),
        name: name.to_string(),
        layers,
        stage: PullStage::Manifest,
        next: 0,
    }
}

/// The pull after its present step. `result` holds the digests that the manifest
/// lists, which count in the first step alone, or why the step failed.
pub fn pull_step(pull: Pull, result: Result<Vec<String>, String>) -> (r: PullNext)
    requires
        pull@.valid(),
    ensures
        match (result, r) {
            (Err(e), PullNext::Failed(m)) => m@ == pull@.failure(e@),
            (Ok(found), PullNext::Continue(p)) => p@.valid() && pull@.after(texts(found@)) == Some(
                p@,
            ),
            (Ok(found), PullNext::Finished(d)) => d@ == image_dir(pull@.name) && pull@.after(
                texts(found@),
            ) is None,
            _ => false,
        },
{
    match result {
        Err(e) => {
            let m = match pull.stage {
                PullStage::Manifest => cat2("failed to pull manifest: ", e.as_str()),
                PullStage::Directory => cat4(
                    "failed to create dir ",
                    dest_dir(pull.name.as_str()).as_str(),
                    ": ",
                    e.as_str(),
                ),
                PullStage::Config => cat2("failed to pull config: ", e.as_str()),
                PullStage::Save => cat2("failed to write config: ", e.as_str()),
                PullStage::Layer => cat4(
                    "failed to pull layer ",
                    pull.layers[pull.next].as_str(),
                    ": ",
                    e.as_str(),
                ),
                PullStage::Extract => e,
            };
            PullNext::Failed(m)
        },
        Ok(found) => {
            let mut p = pull;
            match p.stage {
                PullStage::Manifest => {
                    p.layers = found;
                    p.stage = PullStage::Directory;
                },
                PullStage::Directory => {
                    p.stage = PullStage::Config;
                },
                PullStage::Config => {
                    p.stage = PullStage::Save;
                },
                PullStage::Save => {
                    if p.layers.len() == 0 {
                        return PullNext::Finished(dest_dir(p.name.as_str()));
                    }
                    p.stage = PullStage::Layer;
                },
                PullStage::Layer => {
                    p.stage = PullStage::Extract;
                },
                PullStage::Extract => {
                    let count = p.layers.len();
                    assert(texts(p.layers@).len() == count);
                    if p.next + 1 == count {
                        return PullNext::Finished(dest_dir(p.name.as_str()));
                    }
                    p.stage = PullStage::Layer;
                    p.next = p.next + 1;
                },
            }
            PullNext::Continue(p)
        },
    }
}

/// Each step that succeeds leaves one step less, and the pull ends with the last:
/// every layer is fetched and unpacked once, in the manifest's order.
pub proof fn law_pull_progress(p: PullView, found: Seq<Seq<char>>)
    requires
        p.valid(),
    ensures
        match p.after(found) {
            Some(q) => {
                &&& q.valid()
                &&& q.remaining() == p.remaining() - 1 + if p.stage == PullStage::Manifest {
                    2 * (found.len() as int)
                } else {
                    0
                }
                &&& q.stage == PullStage::Layer ==> q.next == if p.stage == PullStage::Save {
                    0
                } else {
                    p.next + 1
                }
                &&& q.stage == PullStage::Extract ==> q.next == p.next
            },
            None => p.remaining() == 1 && (p.layers.len() == 0 || p.next + 1 == p.layers.len()),
        },
{
}

// ---------------------------------------------------------------------------
// Layers
// ---------------------------------------------------------------------------

/// How a layer is packed.
#[derive(Clone, Copy, Debug, PartialEq, Eq, Structural)]
pub enum LayerFormat {
    /// A compressed archive.
    Gzip,
    /// An archive.
    Tar,
    /// Something else, which is skipped.
    Unknown,
}

/// How a layer of a media type is packed.
pub fn layer_format(media_type: &str) -> (r: LayerFormat)
    ensures
        r == if occurs(media_type@, "gzip"@) {
            LayerFormat::Gzip
        } else if occurs(media_type@, "tar"@) {
            LayerFormat::Tar
        } else {
            LayerFormat::Unknown
        },
{
    if contains_text(media_type, "gzip") {
        LayerFormat::Gzip
    } else if contains_text(media_type, "tar") {
        LayerFormat::Tar
    } else {
        LayerFormat::Unknown
    }
}

/// What is done with an entry of a layer.
#[derive(Debug, PartialEq, Eq)]
pub enum EntryAction {
    /// Remove what an earlier layer put at this path, whose characters have the values of
    /// its bytes.
    Remove(String),
    /// Pass over an entry that leads out of the directory.
    Skip,
    /// Unpack the entry.
    Unpack,
}

/// The contents of an `EntryAction`.
#[verifier::ext_equal]
pub enum EntryActionView {
    Remove(Seq<char>),
    Skip,
    Unpack,
}

impl View for EntryAction {
    type V = EntryActionView;

    open spec fn view(&self) -> EntryActionView {
        match *self {
            EntryAction::Remove(p) => EntryActionView::Remove(p@),
            EntryAction::Skip => EntryActionView::Skip,
            EntryAction::Unpack => EntryActionView::Unpack,
        }
    }
}

/// The directory part of a path, or an empty path.
pub open spec fn parent_or_empty(path: Seq<char>) -> Seq<char> {
    match parent_of(path) {
        Some(p) => p,
        None => Seq::empty(),
    }
}

/// Whether the bytes that the characters have the values of are UTF-8.
pub open spec fn spells_utf8(s: Seq<char>) -> bool {
    exists|b: Seq<u8>| #[trigger] byte_chars(b) == s && valid_utf8(b)
}

/// `std::str::from_utf8`: it succeeds on UTF-8 alone.
#[verifier::external_body]
fn is_utf8(bytes: &Vec<u8>) -> (r: bool)
    ensures
        r == valid_utf8(bytes@),
{
    std::str::from_utf8(bytes).is_ok()
}

/// Whether the bytes that the characters have the values of are UTF-8.
fn has_utf8(s: &str) -> (r: bool)
    ensures
        r == spells_utf8(s@),
{
    match text_bytes(s) {
        Some(b) => {
            proof {
                assert forall|c: Seq<u8>| #[trigger] byte_chars(c) == s@ implies c == b@ by {
                    assert(byte_chars(c).len() == c.len());
                    assert(byte_chars(b@).len() == b@.len());
                    assert forall|i: int| 0 <= i < c.len() implies c[i] == b@[i] by {
                        assert(byte_chars(c)[i] == byte_chars(b@)[i]);
                    }
                    assert(c =~= b@);
                }
            }
            is_utf8(&b)
        },
        None => {
            proof {
                let i = choose|i: int| 0 <= i < s@.len() && (#[trigger] s@[i]) as int > 0xff;
                assert forall|c: Seq<u8>| #[trigger] byte_chars(c) != s@ by {
                    if byte_chars(c) == s@ {
                        assert(byte_chars(c)[i] == c[i] as char);
                    }
                }
            }
            false
        },
    }
}

/// What is done with the entry `path` of a layer of the image in `dest`, both with
/// characters that have the values of their bytes: what leads out of the directory is
/// passed over, and a name that starts with `.wh.` removes the file named behind it.
pub open spec fn path_plan(path: Seq<char>, dest: Seq<char>) -> EntryActionView {
    if !is_inside(joined(dest, path), dest) {
        EntryActionView::Skip
    } else {
        match name_of(path) {
            Some(n) if ".wh."@.is_prefix_of(n) && spells_utf8(n) => {
                let target = joined(
                    joined(dest, parent_or_empty(path)),
                    n.skip(".wh."@.len() as int),
                );
                if is_inside(target, dest) {
                    EntryActionView::Remove(target)
                } else {
                    EntryActionView::Skip
                }
            },
            _ => EntryActionView::Unpack,
        }
    }
}

/// What is done with the entry `path` of a layer of the image in `dest`.
pub open spec fn entry_plan(path: Seq<u8>, dest: Seq<char>) -> EntryActionView {
    path_plan(byte_chars(path), byte_chars(encode_utf8(dest)))
}

fn path_action(path: &str, dest: &str) -> (r: EntryAction)
    ensures
        r@ == path_plan(path@, dest@),
{
    if !inside(join(dest, path).as_str(), dest) {
        return EntryAction::Skip;
    }
    match file_name(path) {
        Some(n) => {
            if starts_with(n.as_str(), ".wh.") && has_utf8(n.as_str()) {
                proof {
                    reveal_strlit(".wh.");
                }
                let dir = match parent(path) {
                    Some(p) => p,
                    None => String::new(),
                };
                let rest = slice(n.as_str(), 4, n.as_str().unicode_len());
                assert(rest@ =~= n@.skip(".wh."@.len() as int));
                assert(dir@ =~= parent_or_empty(path@));
                let target = join(join(dest, dir.as_str()).as_str(), rest.as_str());
                if inside(target.as_str(), dest) {
                    EntryAction::Remove(target)
                } else {
                    EntryAction::Skip
                }
            } else {
                EntryAction::Unpack
            }
        },
        None => EntryAction::Unpack,
    }
}

/// What is done with the entry `path` of a layer of the image in `dest`.
pub fn entry_action(path: &Vec<u8>, dest: &str) -> (r: EntryAction)
    ensures
        r@ == entry_plan(path@, dest@),
{
    let p = byte_text(path);
    let d = byte_text(&dest.as_bytes_vec());
    path_action(p.as_str(), d.as_str())
}

/// Nothing outside of the image's directory is unpacked or removed: an entry that is
/// unpacked lies in the directory, and so does what an entry removes.
pub proof fn law_unpack_stays_inside(path: Seq<u8>, dest: Seq<char>)
    ensures
        ({
            let p = byte_chars(path);
            let d = byte_chars(encode_utf8(dest));
            &&& entry_plan(path, dest) is Unpack ==> is_inside(joined(d, p), d)
            &&& entry_plan(path, dest) matches EntryActionView::Remove(t) ==> is_inside(t, d)
        }),
{
}

/// A relative entry without a whiteout name that never leads out of the directory is unpacked.
pub proof fn law_plain_entry_unpacked(path: Seq<u8>, dest: Seq<char>)
    requires
        !is_absolute(byte_chars(path)),
        stays_within(components(byte_chars(path))),
        name_of(byte_chars(path)) matches Some(n) ==> !".wh."@.is_prefix_of(n),
    ensures
        entry_plan(path, dest) is Unpack,
{
    law_join_inside(byte_chars(encode_utf8(dest)), byte_chars(path));
}

/// Where the reading of an archive failed.
#[derive(Clone, Copy, Debug, PartialEq, Eq, Structural)]
pub enum ArchiveStage {
    /// At its start.
    Entries,
    /// At an entry.
    Entry,
    /// At the path of an entry.
    Path,
}

/// The paths that an archive lists, in order and in bytes, and where and why reading it
/// stopped before its end, if it did.
pub type Listing = (Vec<Vec<u8>>, Option<(ArchiveStage, String)>);

/// The contents of a `Listing`.
pub open spec fn listing_view(l: Listing) -> (
    Seq<Seq<u8>>,
    Option<(ArchiveStage, Seq<char>)>,
) {
    (
        l.0@.map_values(|p: Vec<u8>| p@),
        match l.1 {
            Some((stage, e)) => Some((stage, e@)),
            None => None,
        },
    )
}

/// The paths that `tar` lists of an archive.
pub uninterp spec fn tar_listing(data: Seq<u8>) -> (
    Seq<Seq<u8>>,
    Option<(ArchiveStage, Seq<char>)>,
);

/// The paths that `tar` lists of what `flate2` makes of a compressed archive.
pub uninterp spec fn gzip_listing(data: Seq<u8>) -> (
    Seq<Seq<u8>>,
    Option<(ArchiveStage, Seq<char>)>,
);

/// What `flate2` makes of compressed bytes, up to the first error.
pub uninterp spec fn gunzipped(data: Seq<u8>) -> Seq<u8>;

/// Whether a block of an archive may be the head of a sparse file whose map goes on behind it:
/// a type of `S` and the mark of an extended head.
pub open spec fn sparse_head(data: Seq<u8>, i: int) -> bool {
    &&& 0 <= i && i % 512 == 0 && i + 512 <= data.len()
    &&& data[i + 156] == 0x53
    &&& data[i + 482] == 1
}

/// Whether the size in a head is a binary number of at least 2^63.
pub open spec fn huge_size(data: Seq<u8>, i: int) -> bool {
    data[i + 124] >= 0x80 && data[i + 128] >= 0x80
}

/// Whether a byte is a digit or a plus.
pub open spec fn in_number(b: u8) -> bool {
    0x30 <= b <= 0x39 || b == 0x2b
}

/// Whether a record may stand there that gives a size of at least 2^63: `size=` with a number
/// of as many digits.
pub open spec fn huge_record(data: Seq<u8>, j: int) -> bool {
    &&& 0 <= j && j + 24 <= data.len()
    &&& data[j] == 0x73 && data[j + 1] == 0x69 && data[j + 2] == 0x7a && data[j + 3] == 0x65
        && data[j + 4] == 0x3d
    &&& forall|k: int| 5 <= k < 24 ==> in_number(#[trigger] data[j + k])
}

/// Whether an archive may have a sparse file of at least 2^63 bytes whose map goes on behind
/// its head, so that the position of the next entry is no number of 64 bits.
pub open spec fn overflows(data: Seq<u8>) -> bool {
    exists|i: int| #[trigger]
        sparse_head(data, i) && (huge_size(data, i) || exists|j: int| #[trigger]
            huge_record(data, j))
}

fn is_huge_record(data: &Vec<u8>, j: usize) -> (r: bool)
    requires
        j <= data@.len(),
    ensures
        r == huge_record(data@, j as int),
{
    if data.len() - j < 24 {
        return false;
    }
    if data[j] != 0x73 || data[j + 1] != 0x69 || data[j + 2] != 0x7a || data[j + 3] != 0x65
        || data[j + 4] != 0x3d {
        return false;
    }
    let mut k: usize = 5;
    while k < 24
        invariant
            5 <= k <= 24,
            j + 24 <= data.len(),
            forall|m: int| 5 <= m < k ==> in_number(#[trigger] data@[j + m]),
        decreases 24 - k,
    {
        let b: u8 = data[j + k];
        if !(0x30 <= b && b <= 0x39) && b != 0x2b {
            assert(!in_number(data@[j + k]));
            return false;
        }
        k += 1;
    }
    true
}

fn has_huge_record(data: &Vec<u8>) -> (r: bool)
    ensures
        r == exists|j: int| #[trigger] huge_record(data@, j),
{
    let mut j: usize = 0;
    while j < data.len()
        invariant
            j <= data@.len(),
            forall|m: int| 0 <= m < j ==> !#[trigger] huge_record(data@, m),
        decreases data@.len() - j,
    {
        if is_huge_record(data, j) {
            return true;
        }
        j += 1;
    }
    assert forall|m: int| !#[trigger] huge_record(data@, m) by {}
    false
}

/// Whether an archive may have a sparse file that is too large to be counted.
fn has_overflow(data: &Vec<u8>) -> (r: bool)
    ensures
        r == overflows(data@),
{
    let record = has_huge_record(data);
    let mut i: usize = 0;
    while i < data.len() && data.len() - i >= 512
        invariant
            i <= data@.len(),
            i % 512 == 0,
            record == exists|j: int| #[trigger] huge_record(data@, j),
            forall|m: int|
                0 <= m < i && #[trigger] sparse_head(data@, m) ==> !huge_size(data@, m) && !record,
        decreases data@.len() - i,
    {
        if data[i + 156] == 0x53 && data[i + 482] == 1 {
            assert(sparse_head(data@, i as int));
            if record || (data[i + 124] >= 0x80 && data[i + 128] >= 0x80) {
                return true;
            }
        }
        assert forall|m: int|
            0 <= m < i + 512 && #[trigger] sparse_head(data@, m) implies !huge_size(data@, m)
            && !record by {
            if m >= i {
                assert(m == i);
            }
        }
        i += 512;
    }
    assert forall|m: int| #[trigger] sparse_head(data@, m) implies m < i by {}
    false
}

/// `flate2::read::GzDecoder`: all bytes that it reads, or those before the first error. They
/// are a function of the compressed bytes, and `gunzipped` names them. Where there is an error
/// they are read one by one, as a longer read that meets it gives none of its bytes: no reader
/// gets more of them.
#[verifier::external_body]
fn gunzip(data: &Vec<u8>) -> (r: Vec<u8>)
    ensures
        r@ == gunzipped(data@),
{
    let mut out = Vec::new();
    match flate2::read::GzDecoder::new(data.as_slice()).read_to_end(&mut out) {
        Ok(_) => out,
        Err(_) => flate2::read::GzDecoder::new(data.as_slice()).bytes().map_while(|b| b.ok()).collect(),
    }
}

/// `tar::Archive::entries` and `tar::Entry::path` of each entry, up to the first error:
/// the bytes of the paths, and the error. Both are a function of the bytes of the archive,
/// and `tar_listing` names them. The sum that gives the next position, which panics where it
/// does not fit, is left in bounds by the sizes that are let in: below 2^63, as is the length
/// of the data.
#[verifier::external_body]
fn list_tar(data: &Vec<u8>) -> (r: Listing)
    requires
        !overflows(data@),
    ensures
        listing_view(r) == tar_listing(data@),
{
    let mut archive = tar::Archive::new(data.as_slice());
    let mut paths = Vec::new();
    let entries = match archive.entries() {
        Ok(e) => e,
        Err(e) => return (paths, Some((ArchiveStage::Entries, e.to_string()))),
    };
    for entry in entries {
        match entry.map(|e| e.path().map(|p| p.as_os_str().as_encoded_bytes().to_vec())) {
            Ok(Ok(p)) => paths.push(p),
            Ok(Err(e)) => return (paths, Some((ArchiveStage::Path, e.to_string()))),
            Err(e) => return (paths, Some((ArchiveStage::Entry, e.to_string()))),
        }
    }
    (paths, None)
}

/// The same of what `flate2::read::GzDecoder` reads from the bytes; `gzip_listing` names
/// it. Nothing is read but what `gunzipped` names.
#[verifier::external_body]
fn list_gzip(data: &Vec<u8>) -> (r: Listing)
    requires
        !overflows(gunzipped(data@)),
    ensures
        listing_view(r) == gzip_listing(data@),
{
    let mut archive = tar::Archive::new(flate2::read::GzDecoder::new(data.as_slice()));
    let mut paths = Vec::new();
    let entries = match archive.entries() {
        Ok(e) => e,
        Err(e) => return (paths, Some((ArchiveStage::Entries, e.to_string()))),
    };
    for entry in entries {
        match entry.map(|e| e.path().map(|p| p.as_os_str().as_encoded_bytes().to_vec())) {
            Ok(Ok(p)) => paths.push(p),
            Ok(Err(e)) => return (paths, Some((ArchiveStage::Path, e.to_string()))),
            Err(e) => return (paths, Some((ArchiveStage::Entry, e.to_string()))),
        }
    }
    (paths, None)
}

/// What is done with the entries of a layer, in order, and what comes of it.
#[derive(Debug, PartialEq, Eq)]
pub struct LayerPlan {
    pub actions: Vec<EntryAction>,
    pub outcome: Result<(), String>,
}

/// The contents of a `LayerPlan`.
#[verifier::ext_equal]
pub struct LayerPlanView {
    pub actions: Seq<EntryActionView>,
    pub outcome: Result<(), Seq<char>>,
}

impl View for LayerPlan {
    type V = LayerPlanView;

    open spec fn view(&self) -> LayerPlanView {
        LayerPlanView {
            actions: self.actions@.map_values(|a: EntryAction| a@),
            outcome: match self.outcome {
                Ok(_) => Ok(()),
                Err(e) => Err(e@),
            },
        }
    }
}

/// How a failure to read an archive is reported.
pub open spec fn archive_failure(stage: ArchiveStage, e: Seq<char>) -> Seq<char> {
    match stage {
        ArchiveStage::Entries => "tar entries error: "@ + e,
        ArchiveStage::Entry => "tar entry error: "@ + e,
        ArchiveStage::Path => "tar path error: "@ + e,
    }
}

/// What is done with the entries that an archive lists.
pub open spec fn entries_plan(
    listing: (Seq<Seq<u8>>, Option<(ArchiveStage, Seq<char>)>),
    dest: Seq<char>,
) -> LayerPlanView {
    LayerPlanView {
        actions: listing.0.map_values(|p: Seq<u8>| entry_plan(p, dest)),
        outcome: match listing.1 {
            Some((stage, e)) => Err(archive_failure(stage, e)),
            None => Ok(()),
        },
    }
}

/// What is done with the entries that an archive lists, for the image in `dest`.
pub fn extract_tar_entries(listing: Listing, dest: &str) -> (r: LayerPlan)
    ensures
        r@ == entries_plan(listing_view(listing), dest@),
{
    let (paths, problem) = listing;
    let ghost all = paths@.map_values(|p: Vec<u8>| p@);
    let ghost f = |p: Seq<u8>| entry_plan(p, dest@);
    let ghost view = |a: EntryAction| a@;
    let mut actions: Vec<EntryAction> = Vec::new();
    let mut i: usize = 0;
    assert(actions@.map_values(view) =~= all.take(0).map_values(f));
    while i < paths.len()
        invariant
            i <= paths@.len(),
            all == paths@.map_values(|p: Vec<u8>| p@),
            f == (|p: Seq<u8>| entry_plan(p, dest@)),
            view == (|a: EntryAction| a@),
            actions@.map_values(view) == all.take(i as int).map_values(f),
        decreases paths@.len() - i,
    {
        let ghost was = actions@.map_values(view);
        let action = entry_action(&paths[i], dest);
        assert(action@ == f(all[i as int]));
        actions.push(action);
        proof {
            assert(actions@.map_values(view) =~= was.push(f(all[i as int])));
            assert(all.take(i + 1) =~= all.take(i as int).push(all[i as int]));
            assert(actions@.map_values(view) =~= all.take(i + 1).map_values(f));
        }
        i += 1;
    }
    assert(all.take(i as int) =~= all);
    let outcome = match problem {
        Some((stage, e)) => Err(
            match stage {
                ArchiveStage::Entries => cat2("tar entries error: ", e.as_str()),
                ArchiveStage::Entry => cat2("tar entry error: ", e.as_str()),
                ArchiveStage::Path => cat2("tar path error: ", e.as_str()),
            },
        ),
        None => Ok(()),
    };
    LayerPlan { actions, outcome }
}

/// A layer that is refused as a whole, because a sparse file in it is too large.
pub open spec fn refused_layer() -> LayerPlanView {
    LayerPlanView {
        actions: Seq::empty(),
        outcome: Err(archive_failure(ArchiveStage::Entry, "a sparse file is too large"@)),
    }
}

fn refuse_layer() -> (r: LayerPlan)
    ensures
        r@ == refused_layer(),
{
    let r = LayerPlan {
        actions: Vec::new(),
        outcome: Err(cat2("tar entry error: ", "a sparse file is too large")),
    };
    assert(r@.actions =~= Seq::empty());
    r
}

/// What is done with the entries of a layer of the image in `dest`; a layer of another
/// kind is passed over.
pub fn extract_layer(data: &Vec<u8>, media_type: &str, dest: &str) -> (r: LayerPlan)
    ensures
        r@ == if occurs(media_type@, "gzip"@) {
            if overflows(gunzipped(data@)) {
                refused_layer()
            } else {
                entries_plan(gzip_listing(data@), dest@)
            }
        } else if occurs(media_type@, "tar"@) {
            if overflows(data@) {
                refused_layer()
            } else {
                entries_plan(tar_listing(data@), dest@)
            }
        } else {
            LayerPlanView { actions: Seq::empty(), outcome: Ok(()) }
        },
{
    match layer_format(media_type) {
        LayerFormat::Gzip => if has_overflow(&gunzip(data)) {
            refuse_layer()
        } else {
            extract_tar_entries(list_gzip(data), dest)
        },
        LayerFormat::Tar => if has_overflow(data) {
            refuse_layer()
        } else {
            extract_tar_entries(list_tar(data), dest)
        },
        LayerFormat::Unknown => {
            let r = LayerPlan { actions: Vec::new(), outcome: Ok(()) };
            assert(r@.actions =~= Seq::empty());
            r
        },
    }
}

// ---------------------------------------------------------------------------
// Entry points
// ---------------------------------------------------------------------------

/// The strings of a list, in order, without what is no string.
pub open spec fn present(v: Seq<Option<Seq<char>>>) -> Seq<Seq<char>>
    decreases v.len(),
{
    if v.len() == 0 {
        Seq::empty()
    } else {
        match v.last() {
            Some(s) => present(v.drop_last()).push(s),
            None => present(v.drop_last()),
        }
    }
}

/// The strings of a list, in order, without what is no string.
fn only_texts(v: &Vec<Option<String>>) -> (r: Vec<String>)
    ensures
        texts(r@) == present(opt_list(v@)),
{
    let ghost all = opt_list(v@);
    let mut out: Vec<String> = Vec::new();
    let mut i: usize = 0;
    assert(all.take(0) =~= Seq::empty());
    assert(texts(out@) =~= Seq::empty());
    while i < v.len()
        invariant
            i <= v.len(),
            all == opt_list(v@),
            texts(out@) == present(all.take(i as int)),
        decreases v.len() - i,
    {
        let ghost was = texts(out@);
        proof {
            assert(all.take(i + 1).drop_last() =~= all.take(i as int));
            assert(all.take(i + 1).last() == opt_text(v@[i as int]));
        }
        match &v[i] {
            Some(s) => {
                out.push(s.clone());
                assert(texts(out@) =~= was.push(s@));
            },
            None => {},
        }
        i += 1;
    }
    assert(all.take(i as int) =~= all);
    out
}

/// The words of a command in an image's configuration: none where it is missing or
/// holds no string.
pub open spec fn command_words(list: Option<Seq<Option<Seq<char>>>>) -> Option<Seq<Seq<char>>> {
    match list {
        Some(v) => if present(v).len() > 0 {
            Some(present(v))
        } else {
            None
        },
        None => None,
    }
}

/// The words of an image's entry point, or of its command where it has none.
pub open spec fn chosen_command(
    entrypoint: Option<Seq<Option<Seq<char>>>>,
    cmd: Option<Seq<Option<Seq<char>>>>,
) -> Option<Seq<Seq<char>>> {
    match command_words(entrypoint) {
        Some(w) => Some(w),
        None => command_words(cmd),
    }
}

/// The contents of an optional list of optional strings.
pub open spec fn opt_opt_list(o: Option<Vec<Option<String>>>) -> Option<Seq<Option<Seq<char>>>> {
    match o {
        Some(v) => Some(opt_list(v@)),
        None => None,
    }
}

/// The words of a command that an image's configuration holds.
fn words_of(list: &Option<Vec<Option<String>>>) -> (r: Option<Vec<String>>)
    ensures
        match r {
            Some(w) => command_words(opt_opt_list(*list)) == Some(texts(w@)),
            None => command_words(opt_opt_list(*list)) is None,
        },
{
    match list {
        Some(v) => {
            let words = only_texts(v);
            assert(texts(words@).len() == words@.len());
            if words.len() > 0 {
                Some(words)
            } else {
                None
            }
        },
        None => None,
    }
}

/// The words of an image's entry point, or of its command where it has none.
pub fn choose_command(
    entrypoint: &Option<Vec<Option<String>>>,
    cmd: &Option<Vec<Option<String>>>,
) -> (r: Option<Vec<String>>)
    ensures
        match r {
            Some(w) => chosen_command(opt_opt_list(*entrypoint), opt_opt_list(*cmd)) == Some(
                texts(w@),
            ) && w@.len() > 0,
            None => chosen_command(opt_opt_list(*entrypoint), opt_opt_list(*cmd)) is None,
        },
{
    let first = words_of(entrypoint);
    match first {
        Some(w) => {
            assert(texts(w@).len() == w@.len());
            Some(w)
        },
        None => {
            let second = words_of(cmd);
            match second {
                Some(w) => {
                    assert(texts(w@).len() == w@.len());
                    Some(w)
                },
                None => None,
            }
        },
    }
}

/// The words of the command that an image's configuration asks for.
pub open spec fn image_words(config: Seq<char>) -> Option<Seq<Seq<char>>> {
    chosen_command(
        json_text_list(config, "config"@, "Entrypoint"@),
        json_text_list(config, "config"@, "Cmd"@),
    )
}

/// The words of the command that an image's configuration asks for.
pub fn image_command(config: &str) -> (r: Option<Vec<String>>)
    ensures
        match r {
            Some(w) => image_words(config@) == Some(texts(w@)) && w@.len() > 0,
            None => image_words(config@) is None,
        },
{
    let entrypoint = text_list(config, "config", "Entrypoint");
    let cmd = text_list(config, "config", "Cmd");
    choose_command(&entrypoint, &cmd)
}

/// The places where a program of an image may be, in the order of preference.
pub open spec fn candidates(dir: Seq<char>, bin: Seq<char>) -> Seq<Seq<char>> {
    if bin.len() > 0 && bin[0] == '/' {
        seq![joined(dir, bin.skip(1)), joined(dir, bin)]
    } else {
        seq![joined(dir, bin)]
    }
}

/// The first place that exists, or the program as it is written.
pub open spec fn resolved(dir: Seq<char>, bin: Seq<char>, existing: Seq<Seq<char>>) -> Seq<char> {
    let c = candidates(dir, bin);
    if existing.contains(c[0]) {
        c[0]
    } else if c.len() > 1 && existing.contains(c[1]) {
        c[1]
    } else {
        bin
    }
}

/// The places where a program of an image may be.
pub fn binary_candidates(dir: &str, bin: &str) -> (r: Vec<String>)
    ensures
        texts(r@) == candidates(dir@, bin@),
        r@.len() >= 1,
{
    let mut out: Vec<String> = Vec::new();
    let n = bin.unicode_len();
    if n > 0 && bin.get_char(0) == '/' {
        let relative = slice(bin, 1, n);
        assert(relative@ =~= bin@.skip(1));
        out.push(join(dir, relative.as_str()));
    }
    out.push(join(dir, bin));
    assert(texts(out@) =~= candidates(dir@, bin@));
    out
}

/// The program of an image: the first candidate that is among the `existing` paths,
/// or the program as it is written.
pub fn resolve_binary(dir: &str, bin: &str, existing: &Vec<String>) -> (r: String)
    ensures
        r@ == resolved(dir@, bin@, texts(existing@)),
{
    let c = binary_candidates(dir, bin);
    assert(candidates(dir@, bin@)[0] == c@[0]@);
    if has_text(existing, c[0].as_str()) {
        return c[0].clone();
    }
    if c.len() > 1 {
        assert(candidates(dir@, bin@)[1] == c@[1]@);
        if has_text(existing, c[1].as_str()) {
            return c[1].clone();
        }
    }
    bin.to_string()
}

/// A file that a search found.
#[derive(Debug, PartialEq, Eq)]
pub struct FoundFile {
    pub path: String,
    /// Whether it is a regular file.
    pub is_file: bool,
    /// Its permission bits.
    pub mode: u32,
}

/// Whether anyone may execute a file with these permission bits.
pub open spec fn executable(mode: u32) -> bool {
    mode & 0o111 != 0
}

/// Whether anyone may execute a file with these permission bits.
pub fn is_executable(mode: u32) -> (r: bool)
    ensures
        r == executable(mode),
{
    mode & 0o111 != 0
}

/// The first regular file that can be executed.
pub open spec fn first_program(found: Seq<FoundFile>) -> Option<Seq<char>>
    decreases found.len(),
{
    if found.len() == 0 {
        None
    } else if found[0].is_file && executable(found[0].mode) {
        Some(found[0].path@)
    } else {
        first_program(found.skip(1))
    }
}

fn first_executable(found: &Vec<FoundFile>) -> (r: Option<String>)
    ensures
        opt_text(r) == first_program(found@),
{
    let mut i: usize = 0;
    assert(found@.skip(0) =~= found@);
    while i < found.len()
        invariant
            i <= found.len(),
            first_program(found@) == first_program(found@.skip(i as int)),
        decreases found.len() - i,
    {
        proof {
            assert(found@.skip(i as int)[0] == found@[i as int]);
            assert(found@.skip(i as int).skip(1) =~= found@.skip(i + 1));
        }
        if found[i].is_file && is_executable(found[i].mode) {
            return Some(found[i].path.clone());
        }
        i += 1;
    }
    None
}

/// The directories of an image that are searched for a program, in order.
pub open spec fn search_paths(dir: Seq<char>) -> Seq<Seq<char>> {
    seq![
        joined(dir, "usr/local/bin"@),
        joined(dir, "usr/bin"@),
        joined(dir, "bin"@),
        joined(dir, "app"@),
        joined(dir, "."@),
    ]
}

/// The directories of an image that are searched for a program, in order.
pub fn search_dirs(dir: &str) -> (r: Vec<String>)
    ensures
        texts(r@) == search_paths(dir@),
{
    let mut out: Vec<String> = Vec::new();
    out.push(join(dir, "usr/local/bin"));
    out.push(join(dir, "usr/bin"));
    out.push(join(dir, "bin"));
    out.push(join(dir, "app"));
    out.push(join(dir, "."));
    assert(texts(out@) =~= search_paths(dir@));
    out
}

/// The program of an image and its first arguments, given the words of the command
/// that its configuration asks for, the paths that exist and the files that the
/// search directories hold, in order.
pub open spec fn entry_point(
    dir: Seq<char>,
    words: Option<Seq<Seq<char>>>,
    existing: Seq<Seq<char>>,
    found: Seq<FoundFile>,
) -> Result<(Seq<char>, Seq<Seq<char>>), Seq<char>> {
    match words {
        Some(w) => Ok((resolved(dir, w[0], existing), w.skip(1))),
        None => match first_program(found) {
            Some(p) => Ok((p, Seq::empty())),
            None => Err("no entrypoint found in OCI image at "@ + dir),
        },
    }
}

/// The contents of an entry point.
pub open spec fn entry_view(r: Result<(String, Vec<String>), String>) -> Result<
    (Seq<char>, Seq<Seq<char>>),
    Seq<char>,
> {
    match r {
        Ok((p, a)) => Ok((p@, texts(a@))),
        Err(e) => Err(e@),
    }
}

/// The words of a command behind the first.
fn rest_of(words: &Vec<String>) -> (r: Vec<String>)
    requires
        words@.len() > 0,
    ensures
        texts(r@) == texts(words@).skip(1),
{
    let mut out: Vec<String> = Vec::new();
    let mut i: usize = 1;
    while i < words.len()
        invariant
            1 <= i <= words.len(),
            texts(out@) == texts(words@).subrange(1, i as int),
        decreases words.len() - i,
    {
        let ghost was = texts(out@);
        out.push(words[i].clone());
        proof {
            assert(texts(out@) =~= was.push(texts(words@)[i as int]));
            assert(texts(out@) =~= texts(words@).subrange(1, i + 1));
        }
        i += 1;
    }
    assert(texts(words@).subrange(1, i as int) =~= texts(words@).skip(1));
    out
}

/// The program of an image, given the words of its command.
pub fn choose_entrypoint(
    dir: &str,
    words: &Option<Vec<String>>,
    existing: &Vec<String>,
    found: &Vec<FoundFile>,
) -> (r: Result<(String, Vec<String>), String>)
    requires
        words matches Some(w) ==> w@.len() > 0,
    ensures
        entry_view(r) == entry_point(
            dir@,
            match *words {
                Some(w) => Some(texts(w@)),
                None => None,
            },
            texts(existing@),
            found@,
        ),
{
    match words {
        Some(w) => {
            assert(texts(w@)[0] == w@[0]@);
            Ok((resolve_binary(dir, w[0].as_str(), existing), rest_of(w)))
        },
        None => match first_executable(found) {
            Some(p) => {
                let none: Vec<String> = Vec::new();
                assert(texts(none@) =~= Seq::empty());
                Ok((p, none))
            },
            None => Err(cat2("no entrypoint found in OCI image at ", dir)),
        },
    }
}

/// The program of an image and its first arguments. `config` is the text of the
/// image's configuration, missing where its file cannot be read.
pub fn find_entrypoint(
    dir: &str,
    config: &Option<String>,
    existing: &Vec<String>,
    found: &Vec<FoundFile>,
) -> (r: Result<(String, Vec<String>), String>)
    ensures
        entry_view(r) == entry_point(
            dir@,
            match *config {
                Some(data) => image_words(data@),
                None => None,
            },
            texts(existing@),
            found@,
        ),
{
    let words = match config {
        Some(data) => image_command(data.as_str()),
        None => None,
    };
    choose_entrypoint(dir, &words, existing, found)
}

// ---------------------------------------------------------------------------
// What an image starts, and what it is called
// ---------------------------------------------------------------------------

/// The words of a list are its texts, in order; what is no text is passed over.
pub proof fn law_present(v: Seq<Option<Seq<char>>>, s: Seq<char>, words: Seq<Seq<char>>)
    ensures
        present(v.push(Some(s))) == present(v).push(s),
        present(v.push(None)) == present(v),
        present(words.map_values(|w: Seq<char>| Some(w))) == words,
    decreases words.len(),
{
    assert(v.push(Some(s)).drop_last() =~= v);
    assert(v.push(None).drop_last() =~= v);
    let f = |w: Seq<char>| Some(w);
    let all = words.map_values(f);
    if words.len() > 0 {
        law_present(v, s, words.drop_last());
        assert(all.drop_last() =~= words.drop_last().map_values(f));
        assert(present(all) =~= words);
    } else {
        assert(present(all) =~= words);
    }
}

/// The command of an image is its entry point where that has words, and else its command; what
/// has words in neither has none.
pub proof fn law_image_words(
    config: Seq<char>,
    entrypoint: Option<Seq<Seq<char>>>,
    cmd: Option<Seq<Seq<char>>>,
)
    requires
        json_text_list(config, "config"@, "Entrypoint"@) == (match entrypoint {
            Some(w) => Some(w.map_values(|s: Seq<char>| Some(s))),
            None => None,
        }),
        json_text_list(config, "config"@, "Cmd"@) == (match cmd {
            Some(w) => Some(w.map_values(|s: Seq<char>| Some(s))),
            None => None,
        }),
    ensures
        entrypoint matches Some(w) ==> w.len() > 0 ==> image_words(config) == Some(w),
        (entrypoint is None || entrypoint->Some_0.len() == 0) ==> (cmd matches Some(w) ==> w.len()
            > 0 ==> image_words(config) == Some(w)),
        (entrypoint is None || entrypoint->Some_0.len() == 0) && (cmd is None
            || cmd->Some_0.len() == 0) ==> image_words(config) is None,
{
    let e = Seq::<char>::empty();
    if let Some(w) = entrypoint {
        law_present(Seq::empty(), e, w);
    }
    if let Some(w) = cmd {
        law_present(Seq::empty(), e, w);
    }
}

/// A program of an image is looked for below the image's directory, an absolute one too, and is
/// that file where it exists; else it stays as it is named.
pub proof fn law_resolved(dir: Seq<char>, path: Seq<char>, existing: Seq<Seq<char>>)
    requires
        dir.len() > 0 && dir.last() != '/',
        path.len() == 0 || path[0] != '/',
    ensures
        existing.contains(dir + seq!['/'] + path) ==> resolved(dir, path, existing) == dir
            + seq!['/'] + path && resolved(dir, seq!['/'] + path, existing) == dir + seq!['/']
            + path,
        !existing.contains(dir + seq!['/'] + path) ==> resolved(dir, path, existing) == path
            && resolved(dir, seq!['/'] + path, existing) == seq!['/'] + path,
{
    let full = seq!['/'] + path;
    assert(full.skip(1) =~= path);
}

/// The entry point of an image: for words, what the first one resolves to with the other words as
/// arguments; else the first file that was found and can be executed, without arguments; else
/// there is none.
pub proof fn law_entry_point(
    dir: Seq<char>,
    words: Seq<Seq<char>>,
    existing: Seq<Seq<char>>,
    others: Seq<FoundFile>,
    program: FoundFile,
    rest: Seq<FoundFile>,
)
    requires
        words.len() > 0,
        forall|i: int|
            0 <= i < others.len() ==> !(#[trigger] others[i]).is_file || others[i].mode & 0o111 == 0,
        program.is_file,
        program.mode & 0o111 != 0,
    ensures
        entry_point(dir, Some(words), existing, others) == Ok::<_, Seq<char>>(
            (resolved(dir, words[0], existing), words.skip(1)),
        ),
        entry_point(dir, None, existing, others.push(program) + rest) == Ok::<_, Seq<char>>(
            (program.path@, Seq::<Seq<char>>::empty()),
        ),
        entry_point(dir, None, existing, others) == Err::<(Seq<char>, Seq<Seq<char>>), _>(
            "no entrypoint found in OCI image at "@ + dir,
        ),
{
    lemma_first_program(others, program, rest);
}

proof fn lemma_first_program(others: Seq<FoundFile>, program: FoundFile, rest: Seq<FoundFile>)
    requires
        forall|i: int|
            0 <= i < others.len() ==> !(#[trigger] others[i]).is_file || others[i].mode & 0o111 == 0,
        program.is_file,
        program.mode & 0o111 != 0,
    ensures
        first_program(others.push(program) + rest) == Some(program.path@),
        first_program(others) is None,
    decreases others.len(),
{
    let all = others.push(program) + rest;
    if others.len() > 0 {
        assert(all[0] == others[0]);
        assert(all.skip(1) =~= others.skip(1).push(program) + rest);
        assert forall|i: int| 0 <= i < others.skip(1).len() implies !(
        #[trigger] others.skip(1)[i]).is_file || others.skip(1)[i].mode & 0o111 == 0 by {
            assert(others.skip(1)[i] == others[i + 1]);
        }
        lemma_first_program(others.skip(1), program, rest);
    } else {
        assert(all[0] == program);
    }
}

/// A file can be executed where its owner, its group or others may.
pub proof fn law_executable(mode: u32)
    ensures
        executable(mode) <==> mode & 0o100 != 0 || mode & 0o010 != 0 || mode & 0o001 != 0,
{
    assert(mode & 0o111 != 0 <==> mode & 0o100 != 0 || mode & 0o010 != 0 || mode & 0o001 != 0)
        by (bit_vector);
}

/// The name of an image is the last part of its reference, without a tag and without a digest.
pub proof fn law_image_name(place: Seq<char>, name: Seq<char>, rest: Seq<char>)
    requires
        !name.contains('/') && !name.contains(':') && !name.contains('@'),
        !rest.contains('/'),
    ensures
        image_name(name) == name,
        image_name(place + seq!['/'] + name) == name,
        image_name(place + seq!['/'] + name + seq![':'] + rest) == name,
        image_name(place + seq!['/'] + name + seq!['@'] + rest) == name,
        image_name(name + seq![':'] + rest) == name,
        image_name(name + seq!['@'] + rest) == name,
{
    let e = Seq::<char>::empty();
    let tagged = name + seq![':'] + rest;
    let fixed = name + seq!['@'] + rest;
    lemma_no_slash(name, ':', rest);
    lemma_no_slash(name, '@', rest);
    lemma_last_part(e, name, false);
    lemma_last_part(e, tagged, false);
    lemma_last_part(e, fixed, false);
    lemma_last_part(place, name, true);
    lemma_last_part(place, tagged, true);
    lemma_last_part(place, fixed, true);
    assert(place + seq!['/'] + tagged =~= place + seq!['/'] + name + seq![':'] + rest);
    assert(place + seq!['/'] + fixed =~= place + seq!['/'] + name + seq!['@'] + rest);
    lemma_cut_at(name, ':', rest);
    lemma_cut_at(name, '@', rest);
    lemma_cut_at(name, ':', e);
    lemma_cut_at(name, '@', e);
    // A digest may hold a colon.
    crate::text::lemma_find(fixed, ':');
    let k = crate::text::find(fixed, ':');
    assert(k > name.len()) by {
        if k < name.len() {
            assert(name[k] == ':');
            assert(name.contains(':'));
        }
        assert(fixed[name.len() as int] == '@');
    }
    let kept = fixed.subrange((name.len() + 1) as int, k);
    assert(before(fixed, ':') =~= name + seq!['@'] + kept);
    lemma_cut_at(name, '@', kept);
}

proof fn lemma_no_slash(name: Seq<char>, c: char, rest: Seq<char>)
    requires
        !name.contains('/') && !rest.contains('/') && c != '/',
    ensures
        !(name + seq![c] + rest).contains('/'),
{
    let s = name + seq![c] + rest;
    assert forall|i: int| 0 <= i < s.len() implies s[i] != '/' by {
        if i < name.len() {
            assert(name.contains(s[i]));
        } else if i > name.len() {
            assert(s[i] == rest[i - name.len() - 1]);
            assert(rest.contains(s[i]));
        }
    }
}

proof fn lemma_last_part(place: Seq<char>, name: Seq<char>, behind: bool)
    requires
        !name.contains('/'),
    ensures
        behind ==> after_last(place + seq!['/'] + name, '/') == name,
        after_last(name, '/') == name,
{
    assert forall|i: int| 0 <= i < name.len() implies name[i] != '/' by {
        assert(name.contains(name[i]));
    }
    lemma_after_last(name, '/', 0);
    assert(name.skip(0) =~= name);
    let s = place + seq!['/'] + name;
    let n = place.len() + 1;
    assert forall|i: int| n <= i < s.len() implies s[i] != '/' by {
        assert(s[i] == name[i - n]);
    }
    assert(s[n - 1] == '/');
    lemma_after_last(s, '/', n as int);
    assert(s.skip(n as int) =~= name);
}

proof fn lemma_cut_at(a: Seq<char>, c: char, rest: Seq<char>)
    requires
        !a.contains(c),
    ensures
        before(a, c) == a,
        before(a + seq![c] + rest, c) == a,
{
    let s = a + seq![c] + rest;
    assert forall|i: int| 0 <= i < a.len() implies a[i] != c by {
        assert(a.contains(a[i]));
    }
    lemma_find_is(a, c, a.len() as int);
    assert(a.take(a.len() as int) =~= a);
    assert forall|i: int| 0 <= i < a.len() implies s[i] != c by {
        assert(s[i] == a[i]);
    }
    assert(s[a.len() as int] == c);
    lemma_find_is(s, c, a.len() as int);
    assert(s.take(a.len() as int) =~= a);
}

/// A reference names its registry where what stands before its first slash holds a dot or a
/// colon; it is then used as it is. Else it is looked for in the given registry, in the default
/// one among its library.
pub proof fn law_normalized(first: Seq<char>, rest: Seq<char>, registry: Seq<char>)
    requires
        !first.contains('/'),
    ensures
        first.contains('.') || first.contains(':') ==> normalized(
            first + seq!['/'] + rest,
            registry,
        ) == first + seq!['/'] + rest,
        !first.contains('.') && !first.contains(':') && registry != "docker.io"@ ==> normalized(
            first + seq!['/'] + rest,
            registry,
        ) == registry + "/"@ + (first + seq!['/'] + rest),
        !first.contains('.') && !first.contains(':') ==> normalized(
            first + seq!['/'] + rest,
            "docker.io"@,
        ) == "docker.io/library/"@ + (first + seq!['/'] + rest),
        registry != "docker.io"@ ==> normalized(first, registry) == registry + "/"@ + first,
        normalized(first, "docker.io"@) == "docker.io/library/"@ + first,
{
    let s = first + seq!['/'] + rest;
    lemma_cut_at(first, '/', rest);
    assert(s[first.len() as int] == '/');
    assert(s.contains('/'));
    reveal_strlit("docker.io");
    reveal_strlit("/library/");
    reveal_strlit("docker.io/library/");
    assert("docker.io"@ + "/library/"@ =~= "docker.io/library/"@);
}

/// A path is no image; what names a registry is one; and with other slashes, or with a name that
/// holds another character than those of short names, it is none.
pub proof fn law_is_image(first: Seq<char>, rest: Seq<char>, i: int)
    requires
        !first.contains('/'),
    ensures
        !is_image(seq!['/'] + rest),
        !is_image(seq!['.', '/'] + rest),
        !is_image(seq!['.', '.', '/'] + rest),
        first.len() > 0 && first[0] != '.' && (first.contains('.') || first.contains(':'))
            ==> is_image(first + seq!['/'] + rest),
        !first.contains('.') && !first.contains(':') ==> !is_image(first + seq!['/'] + rest),
        0 <= i < first.len() && !first.contains(':') && (first[i] == '.' || first[i] == ' '
            || first[i] == '@') ==> !is_image(first),
        !is_image(Seq::empty()),
{
    reveal_strlit("/");
    reveal_strlit("./");
    reveal_strlit("../");
    assert("/"@ =~= seq!['/']);
    assert("./"@ =~= seq!['.', '/']);
    assert("../"@ =~= seq!['.', '.', '/']);
    lemma_prefixed(seq!['/'], rest);
    lemma_prefixed(seq!['.', '/'], rest);
    lemma_prefixed(seq!['.', '.', '/'], rest);
    let s = first + seq!['/'] + rest;
    lemma_cut_at(first, '/', rest);
    assert(s[first.len() as int] == '/');
    assert(s.contains('/'));
    if first.len() > 0 && first[0] != '.' {
        assert(first.contains(first[0]));
        assert(s[0] == first[0]);
        lemma_not_local(s);
    }
    if 0 <= i < first.len() && !first.contains(':') {
        lemma_cut_at(first, ':', rest);
        if first[i] == '.' || first[i] == ' ' || first[i] == '@' {
            assert(before(first, ':')[i] == first[i]);
            assert(!simple_char(first[i]));
        }
    }
    assert(before(Seq::<char>::empty(), ':').len() == 0);
}

proof fn lemma_prefixed(a: Seq<char>, b: Seq<char>)
    ensures
        a.is_prefix_of(a + b),
{
    assert(a =~= (a + b).subrange(0, a.len() as int));
}

/// The default registry is that of the settings, and else the public one.
pub proof fn law_default_registry(data: Seq<char>, registry: Seq<char>)
    ensures
        registry_of(None) == "docker.io"@,
        json_text(data, "default-registry"@) == Some(registry) ==> registry_of(Some(data))
            == registry,
        json_text(data, "default-registry"@) is None ==> registry_of(Some(data)) == "docker.io"@,
{
}

/// An image is unpacked into a directory of its name.
pub proof fn law_image_dir(name: Seq<char>)
    requires
        name.len() == 0 || name[0] != '/',
    ensures
        image_dir(name) == "/var/run/nyrun/oci/"@ + name,
{
    reveal_strlit("/var/run/nyrun/oci");
    reveal_strlit("/var/run/nyrun/oci/");
    assert(image_dir(name) =~= "/var/run/nyrun/oci/"@ + name);
}

/// A rounded quotient lies as near as can be, and where two are as near it is the even one.
pub proof fn law_round_even(n: nat, d: nat)
    requires
        d > 0,
    ensures
        2 * (n - round_even(n, d) * d) <= d,
        2 * (round_even(n, d) * d - n) <= d,
        (2 * (n - round_even(n, d) * d) == d || 2 * (round_even(n, d) * d - n) == d)
            ==> round_even(n, d) % 2 == 0,
{
    let q = n / d;
    let r = n % d;
    vstd::arithmetic::div_mod::lemma_fundamental_div_mod(n as int, d as int);
    vstd::arithmetic::div_mod::lemma_mod_bound(n as int, d as int);
    assert(d * q == q * d) by (nonlinear_arith);
    assert((q + 1) * d == q * d + d) by (nonlinear_arith);
}

/// A size is told in bytes, or as the nearest number of kilobytes, or of tenths of a megabyte or a
/// gigabyte, each of 1024 of the one before.
pub proof fn law_size_text(bytes: nat) -> (t: nat)
    ensures
        bytes < 1_000 ==> size_text(bytes) == decimal(bytes) + " B"@,
        1_000 <= bytes < 1_000_000 ==> size_text(bytes) == decimal(t) + " KB"@ && 2 * (bytes - t
            * 1_024) <= 1_024 && 2 * (t * 1_024 - bytes) <= 1_024,
        1_000_000 <= bytes < 1_000_000_000 ==> size_text(bytes) == decimal(t / 10) + "."@ + decimal(
            t % 10,
        ) + " MB"@ && 2 * (bytes * 10 - t * 1_048_576) <= 1_048_576 && 2 * (t * 1_048_576 - bytes
            * 10) <= 1_048_576,
        1_000_000_000 <= bytes < 0x20_0000_0000_0000 ==> size_text(bytes) == decimal(t / 10) + "."@
            + decimal(t % 10) + " GB"@ && 2 * (bytes * 10 - t * 1_073_741_824) <= 1_073_741_824
            && 2 * (t * 1_073_741_824 - bytes * 10) <= 1_073_741_824,
{
    if bytes < 1_000_000 {
        law_round_even(bytes, 1_024);
        round_even(bytes, 1_024)
    } else if bytes < 1_000_000_000 {
        law_round_even(bytes * 10, 1_048_576);
        round_even(bytes * 10, 1_048_576)
    } else if bytes < 0x20_0000_0000_0000 {
        assert(nearest(bytes) == bytes) by {
            assert(spacing(bytes) == 1);
            law_round_even(bytes, 1);
        }
        law_round_even(bytes * 10, 1_073_741_824);
        round_even(bytes * 10, 1_073_741_824)
    } else {
        0
    }
}

/// The steps of a pull: the manifest, the directory, the configuration and its file, and then each
/// layer in the manifest's order, fetched and unpacked; the image stays the one that was asked for.
pub proof fn law_pull_order(p: PullView, found: Seq<Seq<char>>)
    requires
        p.valid(),
    ensures
        p.after(found) matches Some(q) ==> {
            &&& q.reference == p.reference && q.name == p.name
            &&& q.layers == if p.stage == PullStage::Manifest {
                found
            } else {
                p.layers
            }
            &&& p.stage == PullStage::Manifest ==> q.stage == PullStage::Directory
            &&& p.stage == PullStage::Directory ==> q.stage == PullStage::Config
            &&& p.stage == PullStage::Config ==> q.stage == PullStage::Save
            &&& p.stage == PullStage::Save ==> q.stage == PullStage::Layer && q.next == 0
            &&& p.stage == PullStage::Layer ==> q.stage == PullStage::Extract && q.next == p.next
            &&& p.stage == PullStage::Extract ==> q.stage == PullStage::Layer && q.next == p.next + 1
        },
        p.after(found) is None <==> (p.stage == PullStage::Save && p.layers.len() == 0) || (p.stage
            == PullStage::Extract && p.next + 1 == p.layers.len()),
{
}

/// What a failed step of a pull is told as.
pub proof fn law_pull_failure(p: PullView, e: Seq<char>)
    ensures
        p.stage == PullStage::Manifest ==> p.failure(e) == "failed to pull manifest: "@ + e,
        p.stage == PullStage::Config ==> p.failure(e) == "failed to pull config: "@ + e,
        p.stage == PullStage::Save ==> p.failure(e) == "failed to write config: "@ + e,
        p.stage == PullStage::Extract ==> p.failure(e) == e,
        p.stage == PullStage::Directory && (p.name.len() == 0 || p.name[0] != '/') ==> p.failure(e)
            == "failed to create dir "@ + ("/var/run/nyrun/oci/"@ + p.name) + ": "@ + e,
        p.stage == PullStage::Layer ==> p.failure(e) == "failed to pull layer "@ + p.layers[p.next]
            + ": "@ + e,
{
    if p.stage == PullStage::Directory && (p.name.len() == 0 || p.name[0] != '/') {
        law_image_dir(p.name);
    }
}

/// Every entry of a layer is looked at on its own and in order; a listing that broke off is told
/// after what it listed.
pub proof fn law_layer_entries(
    paths: Seq<Seq<u8>>,
    broken: Option<(ArchiveStage, Seq<char>)>,
    dest: Seq<char>,
    i: int,
)
    ensures
        ({
            let plan = entries_plan((paths, broken), dest);
            &&& plan.actions.len() == paths.len()
            &&& 0 <= i < paths.len() ==> plan.actions[i] == entry_plan(paths[i], dest)
            &&& broken is None <==> plan.outcome is Ok
            &&& broken matches Some((stage, e)) ==> plan.outcome == Err::<(), _>(
                (match stage {
                    ArchiveStage::Entries => "tar entries error: "@,
                    ArchiveStage::Entry => "tar entry error: "@,
                    ArchiveStage::Path => "tar path error: "@,
                }) + e,
            )
        }),
{
}

/// A whiteout removes what it names from what was unpacked before, at the top of the directory and
/// below it.
pub proof fn law_whiteout(dir: Seq<char>, name: Seq<char>, dest: Seq<char>)
    requires
        name.len() > 0 && name != seq!['.'] && name != seq!['.', '.'] && !name.contains('/'),
        spells_utf8(".wh."@ + name),
        dest.len() > 0 && dest.last() != '/',
        dir.len() > 0 && dir[0] != '/',
        after_last(dir, '/').len() > 0 && after_last(dir, '/') != seq!['.'],
        stays_within(components(dir)),
    ensures
        path_plan(".wh."@ + name, dest) == EntryActionView::Remove(dest + seq!['/'] + name),
        path_plan(dir + seq!['/'] + (".wh."@ + name), dest) == EntryActionView::Remove(
            dest + seq!['/'] + dir + seq!['/'] + name,
        ),
{
    let wh = ".wh."@ + name;
    lemma_whiteout_name(name);
    lemma_top_whiteout(name, dest);
    let path = dir + seq!['/'] + wh;
    let target = dir + seq!['/'] + name;
    law_parent(dir, wh);
    law_join_name(dir, wh);
    lemma_dir_open(dir);
    assert(joined(dir, wh) == path);
    assert(parent_or_empty(path) == dir);
    lemma_below_inside(dir, wh, dest);
    lemma_below_inside(dir, name, dest);
    let place = dest + seq!['/'] + dir;
    assert(joined(dest, dir) == place);
    assert(place.last() == dir.last());
    assert(name.contains(name[0]));
    assert(joined(place, name) =~= dest + seq!['/'] + dir + seq!['/'] + name);
    assert(joined(dest, target) =~= joined(place, name));
    lemma_prefixed(".wh."@, name);
}

/// The name of a whiteout holds no slash and is no dot; what it names follows its prefix.
proof fn lemma_whiteout_name(name: Seq<char>)
    requires
        name.len() > 0 && !name.contains('/'),
    ensures
        ({
            let wh = ".wh."@ + name;
            &&& wh.len() > 4 && wh[0] == '.' && wh[1] == 'w'
            &&& wh != seq!['.'] && wh != seq!['.', '.']
            &&& !wh.contains('/')
            &&& wh.skip(".wh."@.len() as int) == name
        }),
{
    reveal_strlit(".wh.");
    let wh = ".wh."@ + name;
    assert(wh[1] == 'w');
    assert forall|i: int| 0 <= i < wh.len() implies wh[i] != '/' by {
        if i >= 4 {
            assert(wh[i] == name[i - 4]);
            assert(name.contains(wh[i]));
        }
    }
    assert(wh.skip(4) =~= name);
}

/// A directory whose last piece is a name ends with no slash.
proof fn lemma_dir_open(dir: Seq<char>)
    requires
        after_last(dir, '/').len() > 0,
    ensures
        dir.len() > 0 && dir.last() != '/',
{
}

/// A name below a directory that stays within stays within.
proof fn lemma_below_inside(dir: Seq<char>, name: Seq<char>, dest: Seq<char>)
    requires
        name.len() > 0 && name != seq!['.'] && name != seq!['.', '.'] && !name.contains('/'),
        dir.len() > 0 && dir[0] != '/',
        stays_within(components(dir)),
    ensures
        is_inside(joined(dest, dir + seq!['/'] + name), dest),
{
    let path = dir + seq!['/'] + name;
    assert(path[0] == dir[0]);
    law_component_added(dir, name);
    law_ways_back(components(dir), name);
    law_join_inside(dest, path);
}

proof fn lemma_top_whiteout(name: Seq<char>, dest: Seq<char>)
    requires
        name.len() > 0 && name != seq!['.'] && name != seq!['.', '.'] && !name.contains('/'),
        spells_utf8(".wh."@ + name),
        dest.len() > 0 && dest.last() != '/',
    ensures
        path_plan(".wh."@ + name, dest) == EntryActionView::Remove(dest + seq!['/'] + name),
{
    let wh = ".wh."@ + name;
    lemma_whiteout_name(name);
    law_join_name(Seq::empty(), wh);
    assert(joined(Seq::empty(), wh) =~= wh);
    law_parent(Seq::empty(), wh);
    lemma_name_inside(wh, dest);
    lemma_name_inside(name, dest);
    assert(joined(dest, Seq::empty()) =~= dest + seq!['/']);
    assert(name.contains(name[0]));
    assert(joined(dest + seq!['/'], name) =~= dest + seq!['/'] + name);
    assert(joined(dest, name) =~= dest + seq!['/'] + name);
    lemma_prefixed(".wh."@, name);
}

proof fn lemma_name_inside(name: Seq<char>, dest: Seq<char>)
    requires
        name.len() > 0 && name != seq!['.'] && name != seq!['.', '.'] && !name.contains('/'),
    ensures
        is_inside(joined(dest, name), dest),
{
    assert(name.contains(name[0]));
    law_join_inside(dest, name);
    law_join_name(Seq::empty(), name);
    assert(joined(Seq::empty(), name) =~= name);
    lemma_one_component(name);
    lemma_no_way_back(components(name));
}

/// An archive without a sparse file is never refused.
pub proof fn law_plain_archive(data: Seq<u8>)
    requires
        forall|i: int|
            0 <= i && i % 512 == 0 && i + 512 <= data.len() ==> #[trigger] data[i + 156] != 0x53
                || data[i + 482] != 1,
    ensures
        !overflows(data),
{
    if overflows(data) {
        let i = choose|i: int| #[trigger]
            sparse_head(data, i) && (huge_size(data, i) || exists|j: int| #[trigger]
                huge_record(data, j));
        assert(data[i + 156] != 0x53 || data[i + 482] != 1);
    }
}

/// Where a program is looked for in an image without a command, in order.
pub proof fn law_search_order(dir: Seq<char>)
    requires
        dir.len() > 0 && dir.last() != '/',
    ensures
        search_paths(dir) == seq![
            dir + "/usr/local/bin"@,
            dir + "/usr/bin"@,
            dir + "/bin"@,
            dir + "/app"@,
            dir + "/."@,
        ],
{
    reveal_strlit("usr/local/bin");
    reveal_strlit("usr/bin");
    reveal_strlit("bin");
    reveal_strlit("app");
    reveal_strlit(".");
    reveal_strlit("/usr/local/bin");
    reveal_strlit("/usr/bin");
    reveal_strlit("/bin");
    reveal_strlit("/app");
    reveal_strlit("/.");
    assert(joined(dir, "usr/local/bin"@) =~= dir + "/usr/local/bin"@);
    assert(joined(dir, "usr/bin"@) =~= dir + "/usr/bin"@);
    assert(joined(dir, "bin"@) =~= dir + "/bin"@);
    assert(joined(dir, "app"@) =~= dir + "/app"@);
    assert(joined(dir, "."@) =~= dir + "/."@);
}

/// Settings that are not there or cannot be read start anew, and others are kept.
pub proof fn law_settings_base(data: Seq<char>)
    ensures
        settings_base(None) == "{}"@,
        json_kind(data) == JsonKind::Invalid ==> settings_base(Some(data)) == "{}"@,
        json_kind(data) != JsonKind::Invalid ==> settings_base(Some(data)) == data,
{
}

/// An entry that leads out of the directory is passed over.
pub proof fn law_outside_skipped(path: Seq<char>, dest: Seq<char>)
    requires
        path.len() == 0 || path[0] != '/',
        !stays_within(components(path)),
    ensures
        path_plan(path, dest) is Skip,
{
    law_join_inside(dest, path);
}

/// An archive with a sparse file whose size cannot be added up is refused.
pub proof fn law_huge_sparse(data: Seq<u8>, i: int, j: int)
    requires
        0 <= i && i % 512 == 0 && i + 512 <= data.len(),
        data[i + 156] == 0x53 && data[i + 482] == 1,
    ensures
        data[i + 124] >= 0x80 && data[i + 128] >= 0x80 ==> overflows(data),
        huge_record(data, j) ==> overflows(data),
{
    assert(sparse_head(data, i));
}

} // verus!
