//! What the user writes: environment files, argument strings, lists and port mappings.

use vstd::prelude::*;
use vstd::string::*;
use crate::number::{
    decimal, is_digit, law_parse_decimal, lemma_decimal, number_text, parse_u16, parsed,
};
use crate::path::{file_name, name_of};
use crate::protocol::{
    distinct_keys, env_of, opt_texts, set_var, PortMapping, PortMappingView,
};
use crate::text::{
    before, cat2, cat3, cat5, find, find_char, law_lines, law_split, law_trim, lemma_find,
    lemma_find_is,
    lemma_lines_concat, lemma_split_concat, lemma_split_whole, lemma_trim_cuts, lemma_trim_padded,
    lines, lines_of, opt_text, slice, split, split_on, strip_cr, texts, trim, trim_both, CharClass,
};

verus! {

// ---------------------------------------------------------------------------
// Environment files
// ---------------------------------------------------------------------------

/// A value without the white space, the double and the single quotes around it.
pub open spec fn unquoted(s: Seq<char>) -> Seq<char> {
    trim(trim(trim(s, CharClass::White), CharClass::Is('"')), CharClass::Is('\''))
}

/// The variable and the value that a line assigns; none on a blank line, on a
/// comment and on a line without an equals sign.
pub open spec fn assignment(line: Seq<char>) -> Option<(Seq<char>, Seq<char>)> {
    let t = trim(line, CharClass::White);
    if t.len() == 0 || t[0] == '#' || !t.contains('=') {
        None
    } else {
        Some((trim(before(t, '='), CharClass::White), unquoted(t.skip(find(t, '=') + 1))))
    }
}

/// The variables that the lines of an environment file set; a later line wins.
pub open spec fn env_of_lines(ls: Seq<Seq<char>>) -> Map<Seq<char>, Seq<char>>
    decreases ls.len(),
{
    if ls.len() == 0 {
        Map::empty()
    } else {
        match assignment(ls.last()) {
            Some((k, v)) => env_of_lines(ls.drop_last()).insert(k, v),
            None => env_of_lines(ls.drop_last()),
        }
    }
}

/// The assignment on one line.
fn read_assignment(line: &str) -> (r: Option<(String, String)>)
    ensures
        match r {
            Some((k, v)) => assignment(line@) == Some((k@, v@)),
            None => assignment(line@) is None,
        },
{
    let t = trim_both(line, CharClass::White);
    let n = t.as_str().unicode_len();
    if n == 0 || t.as_str().get_char(0) == '#' {
        return None;
    }
    let at = find_char(t.as_str(), '=');
    proof {
        lemma_find(t@, '=');
    }
    if at == n {
        return None;
    }
    let key = slice(t.as_str(), 0, at);
    let value = slice(t.as_str(), at + 1, n);
    proof {
        assert(key@ =~= before(t@, '='));
        assert(value@ =~= t@.skip(at + 1));
    }
    let bare = trim_both(value.as_str(), CharClass::White);
    let inner = trim_both(bare.as_str(), CharClass::Is('"'));
    Some((trim_both(key.as_str(), CharClass::White), trim_both(inner.as_str(), CharClass::Is('\''))))
}

/// The variables that the text of an environment file sets.
pub fn env_file_vars(content: &str) -> (r: Vec<(String, String)>)
    ensures
        env_of(r@) == env_of_lines(lines(content@)),
        distinct_keys(r@),
{
    let ls = lines_of(content);
    let ghost all = lines(content@);
    let mut vars: Vec<(String, String)> = Vec::new();
    let mut i: usize = 0;
    assert(all.take(0) =~= Seq::empty());
    while i < ls.len()
        invariant
            i <= ls.len(),
            texts(ls@) == all,
            env_of(vars@) == env_of_lines(all.take(i as int)),
            distinct_keys(vars@),
        decreases ls.len() - i,
    {
        proof {
            assert(all[i as int] == ls@[i as int]@);
            assert(all.take(i + 1).drop_last() =~= all.take(i as int));
        }
        match read_assignment(ls[i].as_str()) {
            Some((k, v)) => {
                set_var(&mut vars, k, v);
            },
            None => {},
        }
        i += 1;
    }
    assert(all.take(i as int) =~= all);
    vars
}

/// The variables of an environment file, or why the file could not be read.
pub fn parse_env_file(path: &str, content: Result<String, String>) -> (r: Result<
    Vec<(String, String)>,
    String,
>)
    ensures
        match content {
            Ok(text) => r is Ok && env_of(r->Ok_0@) == env_of_lines(lines(text@)) && distinct_keys(
                r->Ok_0@,
            ),
            Err(e) => r is Err && r->Err_0@ == "failed to read env file '"@ + path@ + "': "@ + e@,
        },
{
    match content {
        Ok(text) => Ok(env_file_vars(text.as_str())),
        Err(e) => Err(
            cat3("failed to read env file '", path, "': ").concat(e.as_str()),
        ),
    }
}

// ---------------------------------------------------------------------------
// Argument strings and lists
// ---------------------------------------------------------------------------

/// The words of a shell command line, as `shlex::split` finds them; none where a
/// quote is left open or a backslash ends the text.
pub uninterp spec fn shell_words(s: Seq<char>) -> Option<Seq<Seq<char>>>;

/// `shlex::split`: its words are a function of the text alone, and `shell_words`
/// names them.
#[verifier::external_body]
fn shlex_split(s: &str) -> (r: Option<Vec<String>>)
    ensures
        opt_texts(r) == shell_words(s@),
{
    shlex::split(s)
}

/// The words that a split gave, or none.
pub open spec fn words_or_none(words: Option<Seq<Seq<char>>>) -> Seq<Seq<char>> {
    match words {
        Some(w) => w,
        None => Seq::empty(),
    }
}

/// The words that a split gave, or none.
pub fn split_words(words: Option<Vec<String>>) -> (r: Vec<String>)
    ensures
        texts(r@) == words_or_none(opt_texts(words)),
{
    match words {
        Some(w) => w,
        None => {
            let none: Vec<String> = Vec::new();
            assert(texts(none@) =~= Seq::empty());
            none
        },
    }
}

/// The arguments that an argument string stands for.
pub open spec fn arguments(args: Option<Seq<char>>) -> Seq<Seq<char>> {
    match args {
        Some(s) => words_or_none(shell_words(s)),
        None => Seq::empty(),
    }
}

/// The arguments that an argument string stands for: none where it is missing or
/// cannot be split.
pub fn parse_args_string(args: &Option<String>) -> (r: Vec<String>)
    ensures
        texts(r@) == arguments(opt_text(*args)),
{
    match args {
        Some(s) => split_words(shlex_split(s.as_str())),
        None => split_words(None),
    }
}

/// The parts between the commas, without the white space around them.
pub open spec fn comma_list(o: Option<Seq<char>>) -> Seq<Seq<char>> {
    match o {
        Some(s) => split(s, ',').map_values(|p: Seq<char>| trim(p, CharClass::White)),
        None => Seq::empty(),
    }
}

/// The parts of a comma-separated list.
fn parse_list(list: &Option<String>) -> (r: Vec<String>)
    ensures
        texts(r@) == comma_list(opt_text(*list)),
{
    let mut out: Vec<String> = Vec::new();
    match list {
        Some(s) => {
            let parts = split_on(s.as_str(), ',');
            let ghost all = split(s@, ',');
            let mut i: usize = 0;
            while i < parts.len()
                invariant
                    i <= parts.len(),
                    texts(parts@) == all,
                    texts(out@) == all.take(i as int).map_values(
                        |p: Seq<char>| trim(p, CharClass::White),
                    ),
                decreases parts.len() - i,
            {
                let ghost was = texts(out@);
                assert(all[i as int] == parts@[i as int]@);
                out.push(trim_both(parts[i].as_str(), CharClass::White));
                proof {
                    assert(texts(out@) =~= was.push(trim(all[i as int], CharClass::White)));
                    assert(all.take(i + 1) =~= all.take(i as int).push(all[i as int]));
                    assert(texts(out@) =~= all.take(i + 1).map_values(
                        |p: Seq<char>| trim(p, CharClass::White),
                    ));
                }
                i += 1;
            }
            assert(all.take(i as int) =~= all);
        },
        None => {
            assert(texts(out@) =~= Seq::empty());
        },
    }
    out
}

/// The capabilities that a process is denied.
pub fn parse_deny(deny: &Option<String>) -> (r: Vec<String>)
    ensures
        texts(r@) == comma_list(opt_text(*deny)),
{
    parse_list(deny)
}

/// The paths that a process may use although input and output are denied.
pub fn parse_allow(allow: &Option<String>) -> (r: Vec<String>)
    ensures
        texts(r@) == comma_list(opt_text(*allow)),
{
    parse_list(allow)
}

// ---------------------------------------------------------------------------
// Port mappings
// ---------------------------------------------------------------------------

/// The port that a text spells.
pub open spec fn port_number(s: Seq<char>) -> Option<nat> {
    parsed(s, u16::MAX as nat)
}

/// Why a part of a port mapping is no port.
pub open spec fn invalid_port(s: Seq<char>) -> Seq<char> {
    "invalid port: "@ + s
}

/// The mapping of two port texts and a host, or the first part that is no port.
pub open spec fn ports_of(host: Option<Seq<char>>, public: Seq<char>, app: Seq<char>) -> Result<
    PortMappingView,
    Seq<char>,
> {
    match (port_number(public), port_number(app)) {
        (None, _) => Err(invalid_port(public)),
        (_, None) => Err(invalid_port(app)),
        (Some(p), Some(a)) => Ok(
            PortMappingView { host, public_port: p as u16, app_port: Some(a as u16) },
        ),
    }
}

/// What a port mapping means: `PORT`, `PUBLIC:APP` or `HOST:PUBLIC:APP`.
pub open spec fn mapping_of(s: Seq<char>) -> Result<PortMappingView, Seq<char>> {
    let parts = split(s, ':');
    if parts.len() == 1 {
        match port_number(parts[0]) {
            None => Err(invalid_port(parts[0])),
            Some(p) => Ok(
                PortMappingView { host: None, public_port: p as u16, app_port: None },
            ),
        }
    } else if parts.len() == 2 {
        ports_of(None, parts[0], parts[1])
    } else if parts.len() == 3 {
        ports_of(Some(parts[0]), parts[1], parts[2])
    } else {
        Err("invalid port mapping: "@ + s)
    }
}

/// One part of a port mapping.
fn parse_port(s: &str) -> (r: Result<u16, String>)
    ensures
        match r {
            Ok(p) => port_number(s@) == Some(p as nat),
            Err(e) => port_number(s@) is None && e@ == invalid_port(s@),
        },
{
    match parse_u16(s) {
        Some(p) => Ok(p),
        None => Err(cat2("invalid port: ", s)),
    }
}

/// Two ports behind an optional host.
fn parse_ports(host: Option<String>, public: &str, app: &str) -> (r: Result<PortMapping, String>)
    ensures
        match r {
            Ok(m) => ports_of(opt_text(host), public@, app@) == Ok::<_, Seq<char>>(m@),
            Err(e) => ports_of(opt_text(host), public@, app@) == Err::<PortMappingView, _>(e@),
        },
{
    let p: u16 = match parse_port(public) {
        Ok(p) => p,
        Err(e) => {
            return Err(e);
        },
    };
    let a: u16 = match parse_port(app) {
        Ok(a) => a,
        Err(e) => {
            return Err(e);
        },
    };
    Ok(PortMapping { host, public_port: p, app_port: Some(a) })
}

/// Reads a port mapping: `PORT`, `PUBLIC:APP` or `HOST:PUBLIC:APP`.
pub fn parse_port_mapping(port: &str) -> (r: Result<PortMapping, String>)
    ensures
        match r {
            Ok(m) => mapping_of(port@) == Ok::<_, Seq<char>>(m@),
            Err(e) => mapping_of(port@) == Err::<PortMappingView, _>(e@),
        },
{
    let parts = split_on(port, ':');
    let ghost all = split(port@, ':');
    assert(all.len() == parts@.len());
    assert(forall|i: int| 0 <= i < parts@.len() ==> all[i] == #[trigger] parts@[i]@);
    if parts.len() == 1 {
        match parse_port(parts[0].as_str()) {
            Ok(p) => Ok(PortMapping { host: None, public_port: p, app_port: None }),
            Err(e) => Err(e),
        }
    } else if parts.len() == 2 {
        parse_ports(None, parts[0].as_str(), parts[1].as_str())
    } else if parts.len() == 3 {
        parse_ports(Some(parts[0].clone()), parts[1].as_str(), parts[2].as_str())
    } else {
        Err(cat2("invalid port mapping: ", port))
    }
}

/// How a port mapping is written.
pub open spec fn mapping_text(m: PortMappingView) -> Seq<char> {
    match (m.host, m.app_port) {
        (Some(h), _) => h + ":"@ + decimal(m.public_port as nat) + ":"@ + decimal(
            m.upstream() as nat,
        ),
        (None, Some(a)) => decimal(m.public_port as nat) + ":"@ + decimal(a as nat),
        (None, None) => decimal(m.public_port as nat),
    }
}

/// Writes a port mapping.
pub fn port_text(m: &PortMapping) -> (r: String)
    ensures
        r@ == mapping_text(m@),
{
    let public = number_text(m.public_port as u64);
    match &m.host {
        Some(h) => {
            let app = number_text(m.upstream_port() as u64);
            cat5(h.as_str(), ":", public.as_str(), ":", app.as_str())
        },
        None => match m.app_port {
            Some(a) => cat3(public.as_str(), ":", number_text(a as u64).as_str()),
            None => public,
        },
    }
}

proof fn lemma_no_colon(n: nat)
    ensures
        !decimal(n).contains(':'),
{
    lemma_decimal(n);
    let d = decimal(n);
    if d.contains(':') {
        let i = choose|i: int| 0 <= i < d.len() && d[i] == ':';
        assert(is_digit(d[i]));
    }
}

/// A mapping that is written and read again comes back, with the port of the
/// process filled in where a host is named.
pub proof fn law_mapping_round_trip(m: PortMappingView)
    requires
        m.host matches Some(h) ==> !h.contains(':'),
    ensures
        mapping_of(mapping_text(m)) == Ok::<_, Seq<char>>(
            PortMappingView {
                app_port: if m.host is Some {
                    Some(m.upstream())
                } else {
                    m.app_port
                },
                ..m
            },
        ),
{
    reveal_strlit(":");
    let p = decimal(m.public_port as nat);
    lemma_no_colon(m.public_port as nat);
    lemma_split_whole(p, ':');
    law_parse_decimal(m.public_port as nat, u16::MAX as nat);
    let a = decimal(m.upstream() as nat);
    lemma_no_colon(m.upstream() as nat);
    lemma_split_whole(a, ':');
    law_parse_decimal(m.upstream() as nat, u16::MAX as nat);
    lemma_split_concat(p, a, ':');
    assert(p.push(':') + a =~= p + ":"@ + a);
    assert(split(p + ":"@ + a, ':') =~= seq![p, a]);
    if let Some(h) = m.host {
        lemma_split_whole(h, ':');
        lemma_split_concat(h, p + ":"@ + a, ':');
        assert(h.push(':') + (p + ":"@ + a) =~= h + ":"@ + p + ":"@ + a);
        assert(split(h + ":"@ + p + ":"@ + a, ':') =~= seq![h, p, a]);
    }
}

// ---------------------------------------------------------------------------
// Names
// ---------------------------------------------------------------------------

/// The name of a process: the one that was given, else the file name of its path.
pub open spec fn derived_name(path: Seq<char>, name: Option<Seq<char>>) -> Seq<char> {
    match (name, name_of(path)) {
        (Some(n), _) => n,
        (None, Some(f)) => f,
        (None, None) => "unknown"@,
    }
}

/// The name of a process: the one that was given, else the file name of its path.
pub fn derive_name(path: &str, name: &Option<String>) -> (r: String)
    ensures
        r@ == derived_name(path@, opt_text(*name)),
{
    match name {
        Some(n) => n.clone(),
        None => match file_name(path) {
            Some(f) => f,
            None => "unknown".to_string(),
        },
    }
}

// ---------------------------------------------------------------------------
// What a line of an environment file means
// ---------------------------------------------------------------------------

/// A text of white characters alone.
pub open spec fn all_white(s: Seq<char>) -> bool {
    forall|i: int| 0 <= i < s.len() ==> CharClass::White.holds(#[trigger] s[i])
}

/// A text of one character, any number of times.
pub open spec fn only(s: Seq<char>, c: char) -> bool {
    forall|i: int| 0 <= i < s.len() ==> #[trigger] s[i] == c
}

/// A name that an environment file can assign to.
pub open spec fn is_key(key: Seq<char>) -> bool {
    &&& !key.contains('=')
    &&& key.len() > 0 ==> key[0] != '#'
    &&& forall|i: int| 0 <= i < key.len() ==> !CharClass::White.holds(#[trigger] key[i])
}

/// A value that stands in an environment file as it is: no quote and no white character at
/// either end.
pub open spec fn is_plain_value(v: Seq<char>) -> bool {
    v.len() > 0 ==> {
        &&& v[0] != '"' && v[0] != '\'' && !CharClass::White.holds(v[0])
        &&& v.last() != '"' && v.last() != '\'' && !CharClass::White.holds(v.last())
    }
}

/// A line `KEY=VALUE` sets the key to the value exactly, whatever the value holds inside; white
/// space around the key, the equals sign and the value, and quotes around the value, do not
/// count.
pub proof fn law_assignment(
    key: Seq<char>,
    value: Seq<char>,
    w: Seq<Seq<char>>,
    double: (Seq<char>, Seq<char>),
    single: (Seq<char>, Seq<char>),
)
    requires
        is_key(key),
        is_plain_value(value),
        w.len() == 4,
        all_white(w[0]) && all_white(w[1]) && all_white(w[2]) && all_white(w[3]),
        only(double.0, '"') && only(double.1, '"'),
        only(single.0, '\'') && only(single.1, '\''),
    ensures
        assignment(
            w[0] + key + w[1] + seq!['='] + w[2] + double.0 + single.0 + value + single.1 + double.1
                + w[3],
        ) == Some((key, value)),
        assignment(key + seq!['='] + value) == Some((key, value)),
{
    lemma_assignment(key, value, w, double, single);
    let e = Seq::<char>::empty();
    lemma_assignment(key, value, seq![e, e, e, e], (e, e), (e, e));
    assert(e + key + e + seq!['='] + e + e + e + value + e + e + e =~= key + seq!['='] + value);
}

proof fn lemma_assignment(
    key: Seq<char>,
    value: Seq<char>,
    w: Seq<Seq<char>>,
    double: (Seq<char>, Seq<char>),
    single: (Seq<char>, Seq<char>),
)
    requires
        is_key(key),
        is_plain_value(value),
        w.len() == 4,
        all_white(w[0]) && all_white(w[1]) && all_white(w[2]) && all_white(w[3]),
        only(double.0, '"') && only(double.1, '"'),
        only(single.0, '\'') && only(single.1, '\''),
    ensures
        assignment(
            w[0] + key + w[1] + seq!['='] + w[2] + double.0 + single.0 + value + single.1 + double.1
                + w[3],
        ) == Some((key, value)),
{
    let e = Seq::<char>::empty();
    let shown = double.0 + (single.0 + value + single.1) + double.1;
    let line = w[0] + key + w[1] + seq!['='] + w[2] + double.0 + single.0 + value + single.1
        + double.1 + w[3];
    let (lead, pad) = if key.len() > 0 {
        (w[0], w[1])
    } else {
        (w[0] + w[1], e)
    };
    let (rest, tail) = if shown.len() > 0 {
        (w[2] + shown, w[3])
    } else {
        (e, w[2] + w[3])
    };
    lemma_shown(value, double, single);
    assert(line =~= lead + (key + pad + seq!['='] + rest) + tail);
    lemma_line(lead, key, pad, rest, tail);
    if shown.len() > 0 {
        lemma_unquoted(w[2], value, double, single);
    } else {
        lemma_unquoted(e, value, double, single);
        assert(e + shown =~= e);
    }
}

/// A quoted value has no white character at its ends.
proof fn lemma_shown(value: Seq<char>, double: (Seq<char>, Seq<char>), single: (Seq<char>, Seq<char>))
    requires
        is_plain_value(value),
        only(double.0, '"') && only(double.1, '"'),
        only(single.0, '\'') && only(single.1, '\''),
    ensures
        ({
            let inner = single.0 + value + single.1;
            let shown = double.0 + inner + double.1;
            &&& inner.len() > 0 ==> inner[0] != '"' && inner.last() != '"'
            &&& shown.len() > 0 ==> !CharClass::White.holds(shown[0]) && !CharClass::White.holds(
                shown.last(),
            )
        }),
{
    let inner = single.0 + value + single.1;
    let shown = double.0 + inner + double.1;
    if inner.len() > 0 {
        lemma_edges(single.0, value, single.1, '\'');
    }
    if shown.len() > 0 {
        lemma_edges(double.0, inner, double.1, '"');
    }
}

/// Quotes and white space around a value do not count.
proof fn lemma_unquoted(
    w: Seq<char>,
    value: Seq<char>,
    double: (Seq<char>, Seq<char>),
    single: (Seq<char>, Seq<char>),
)
    requires
        is_plain_value(value),
        all_white(w),
        only(double.0, '"') && only(double.1, '"'),
        only(single.0, '\'') && only(single.1, '\''),
    ensures
        unquoted(w + (double.0 + (single.0 + value + single.1) + double.1)) == value,
{
    let e = Seq::<char>::empty();
    let inner = single.0 + value + single.1;
    let shown = double.0 + inner + double.1;
    lemma_shown(value, double, single);
    assert(w + shown =~= w + shown + e);
    law_trim(w, shown, e, CharClass::White);
    law_trim(double.0, inner, double.1, CharClass::Is('"'));
    law_trim(single.0, value, single.1, CharClass::Is('\''));
}

/// A line is cut at its first equals sign, whatever white space surrounds it.
proof fn lemma_line(
    lead: Seq<char>,
    key: Seq<char>,
    pad: Seq<char>,
    rest: Seq<char>,
    tail: Seq<char>,
)
    requires
        is_key(key),
        all_white(lead) && all_white(pad) && all_white(tail),
        key.len() == 0 ==> pad.len() == 0,
        rest.len() > 0 ==> !CharClass::White.holds(rest.last()),
    ensures
        assignment(lead + (key + pad + seq!['='] + rest) + tail) == Some((key, unquoted(rest))),
{
    let white = CharClass::White;
    let e = Seq::<char>::empty();
    let t = key + pad + seq!['='] + rest;
    let n: int = (key.len() + pad.len()) as int;
    assert(t[n] == '=');
    assert(t[0] == if key.len() > 0 {
        key[0]
    } else {
        '='
    });
    assert(t.last() == if rest.len() > 0 {
        rest.last()
    } else {
        '='
    });
    law_trim(lead, t, tail, white);
    assert forall|i: int| 0 <= i < n implies t[i] != '=' by {
        if i < key.len() {
            assert(t[i] == key[i]);
            assert(key.contains(key[i]));
        } else {
            assert(t[i] == pad[i - key.len()]);
        }
    }
    lemma_find_is(t, '=', n);
    assert(t.contains('='));
    assert(before(t, '=') =~= e + key + pad);
    law_trim(e, key, pad, white);
    assert(t.skip(n + 1) =~= rest);
}

/// The edges of a quoted text are the quote or the edges of what is quoted.
proof fn lemma_edges(a: Seq<char>, m: Seq<char>, b: Seq<char>, c: char)
    requires
        only(a, c) && only(b, c),
        (a + m + b).len() > 0,
    ensures
        (a + m + b)[0] == c || (m.len() > 0 && (a + m + b)[0] == m[0]),
        (a + m + b).last() == c || (m.len() > 0 && (a + m + b).last() == m.last()),
{
    let s = a + m + b;
    if a.len() > 0 {
        assert(s[0] == a[0]);
    } else if m.len() == 0 {
        assert(s[0] == b[0]);
    }
    if b.len() > 0 {
        assert(s.last() == b[b.len() - 1]);
    } else if m.len() == 0 {
        assert(s.last() == a[a.len() - 1]);
    }
}

/// Only a line without an equals sign, which a blank one is, and a line whose first character
/// that is not white is `#` set nothing.
pub proof fn law_no_assignment(line: Seq<char>)
    ensures
        assignment(line) is None <==> !line.contains('=') || exists|i: int|
            0 <= i < line.len() && #[trigger] line[i] == '#' && all_white(line.take(i)),
{
    let white = CharClass::White;
    let (a, b) = lemma_trim_cuts(line, white);
    let t = trim(line, white);
    lemma_find(line, '=');
    let f = find(line, '=');
    if line.contains('=') {
        assert(!white.holds(line[f]));
        assert(a <= f < b);
        assert(t[f - a] == '=');
        assert(t.contains('='));
        assert(t[0] == line[a]);
        if t[0] == '#' {
            assert(all_white(line.take(a)));
            assert(line[a] == '#');
        }
        if exists|i: int|
            0 <= i < line.len() && #[trigger] line[i] == '#' && all_white(line.take(i)) {
            let i = choose|i: int|
                0 <= i < line.len() && #[trigger] line[i] == '#' && all_white(line.take(i));
            assert(!white.holds(line[i]));
            assert(a <= i < b);
            if a < i {
                assert(line.take(i)[a] == line[a]);
                assert(white.holds(line.take(i)[a]));
            }
            assert(t[0] == '#');
        }
    } else {
        if t.contains('=') {
            let j = choose|j: int| 0 <= j < t.len() && t[j] == '=';
            assert(line[a + j] == '=');
            assert(line.contains('='));
        }
    }
}

/// What a line assigns to stands before its first equals sign.
pub proof fn law_assigned_key(line: Seq<char>)
    ensures
        assignment(line) matches Some((k, _)) ==> k == trim(
            line.take(find(line, '=')),
            CharClass::White,
        ) && line.contains('='),
{
    law_no_assignment(line);
    if assignment(line) is Some {
        let white = CharClass::White;
        let (a, b) = lemma_trim_cuts(line, white);
        let t = trim(line, white);
        lemma_find(line, '=');
        let f = find(line, '=');
        assert(!white.holds(line[f]));
        assert forall|i: int| 0 <= i < f - a implies t[i] != '=' by {
            assert(t[i] == line[a + i]);
        }
        assert(t[f - a] == '=');
        lemma_find_is(t, '=', f - a);
        assert(line.take(f) =~= line.take(a) + before(t, '='));
        lemma_trim_padded(line.take(a), before(t, '='), white);
    }
}

/// A file with a line `KEY=VALUE`, and no later line for that key, sets the key to the value
/// exactly.
pub proof fn law_env_file(earlier: Seq<char>, key: Seq<char>, value: Seq<char>, later: Seq<char>)
    requires
        earlier.len() > 0 ==> earlier.last() == '\n',
        is_key(key),
        is_plain_value(value),
        !value.contains('\n'),
        forall|j: int|
            0 <= j < lines(later).len() && (#[trigger] lines(later)[j]).contains('=') ==> trim(
                lines(later)[j].take(find(lines(later)[j], '=')),
                CharClass::White,
            ) != key,
    ensures
        ({
            let vars = env_of_lines(
                lines(earlier + key + seq!['='] + value + seq!['\n'] + later),
            );
            vars.contains_key(key) && vars[key] == value
        }),
        ({
            let vars = env_of_lines(lines(earlier + key + seq!['='] + value));
            vars.contains_key(key) && vars[key] == value
        }),
{
    let line = key + seq!['='] + value;
    let e = Seq::<char>::empty();
    law_assignment(key, value, seq![e, e, e, e], (e, e), (e, e));
    assert forall|i: int| 0 <= i < line.len() implies line[i] != '\n' by {
        if i < key.len() {
            assert(line[i] == key[i]);
        } else if i > key.len() {
            assert(line[i] == value[i - key.len() - 1]);
            assert(value.contains(line[i]));
        }
    }
    assert(!line.contains('\n'));
    law_lines(line, later);
    assert(line.last() != '\r') by {
        if value.len() > 0 {
            assert(line.last() == value.last());
        } else {
            assert(line.last() == '=');
        }
    }
    let pre = if earlier.len() > 0 {
        split(earlier.drop_last(), '\n').map_values(|l: Seq<char>| strip_cr(l))
    } else {
        Seq::empty()
    };
    let one = line.push('\n') + later;
    if earlier.len() > 0 {
        lemma_lines_concat(earlier.drop_last(), one);
        lemma_lines_concat(earlier.drop_last(), line);
        assert(earlier.drop_last().push('\n') =~= earlier);
    }
    assert(earlier + key + seq!['='] + value + seq!['\n'] + later =~= earlier + one);
    assert(earlier + key + seq!['='] + value =~= earlier + line);
    assert(lines(earlier + one) =~= pre.push(line) + lines(later));
    assert(lines(earlier + line) =~= pre.push(line) + Seq::<Seq<char>>::empty());
    lemma_set_by(pre, line, lines(later), key, value);
    lemma_set_by(pre, line, Seq::empty(), key, value);
}

proof fn lemma_set_by(
    pre: Seq<Seq<char>>,
    line: Seq<char>,
    post: Seq<Seq<char>>,
    key: Seq<char>,
    value: Seq<char>,
)
    requires
        assignment(line) == Some((key, value)),
        forall|j: int|
            0 <= j < post.len() && (#[trigger] post[j]).contains('=') ==> trim(
                post[j].take(find(post[j], '=')),
                CharClass::White,
            ) != key,
    ensures
        env_of_lines(pre.push(line) + post).contains_key(key),
        env_of_lines(pre.push(line) + post)[key] == value,
    decreases post.len(),
{
    let all = pre.push(line) + post;
    if post.len() == 0 {
        assert(all =~= pre.push(line));
        assert(all.drop_last() =~= pre);
    } else {
        assert(all.drop_last() =~= pre.push(line) + post.drop_last());
        assert(all.last() == post.last());
        assert forall|j: int|
            0 <= j < post.drop_last().len() && (#[trigger] post.drop_last()[j]).contains(
                '=',
            ) implies trim(
            post.drop_last()[j].take(find(post.drop_last()[j], '=')),
            CharClass::White,
        ) != key by {
            assert(post[j] == post.drop_last()[j]);
        }
        lemma_set_by(pre, line, post.drop_last(), key, value);
        law_assigned_key(post[post.len() - 1]);
    }
}

/// A file sets no variable that none of its lines assigns to.
pub proof fn law_env_only_lines(ls: Seq<Seq<char>>, key: Seq<char>)
    requires
        forall|j: int|
            0 <= j < ls.len() && (#[trigger] ls[j]).contains('=') ==> trim(
                ls[j].take(find(ls[j], '=')),
                CharClass::White,
            ) != key,
    ensures
        !env_of_lines(ls).contains_key(key),
    decreases ls.len(),
{
    if ls.len() > 0 {
        assert forall|j: int|
            0 <= j < ls.drop_last().len() && (#[trigger] ls.drop_last()[j]).contains(
                '=',
            ) implies trim(
            ls.drop_last()[j].take(find(ls.drop_last()[j], '=')),
            CharClass::White,
        ) != key by {
            assert(ls[j] == ls.drop_last()[j]);
        }
        law_env_only_lines(ls.drop_last(), key);
        law_assigned_key(ls[ls.len() - 1]);
    }
}

// ---------------------------------------------------------------------------
// Lists, port mappings and names
// ---------------------------------------------------------------------------

/// A list is cut at its commas, and each entry is without the white space around it.
pub proof fn law_comma_list(a: Seq<char>, m: Seq<char>, b: Seq<char>, rest: Seq<char>)
    requires
        all_white(a) && all_white(b),
        m.len() > 0 ==> !CharClass::White.holds(m[0]) && !CharClass::White.holds(m.last()),
        !m.contains(','),
    ensures
        comma_list(Some(a + m + b)) == seq![m],
        comma_list(Some(a + m + b + seq![','] + rest)) == seq![m] + comma_list(Some(rest)),
        comma_list(None).len() == 0,
{
    let s = a + m + b;
    let f = |p: Seq<char>| trim(p, CharClass::White);
    assert forall|i: int| 0 <= i < s.len() implies s[i] != ',' by {
        if i < a.len() {
            assert(s[i] == a[i]);
        } else if i < a.len() + m.len() {
            assert(s[i] == m[i - a.len()]);
            assert(m.contains(s[i]));
        } else {
            assert(s[i] == b[i - a.len() - m.len()]);
        }
    }
    law_trim(a, m, b, CharClass::White);
    law_split(s, rest, ',');
    assert(s.push(',') + rest =~= s + seq![','] + rest);
    assert(seq![s].map_values(f) =~= seq![m]);
    assert((seq![s] + split(rest, ',')).map_values(f) =~= seq![m] + split(rest, ',').map_values(f));
}

/// A port mapping is a port, a public and a program's port, or these behind a host; each port is
/// a number of sixteen bits, and the first that is not is told.
pub proof fn law_mapping(host: Seq<char>, a: Seq<char>, b: Seq<char>, more: Seq<char>)
    requires
        !host.contains(':') && !a.contains(':') && !b.contains(':'),
    ensures
        parsed(a, 65535) matches Some(p) ==> mapping_of(a) == Ok::<_, Seq<char>>(
            PortMappingView { host: None, public_port: p as u16, app_port: None },
        ),
        parsed(a, 65535) is None ==> mapping_of(a) == Err::<PortMappingView, _>(
            "invalid port: "@ + a,
        ),
        parsed(a, 65535) matches Some(p) ==> (parsed(b, 65535) matches Some(q) ==> mapping_of(
            a + seq![':'] + b,
        ) == Ok::<_, Seq<char>>(
            PortMappingView { host: None, public_port: p as u16, app_port: Some(q as u16) },
        ) && mapping_of(host + seq![':'] + a + seq![':'] + b) == Ok::<_, Seq<char>>(
            PortMappingView { host: Some(host), public_port: p as u16, app_port: Some(q as u16) },
        )),
        parsed(a, 65535) is None ==> mapping_of(a + seq![':'] + b) == Err::<PortMappingView, _>(
            "invalid port: "@ + a,
        ) && mapping_of(host + seq![':'] + a + seq![':'] + b) == Err::<PortMappingView, _>(
            "invalid port: "@ + a,
        ),
        parsed(a, 65535) is Some && parsed(b, 65535) is None ==> mapping_of(a + seq![':'] + b)
            == Err::<PortMappingView, _>("invalid port: "@ + b) && mapping_of(
            host + seq![':'] + a + seq![':'] + b,
        ) == Err::<PortMappingView, _>("invalid port: "@ + b),
        mapping_of(host + seq![':'] + a + seq![':'] + b + seq![':'] + more) == Err::<
            PortMappingView,
            _,
        >("invalid port mapping: "@ + (host + seq![':'] + a + seq![':'] + b + seq![':'] + more)),
{
    law_split(a, b, ':');
    law_split(b, more, ':');
    assert(a.push(':') + b =~= a + seq![':'] + b);
    law_split(host, a + seq![':'] + b, ':');
    assert(host.push(':') + (a + seq![':'] + b) =~= host + seq![':'] + a + seq![':'] + b);
    assert(seq![a] + seq![b] =~= seq![a, b]);
    assert(seq![host] + seq![a, b] =~= seq![host, a, b]);
    // One part too many.
    let tail = b.push(':') + more;
    let three = a.push(':') + tail;
    law_split(a, tail, ':');
    law_split(host, three, ':');
    assert(host.push(':') + three =~= host + seq![':'] + a + seq![':'] + b + seq![':'] + more);
    crate::text::lemma_split_nonempty(more, ':');
    assert((seq![host] + (seq![a] + (seq![b] + split(more, ':')))).len() >= 4);
}

/// The name of a process is the one that was given, and else that of its file.
pub proof fn law_derived_name(dir: Seq<char>, file: Seq<char>, name: Seq<char>)
    requires
        file.len() > 0 && file != seq!['.'] && file != seq!['.', '.'] && !file.contains('/'),
    ensures
        derived_name(crate::path::joined(dir, file), None) == file,
        derived_name(crate::path::joined(dir, file), Some(name)) == name,
        derived_name(Seq::empty(), None) == "unknown"@,
{
    crate::path::law_join_name(dir, file);
    crate::path::law_component_added(seq!['x'], file);
}

/// The arguments of a text are its words as a shell reads them, and none where it cannot be read.
pub proof fn law_arguments(s: Seq<char>, words: Seq<Seq<char>>)
    ensures
        shell_words(s) == Some(words) ==> arguments(Some(s)) == words,
        shell_words(s) is None ==> arguments(Some(s)).len() == 0,
        arguments(None).len() == 0,
{
}

} // verus!
