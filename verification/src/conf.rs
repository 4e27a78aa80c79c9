//! Engine configuration: the key/value map the surrounding program reads
//! from its config file, and the construction of the backing engine's
//! command line, request parameters and endpoint from it.

use vstd::prelude::*;
use crate::text::{str_eq, spec_trim, trim_str, first_index, lemma_first_index, find_char,
    spec_starts_with, str_starts_with, strip_prefix_all, trim_start_matches_str, strip_suffix_all,
    trim_end_matches_str, dec_rep, usize_dec};

verus! {

/// An insertion-ordered key/value map over strings. It stands in for the
/// string-keyed hash maps of the surrounding program; inserting an
/// existing key replaces its value in place, and iteration order is the
/// order of first insertion, so every derived value is deterministic.
pub struct ParamMap {
    pairs: Vec<(String, String)>,
}

impl View for ParamMap {
    type V = Seq<(Seq<char>, Seq<char>)>;

    closed spec fn view(&self) -> Seq<(Seq<char>, Seq<char>)> {
        Seq::new(self.pairs@.len(), |i: int| (self.pairs@[i].0@, self.pairs@[i].1@))
    }
}

/// The position of the first pair keyed `k`, or -1 when absent.
pub open spec fn key_index(m: Seq<(Seq<char>, Seq<char>)>, k: Seq<char>) -> int
    decreases m.len(),
{
    if m.len() == 0 {
        -1
    } else if m[0].0 == k {
        0
    } else {
        let r = key_index(m.drop_first(), k);
        if r < 0 {
            -1
        } else {
            1 + r
        }
    }
}

pub proof fn lemma_key_index(m: Seq<(Seq<char>, Seq<char>)>, k: Seq<char>)
    ensures
        -1 <= key_index(m, k) < m.len(),
        key_index(m, k) >= 0 ==> m[key_index(m, k)].0 == k,
        key_index(m, k) >= 0 ==> forall|j: int| 0 <= j < key_index(m, k) ==> m[j].0 != k,
        key_index(m, k) < 0 ==> forall|j: int| 0 <= j < m.len() ==> m[j].0 != k,
    decreases m.len(),
{
    if m.len() > 0 && m[0].0 != k {
        lemma_key_index(m.drop_first(), k);
        let r = key_index(m.drop_first(), k);
        if r >= 0 {
            assert forall|j: int| 0 <= j < 1 + r implies m[j].0 != k by {
                if j > 0 {
                    assert(m.drop_first()[j - 1].0 != k);
                }
            }
        } else {
            assert forall|j: int| 0 <= j < m.len() implies m[j].0 != k by {
                if j > 0 {
                    assert(m.drop_first()[j - 1].0 != k);
                }
            }
        }
    }
}

proof fn lemma_key_index_at(m: Seq<(Seq<char>, Seq<char>)>, k: Seq<char>, i: int)
    requires
        0 <= i < m.len(),
        m[i].0 == k,
        forall|j: int| 0 <= j < i ==> m[j].0 != k,
    ensures
        key_index(m, k) == i,
    decreases i,
{
    if i > 0 {
        lemma_key_index_at(m.drop_first(), k, i - 1);
    }
}

/// The value stored under `k`, if any: that of the first pair keyed `k`.
pub open spec fn map_lookup(m: Seq<(Seq<char>, Seq<char>)>, k: Seq<char>) -> Option<Seq<char>> {
    if key_index(m, k) >= 0 {
        Some(m[key_index(m, k)].1)
    } else {
        None
    }
}

/// The map after storing `v` under `k`: the first pair keyed `k` replaced
/// in place, or a new pair appended.
pub open spec fn spec_map_insert(
    m: Seq<(Seq<char>, Seq<char>)>,
    k: Seq<char>,
    v: Seq<char>,
) -> Seq<(Seq<char>, Seq<char>)> {
    if key_index(m, k) >= 0 {
        m.update(key_index(m, k), (k, v))
    } else {
        m.push((k, v))
    }
}

impl ParamMap {
    /// A map with no pairs.
    pub fn new() -> (r: ParamMap)
        ensures
            r@ == Seq::<(Seq<char>, Seq<char>)>::empty(),
    {
        let r = ParamMap { pairs: Vec::new() };
        proof {
            assert(r@ =~= Seq::<(Seq<char>, Seq<char>)>::empty());
        }
        r
    }

    /// A map holding exactly these pairs, in this order.
    pub fn from_pairs(pairs: Vec<(String, String)>) -> (r: ParamMap)
        ensures
            r@.len() == pairs@.len(),
            forall|i: int|
                0 <= i < pairs@.len() ==> #[trigger] r@[i] == (pairs@[i].0@, pairs@[i].1@),
    {
        ParamMap { pairs }
    }

    pub fn len(&self) -> (r: usize)
        ensures
            r == self@.len(),
    {
        self.pairs.len()
    }

    /// The key of the pair at `i`.
    pub fn key_at(&self, i: usize) -> (r: &String)
        requires
            i < self@.len(),
        ensures
            r@ == self@[i as int].0,
    {
        &self.pairs[i].0
    }

    /// The value of the pair at `i`.
    pub fn value_at(&self, i: usize) -> (r: &String)
        requires
            i < self@.len(),
        ensures
            r@ == self@[i as int].1,
    {
        &self.pairs[i].1
    }

    /// The value stored under `k`, if any.
    pub fn get(&self, k: &str) -> (r: Option<&String>)
        ensures
            match r {
                Some(v) => map_lookup(self@, k@) == Some(v@),
                None => map_lookup(self@, k@) is None,
            },
    {
        let n = self.pairs.len();
        let mut i: usize = 0;
        while i < n
            invariant
                i <= n,
                n == self@.len(),
                n == self.pairs@.len(),
                forall|j: int| 0 <= j < i ==> self@[j].0 != k@,
            decreases n - i,
        {
            if str_eq(self.pairs[i].0.as_str(), k) {
                proof {
                    lemma_key_index_at(self@, k@, i as int);
                }
                return Some(&self.pairs[i].1);
            }
            i = i + 1;
        }
        proof {
            lemma_key_index(self@, k@);
        }
        None
    }

    /// Stores `v` under `k`, replacing the value of an existing key in
    /// place and appending a new key at the end.
    pub fn insert(&mut self, k: String, v: String)
        ensures
            final(self)@ == spec_map_insert(old(self)@, k@, v@),
    {
        let n = self.pairs.len();
        let mut i: usize = 0;
        while i < n
            invariant
                i <= n,
                n == self@.len(),
                n == self.pairs@.len(),
                self@ == old(self)@,
                forall|j: int| 0 <= j < i ==> self@[j].0 != k@,
            decreases n - i,
        {
            if str_eq(self.pairs[i].0.as_str(), k.as_str()) {
                let ghost prev = old(self)@;
                let ghost gk = k@;
                let ghost gv = v@;
                proof {
                    lemma_key_index_at(self@, k@, i as int);
                }
                self.pairs.remove(i);
                self.pairs.insert(i, (k, v));
                proof {
                    assert(self@ =~= prev.update(i as int, (gk, gv)));
                    assert(spec_map_insert(prev, gk, gv) == prev.update(i as int, (gk, gv)));
                }
                return;
            }
            i = i + 1;
        }
        let ghost prev = old(self)@;
        proof {
            lemma_key_index(self@, k@);
        }
        self.pairs.push((k, v));
        proof {
            assert(self@ =~= prev.push((k@, v@)));
        }
    }
}

/// The map built from a flat even-length array of alternating keys and
/// values, each pair stored in order.
pub open spec fn spec_array_pairs(a: Seq<&str>, n: int) -> Seq<(Seq<char>, Seq<char>)>
    decreases n,
{
    if n < 2 {
        Seq::empty()
    } else {
        spec_map_insert(spec_array_pairs(a, n - 2), a[n - 2]@, a[n - 1]@)
    }
}

/// Reads a flat array of alternating keys and values into a map, earlier
/// pairs first. The array must pair every key with a value.
pub fn array_to_map(array: &[&str]) -> (r: ParamMap)
    requires
        array@.len() % 2 == 0,
    ensures
        r@ == spec_array_pairs(array@, array@.len() as int),
{
    let mut m = ParamMap::new();
    let n = array.len();
    let mut x: usize = 0;
    proof {
        assert(spec_array_pairs(array@, 0) =~= Seq::<(Seq<char>, Seq<char>)>::empty());
    }
    while x + 1 < n
        invariant
            x <= n,
            x % 2 == 0,
            n == array@.len(),
            n % 2 == 0,
            m@ == spec_array_pairs(array@, x as int),
        decreases n - x,
    {
        m.insert(String::from_str(array[x]), String::from_str(array[x + 1]));
        x = x + 2;
    }
    m
}

/// Flattens a map back to the alternating key/value form, in map order.
pub fn map_to_array(map: ParamMap) -> (r: Vec<String>)
    ensures
        r.deep_view().len() == 2 * map@.len(),
        forall|i: int|
            0 <= i < map@.len() ==> r.deep_view()[2 * i] == map@[i].0 && r.deep_view()[2 * i + 1]
                == map@[i].1,
{
    let mut r: Vec<String> = Vec::new();
    let n = map.len();
    let mut i: usize = 0;
    while i < n
        invariant
            i <= n,
            n == map@.len(),
            r.deep_view().len() == 2 * i,
            forall|j: int|
                0 <= j < i ==> r.deep_view()[2 * j] == map@[j].0 && r.deep_view()[2 * j + 1]
                    == map@[j].1,
        decreases n - i,
    {
        let ghost prev = r.deep_view();
        r.push(map.key_at(i).clone());
        r.push(map.value_at(i).clone());
        proof {
            assert(r.deep_view() =~= prev.push(map@[i as int].0).push(map@[i as int].1));
        }
        i = i + 1;
    }
    r
}

/// What one config-file line contributes: `None` for a blank line, a
/// comment, or a line without `=`; otherwise the trimmed text on each side
/// of the first `=`.
pub open spec fn spec_config_line(s: Seq<char>) -> Option<(Seq<char>, Seq<char>)> {
    let t = spec_trim(s);
    if t.len() == 0 {
        None
    } else if t[0] == '#' {
        None
    } else {
        let e = first_index(t, '=');
        if e < 0 {
            None
        } else {
            Some((spec_trim(t.take(e)), spec_trim(t.skip(e + 1))))
        }
    }
}

/// Parses one config-file line: blank lines and `#` comments contribute
/// nothing, any other line is split at its first `=` into a trimmed key
/// and a trimmed value. A line with no `=` is ignored too.
pub fn parse_config_line(line: &str) -> (r: Option<(String, String)>)
    ensures
        match r {
            Some(kv) => spec_config_line(line@) == Some((kv.0@, kv.1@)),
            None => spec_config_line(line@) is None,
        },
{
    let t = trim_str(line);
    let nt = t.unicode_len();
    if nt == 0 {
        return None;
    }
    if t.get_char(0) == '#' {
        return None;
    }
    match find_char(t, '=') {
        None => None,
        Some(e) => {
            proof {
                lemma_first_index(t@, '=');
            }
            let k = trim_str(t.substring_char(0, e));
            let v = trim_str(t.substring_char(e + 1, nt));
            proof {
                assert(t@.subrange(0, e as int) =~= t@.take(e as int));
                assert(t@.subrange(e + 1, nt as int) =~= t@.skip(e + 1));
            }
            Some((String::from_str(k), String::from_str(v)))
        },
    }
}

/// The map read from a whole config file, line by line in order.
pub open spec fn spec_parse_config(ls: Seq<Seq<char>>, n: int) -> Seq<(Seq<char>, Seq<char>)>
    decreases n,
{
    if n <= 0 {
        Seq::empty()
    } else {
        let m = spec_parse_config(ls, n - 1);
        match spec_config_line(ls[n - 1]) {
            Some(kv) => spec_map_insert(m, kv.0, kv.1),
            None => m,
        }
    }
}

/// Reads the lines of a config file into a map, first line first; a later
/// line re-defining a key wins.
pub fn parse_config(lines: &Vec<String>) -> (r: ParamMap)
    ensures
        r@ == spec_parse_config(lines.deep_view(), lines.deep_view().len() as int),
{
    let mut m = ParamMap::new();
    let n = lines.len();
    let mut i: usize = 0;
    proof {
        assert(spec_parse_config(lines.deep_view(), 0) =~= Seq::<(Seq<char>, Seq<char>)>::empty());
    }
    while i < n
        invariant
            i <= n,
            n == lines@.len(),
            n == lines.deep_view().len(),
            m@ == spec_parse_config(lines.deep_view(), i as int),
        decreases n - i,
    {
        proof {
            assert(lines.deep_view()[i as int] == lines@[i as int]@);
        }
        match parse_config_line(lines[i].as_str()) {
            Some(kv) => {
                m.insert(kv.0, kv.1);
            },
            None => {},
        }
        i = i + 1;
    }
    m
}

/// The platform the command line is built for: it decides the path and
/// classpath separators and the name of the `java` binary.
#[derive(Clone, Copy, PartialEq, Eq, Structural)]
pub enum OsKind {
    Windows,
    MacOs,
    Other,
}

pub open spec fn spec_path_sep(os: OsKind) -> Seq<char> {
    match os {
        OsKind::Windows => "\\"@,
        _ => "/"@,
    }
}

pub open spec fn spec_cp_sep(os: OsKind) -> Seq<char> {
    match os {
        OsKind::Windows => ";"@,
        _ => ":"@,
    }
}

fn path_sep_str(os: OsKind) -> (r: &'static str)
    ensures
        r@ == spec_path_sep(os),
{
    match os {
        OsKind::Windows => "\\",
        _ => "/",
    }
}

fn cp_sep_str(os: OsKind) -> (r: &'static str)
    ensures
        r@ == spec_cp_sep(os),
{
    match os {
        OsKind::Windows => ";",
        _ => ":",
    }
}

/// The `jdk8` directory bundled beside the program, where `JAVA_HOME`
/// falls back to.
pub open spec fn spec_jdk_candidate(home: Seq<char>, os: OsKind) -> Seq<char> {
    let base = home + spec_path_sep(os) + "jdk8"@;
    match os {
        OsKind::MacOs => base + spec_path_sep(os) + "Contents"@ + spec_path_sep(os) + "Home"@,
        _ => base,
    }
}

/// The bundled-JDK path under `byzer_home`; the macOS bundle keeps its
/// home two directories deeper.
pub fn jdk_home_candidate(byzer_home: &str, os: OsKind) -> (r: String)
    ensures
        r@ == spec_jdk_candidate(byzer_home@, os),
{
    let sep = path_sep_str(os);
    let base = String::from_str(byzer_home).concat(sep).concat("jdk8");
    match os {
        OsKind::MacOs => {
            let r = base.concat(sep).concat("Contents").concat(sep).concat("Home");
            proof {
                assert(r@ =~= spec_jdk_candidate(byzer_home@, os));
            }
            r
        },
        _ => {
            proof {
                assert(base@ =~= spec_jdk_candidate(byzer_home@, os));
            }
            base
        },
    }
}

/// The Java home the engine is started with: the environment's, else the
/// bundled JDK when it is present, else none.
pub fn resolve_java_home(env_java_home: Option<String>, candidate: String, candidate_exists: bool)
    -> (r: String)
    ensures
        match env_java_home {
            Some(v) => r@ == v@,
            None => {
                if candidate_exists {
                    r@ == candidate@
                } else {
                    r@ == Seq::<char>::empty()
                }
            },
        },
{
    match env_java_home {
        Some(v) => v,
        None => {
            if candidate_exists {
                candidate
            } else {
                String::new()
            }
        },
    }
}

/// The engine's launch configuration: where it lives, how its JVM is
/// started, the endpoint scripts are sent to, and the per-request
/// parameters read from the config file.
pub struct ByzerConf {
    pub byzer_home: String,
    pub java_home: String,
    pub config_path: Option<String>,
    pub engine_url: String,
    pub request_config: ParamMap,
    pub byzer_command: Vec<String>,
    pub owner: String,
}

/// The plugin classes the engine always loads.
pub open spec fn spec_default_plugins() -> Seq<char> {
    "tech.mlsql.plugins.ds.MLSQLExcelApp,tech.mlsql.plugins.shell.app.MLSQLShell,tech.mlsql.plugins.assert.app.MLSQLAssert"@
}

/// The engine's stock command-line configuration, as key/value flags.
pub open spec fn spec_default_engine_config(
    data_path: Seq<char>,
    port: Seq<char>,
    owner: Seq<char>,
) -> Seq<(Seq<char>, Seq<char>)> {
    seq![
        ("-streaming.master"@, "local[*]"@),
        ("-streaming.name"@, "Byzer-shell"@),
        ("-streaming.rest"@, "true"@),
        ("-streaming.thrift"@, "false"@),
        ("-streaming.platform"@, "spark"@),
        ("-streaming.spark.service"@, "true"@),
        ("-streaming.job.cancel"@, "true"@),
        ("-streaming.datalake.path"@, data_path),
        ("-streaming.driver.port"@, port),
        ("-streaming.plugin.clzznames"@, spec_default_plugins()),
        ("-streaming.mlsql.script.owner"@, owner),
    ]
}

/// Where the engine keeps its data lake, relative to the working
/// directory.
pub open spec fn spec_data_path(os: OsKind) -> Seq<char> {
    "."@ + spec_path_sep(os) + "data"@
}

/// One `main`/`libs`/`plugin`/`spark` classpath entry under the home
/// directory, with a trailing wildcard.
pub open spec fn spec_lib_glob(home: Seq<char>, os: OsKind, name: Seq<char>) -> Seq<char> {
    home + spec_path_sep(os) + name + spec_path_sep(os) + "*"@
}

/// The engine's classpath: its four library directories joined by the
/// platform's classpath separator.
pub open spec fn spec_classpath(home: Seq<char>, os: OsKind) -> Seq<char> {
    spec_lib_glob(home, os, "main"@) + spec_cp_sep(os) + spec_lib_glob(home, os, "libs"@)
        + spec_cp_sep(os) + spec_lib_glob(home, os, "plugin"@) + spec_cp_sep(os) + spec_lib_glob(
        home,
        os,
        "spark"@,
    )
}

/// How one config-file pair changes the engine's flag map: the plugin
/// list is appended to the stock one, any other `engine.spark*` or
/// `engine.streaming*` key becomes a `-`-prefixed flag, everything else
/// leaves the flags alone.
pub open spec fn spec_merge_step(
    m: Seq<(Seq<char>, Seq<char>)>,
    k: Seq<char>,
    v: Seq<char>,
) -> Seq<(Seq<char>, Seq<char>)> {
    if spec_starts_with(k, "engine.spark"@) || spec_starts_with(k, "engine.streaming"@) {
        if k == "engine.streaming.plugin.clzznames"@ {
            spec_map_insert(m, "-streaming.plugin.clzznames"@, spec_default_plugins() + ","@ + v)
        } else {
            spec_map_insert(m, "-"@ + strip_prefix_all(k, "engine."@), v)
        }
    } else {
        m
    }
}

/// The engine's flag map after folding in the first `n` config pairs.
pub open spec fn spec_merged_config(
    defaults: Seq<(Seq<char>, Seq<char>)>,
    config: Seq<(Seq<char>, Seq<char>)>,
    n: int,
) -> Seq<(Seq<char>, Seq<char>)>
    decreases n,
{
    if n <= 0 {
        defaults
    } else {
        spec_merge_step(
            spec_merged_config(defaults, config, n - 1),
            config[n - 1].0,
            config[n - 1].1,
        )
    }
}

/// The per-request parameters: every `user.*` config key, with the
/// prefix removed.
pub open spec fn spec_request_step(
    m: Seq<(Seq<char>, Seq<char>)>,
    k: Seq<char>,
    v: Seq<char>,
) -> Seq<(Seq<char>, Seq<char>)> {
    if spec_starts_with(k, "user."@) {
        spec_map_insert(m, strip_prefix_all(k, "user."@), v)
    } else {
        m
    }
}

pub open spec fn spec_request_config(
    config: Seq<(Seq<char>, Seq<char>)>,
    n: int,
) -> Seq<(Seq<char>, Seq<char>)>
    decreases n,
{
    if n <= 0 {
        Seq::empty()
    } else {
        spec_request_step(
            spec_request_config(config, n - 1),
            config[n - 1].0,
            config[n - 1].1,
        )
    }
}

/// The script endpoint: the configured `engine.url` with trailing slashes
/// removed, or the local interpreter on the chosen port, plus the run
/// path.
pub open spec fn spec_engine_url(
    config: Seq<(Seq<char>, Seq<char>)>,
    port: Seq<char>,
) -> Seq<char> {
    (match map_lookup(config, "engine.url"@) {
        Some(u) => strip_suffix_all(u, "/"@),
        None => "http://127.0.0.1:"@ + port,
    }) + "/run/script"@
}

/// The script owner after the config is applied.
pub open spec fn spec_built_owner(config: Seq<(Seq<char>, Seq<char>)>, owner0: Seq<char>)
    -> Seq<char> {
    match map_lookup(config, "user.owner"@) {
        Some(v) => v,
        None => owner0,
    }
}

/// The JVM heap flag, when the config asks for one.
pub open spec fn spec_xmx(config: Seq<(Seq<char>, Seq<char>)>) -> Seq<char> {
    match map_lookup(config, "engine.memory"@) {
        Some(item) => "-Xmx"@ + item,
        None => Seq::empty(),
    }
}

/// A flag map flattened back to alternating keys and values.
pub open spec fn spec_flatten_pairs(m: Seq<(Seq<char>, Seq<char>)>) -> Seq<Seq<char>> {
    Seq::new(2 * m.len(), |i: int| if i % 2 == 0 { m[i / 2].0 } else { m[i / 2].1 })
}

/// The engine's whole command line, after the JVM executable: an optional
/// heap flag, the classpath, the main class, and the flattened flag map.
pub open spec fn spec_byzer_command(
    home: Seq<char>,
    config: Seq<(Seq<char>, Seq<char>)>,
    port: Seq<char>,
    owner0: Seq<char>,
    os: OsKind,
) -> Seq<Seq<char>> {
    let owner = spec_built_owner(config, owner0);
    let xmx = spec_xmx(config);
    let merged = spec_merged_config(
        spec_default_engine_config(spec_data_path(os), port, owner),
        config,
        config.len() as int,
    );
    let base = seq!["-cp"@, spec_classpath(home, os), "streaming.core.StreamingApp"@];
    (if xmx.len() > 0 {
        seq![xmx]
    } else {
        Seq::<Seq<char>>::empty()
    }) + base + spec_flatten_pairs(merged)
}

impl ByzerConf {
    /// A configuration with the stock defaults: the local interpreter
    /// endpoint, no request parameters, no command line, owner `admin`.
    pub fn new(byzer_home: String, config_path: Option<String>, java_home: String) -> (r:
        ByzerConf)
        ensures
            r.byzer_home@ == byzer_home@,
            r.java_home@ == java_home@,
            r.config_path == config_path,
            r.engine_url@ == "http://127.0.0.1:9003"@,
            r.request_config@ == Seq::<(Seq<char>, Seq<char>)>::empty(),
            r.byzer_command.deep_view() == Seq::<Seq<char>>::empty(),
            r.owner@ == "admin"@,
    {
        let r = ByzerConf {
            byzer_home,
            java_home,
            config_path,
            engine_url: String::from_str("http://127.0.0.1:9003"),
            request_config: ParamMap::new(),
            byzer_command: Vec::new(),
            owner: String::from_str("admin"),
        };
        proof {
            assert(r.byzer_command.deep_view() =~= Seq::<Seq<char>>::empty());
        }
        r
    }

    /// The JVM executable the engine is launched with: the `java` binary
    /// under the resolved Java home, or a bare `java` when none was found.
    pub fn build_java_command(&self, os: OsKind) -> (r: String)
        ensures
            self.java_home@.len() == 0 ==> r@ == "java"@,
            self.java_home@.len() > 0 ==> r@ == self.java_home@ + spec_path_sep(os)
                + "bin"@ + spec_path_sep(os) + (match os {
                OsKind::Windows => "java.exe"@,
                _ => "java"@,
            }),
    {
        if self.java_home.as_str().is_empty() {
            return String::from_str("java");
        }
        let sep = path_sep_str(os);
        let name: &str = match os {
            OsKind::Windows => "java.exe",
            _ => "java",
        };
        let r = self.java_home.clone().concat(sep).concat("bin").concat(sep).concat(name);
        proof {
            assert(r@ =~= self.java_home@ + spec_path_sep(os) + "bin"@ + spec_path_sep(os)
                + name@);
        }
        r
    }

    /// Builds the launch command, the endpoint and the request parameters
    /// from the config-file map, the chosen interpreter port and the
    /// platform. A config that names `engine.streaming.platform_hooks` is
    /// rejected up front: the stock flags hold no hook list to extend.
    pub fn build(&mut self, mlsql_config: &ParamMap, interpreter_port: u16, os: OsKind)
        requires
            map_lookup(mlsql_config@, "engine.streaming.platform_hooks"@) is None,
        ensures
            final(self).byzer_home@ == old(self).byzer_home@,
            final(self).java_home@ == old(self).java_home@,
            final(self).config_path == old(self).config_path,
            final(self).owner@ == spec_built_owner(mlsql_config@, old(self).owner@),
            final(self).engine_url@ == spec_engine_url(
                mlsql_config@,
                dec_rep(interpreter_port as nat),
            ),
            final(self).request_config@ == spec_request_config(
                mlsql_config@,
                mlsql_config@.len() as int,
            ),
            final(self).byzer_command.deep_view() == spec_byzer_command(
                old(self).byzer_home@,
                mlsql_config@,
                dec_rep(interpreter_port as nat),
                old(self).owner@,
                os,
            ),
    {
        let ghost config = mlsql_config@;
        let ghost owner0 = self.owner@;
        let port_str = usize_dec(interpreter_port as usize);

        match mlsql_config.get("user.owner") {
            Some(item) => {
                self.owner = item.clone();
            },
            None => {},
        }
        let ghost owner = self.owner@;
        proof {
            assert(owner == spec_built_owner(config, owner0));
        }

        let xmx: String = match mlsql_config.get("engine.memory") {
            Some(item) => String::from_str("-Xmx").concat(item.as_str()),
            None => String::new(),
        };
        proof {
            assert(xmx@ == spec_xmx(config));
        }

        let sep = path_sep_str(os);
        let cpsep = cp_sep_str(os);
        let data_path = String::from_str(".").concat(sep).concat("data");
        proof {
            assert(data_path@ =~= spec_data_path(os));
        }

        let main_lib = lib_glob(self.byzer_home.as_str(), os, "main");
        let libs_lib = lib_glob(self.byzer_home.as_str(), os, "libs");
        let plugin_lib = lib_glob(self.byzer_home.as_str(), os, "plugin");
        let spark_lib = lib_glob(self.byzer_home.as_str(), os, "spark");
        let classpath = main_lib.concat(cpsep).concat(libs_lib.as_str()).concat(cpsep).concat(
            plugin_lib.as_str(),
        ).concat(cpsep).concat(spark_lib.as_str());
        proof {
            assert(classpath@ =~= spec_classpath(self.byzer_home@, os));
        }

        let mut defpairs: Vec<(String, String)> = Vec::new();
        defpairs.push((String::from_str("-streaming.master"), String::from_str("local[*]")));
        defpairs.push((String::from_str("-streaming.name"), String::from_str("Byzer-shell")));
        defpairs.push((String::from_str("-streaming.rest"), String::from_str("true")));
        defpairs.push((String::from_str("-streaming.thrift"), String::from_str("false")));
        defpairs.push((String::from_str("-streaming.platform"), String::from_str("spark")));
        defpairs.push((String::from_str("-streaming.spark.service"), String::from_str("true")));
        defpairs.push((String::from_str("-streaming.job.cancel"), String::from_str("true")));
        defpairs.push((String::from_str("-streaming.datalake.path"), data_path));
        defpairs.push((String::from_str("-streaming.driver.port"), port_str.clone()));
        defpairs.push((
            String::from_str("-streaming.plugin.clzznames"),
            String::from_str(
                "tech.mlsql.plugins.ds.MLSQLExcelApp,tech.mlsql.plugins.shell.app.MLSQLShell,tech.mlsql.plugins.assert.app.MLSQLAssert",
            ),
        ));
        defpairs.push((String::from_str("-streaming.mlsql.script.owner"), self.owner.clone()));
        let mut merged = ParamMap::from_pairs(defpairs);
        let ghost defaults = spec_default_engine_config(spec_data_path(os), port_str@, owner);
        proof {
            assert(merged@ =~= defaults);
        }

        let mut request = ParamMap::new();
        proof {
            assert(request@ =~= spec_request_config(config, 0));
        }
        let config_n = mlsql_config.len();
        let mut j: usize = 0;
        while j < config_n
            invariant
                j <= config_n,
                config_n == config.len(),
                config == mlsql_config@,
                merged@ == spec_merged_config(defaults, config, j as int),
                request@ == spec_request_config(config, j as int),
            decreases config_n - j,
        {
            let k = mlsql_config.key_at(j);
            let v = mlsql_config.value_at(j);
            if str_starts_with(k.as_str(), "engine.spark") || str_starts_with(
                k.as_str(),
                "engine.streaming",
            ) {
                if str_eq(k.as_str(), "engine.streaming.plugin.clzznames") {
                    merged.insert(
                        String::from_str("-streaming.plugin.clzznames"),
                        String::from_str(
                            "tech.mlsql.plugins.ds.MLSQLExcelApp,tech.mlsql.plugins.shell.app.MLSQLShell,tech.mlsql.plugins.assert.app.MLSQLAssert",
                        ).concat(",").concat(v.as_str()),
                    );
                } else {
                    let stripped = trim_start_matches_str(k.as_str(), "engine.");
                    merged.insert(String::from_str("-").concat(stripped), v.clone());
                }
            }
            if str_starts_with(k.as_str(), "user.") {
                let stripped = trim_start_matches_str(k.as_str(), "user.");
                request.insert(String::from_str(stripped), v.clone());
            }
            j = j + 1;
        }
        proof {
            assert(merged@ == spec_merged_config(defaults, config, config.len() as int));
            assert(request@ == spec_request_config(config, config.len() as int));
        }

        let url_base: String = match mlsql_config.get("engine.url") {
            Some(u) => String::from_str(trim_end_matches_str(u.as_str(), "/")),
            None => String::from_str("http://127.0.0.1:").concat(port_str.as_str()),
        };
        self.engine_url = url_base.concat("/run/script");
        proof {
            assert(self.engine_url@ == spec_engine_url(config, port_str@));
        }

        let ghost merged_view = merged@;
        let mut arr = map_to_array(merged);
        let mut command: Vec<String> = Vec::new();
        let has_xmx = !xmx.as_str().is_empty();
        if has_xmx {
            command.push(xmx);
        }
        command.push(String::from_str("-cp"));
        command.push(classpath);
        command.push(String::from_str("streaming.core.StreamingApp"));
        let ghost arrdv = arr.deep_view();
        proof {
            assert(arrdv.len() == spec_flatten_pairs(merged_view).len());
            assert forall|i: int| 0 <= i < arrdv.len() implies arrdv[i] == spec_flatten_pairs(
                merged_view,
            )[i] by {
                let half = i / 2;
                if i % 2 == 0 {
                    assert(i == 2 * half);
                    assert(arrdv[2 * half] == merged_view[half].0);
                } else {
                    assert(i == 2 * half + 1);
                    assert(arrdv[2 * half + 1] == merged_view[half].1);
                }
            }
            assert(arrdv =~= spec_flatten_pairs(merged_view));
        }
        let ghost head = command.deep_view();
        command.append(&mut arr);
        proof {
            assert(command.deep_view() =~= head + spec_flatten_pairs(merged_view));
            assert(command.deep_view() =~= spec_byzer_command(
                self.byzer_home@,
                config,
                port_str@,
                owner0,
                os,
            ));
        }
        self.byzer_command = command;
        self.request_config = request;
    }
}

/// One classpath entry: a library directory under the home, with a
/// trailing wildcard.
fn lib_glob(home: &str, os: OsKind, name: &str) -> (r: String)
    ensures
        r@ == spec_lib_glob(home@, os, name@),
{
    let sep = path_sep_str(os);
    let r = String::from_str(home).concat(sep).concat(name).concat(sep).concat("*");
    proof {
        assert(r@ =~= spec_lib_glob(home@, os, name@));
    }
    r
}

/// The prefix of an engine reply that reports a transport failure rather
/// than a result.
pub open spec fn spec_failure_note() -> Seq<char> {
    "Fail to execute caused by"@
}

/// Reads a version probe's reply: a reply that reports a transport
/// failure yields `None`, any other reply is the engine's version
/// document, handed back whole.
pub fn show_version(response: &str) -> (r: Option<String>)
    ensures
        match r {
            Some(s) => !spec_starts_with(response@, spec_failure_note()) && s@ == response@,
            None => spec_starts_with(response@, spec_failure_note()),
        },
{
    if str_starts_with(response, "Fail to execute caused by") {
        None
    } else {
        Some(String::from_str(response))
    }
}

/// The form parameters of one script request, before the transport adds
/// nothing: the script, its owner, the reply-size cap, and every
/// configured request parameter, which may override the first three.
pub open spec fn spec_script_params(
    sql: Seq<char>,
    owner: Seq<char>,
    config: Seq<(Seq<char>, Seq<char>)>,
    n: int,
) -> Seq<(Seq<char>, Seq<char>)>
    decreases n,
{
    if n <= 0 {
        seq![("sql"@, sql), ("owner"@, owner), ("outputSize"@, "50"@)]
    } else {
        spec_map_insert(
            spec_script_params(sql, owner, config, n - 1),
            config[n - 1].0,
            config[n - 1].1,
        )
    }
}

/// Assembles the form parameters of one script request.
pub fn script_request_params(sql: &str, owner: &str, config: &ParamMap) -> (r: ParamMap)
    ensures
        r@ == spec_script_params(sql@, owner@, config@, config@.len() as int),
{
    let mut pairs: Vec<(String, String)> = Vec::new();
    pairs.push((String::from_str("sql"), String::from_str(sql)));
    pairs.push((String::from_str("owner"), String::from_str(owner)));
    pairs.push((String::from_str("outputSize"), String::from_str("50")));
    let mut r = ParamMap::from_pairs(pairs);
    proof {
        assert(r@ =~= spec_script_params(sql@, owner@, config@, 0));
    }
    let n = config.len();
    let mut i: usize = 0;
    while i < n
        invariant
            i <= n,
            n == config@.len(),
            r@ == spec_script_params(sql@, owner@, config@, i as int),
        decreases n - i,
    {
        r.insert(config.key_at(i).clone(), config.value_at(i).clone());
        i = i + 1;
    }
    r
}

} // verus!
