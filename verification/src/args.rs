use vstd::prelude::*;
use vstd::string::*;


verus! {

/// Command-line arguments.
pub struct Args {
    /// Paths of the configuration TOML files.
    pub config: Option<Vec<String>>,
    /// Configuration overrides in TOML `key=value` syntax.
    pub option: Vec<String>,
    pub read_only: bool,
    pub maintenance: bool,
    pub console: bool,
    pub execute: Vec<String>,
    pub test: Vec<String>,
    pub bench: Vec<String>,
    pub worker_threads: usize,
    pub global_event_interval: u32,
    pub kernel_event_interval: u32,
    pub kernel_events_per_tick: usize,
    pub worker_histogram_interval: u64,
    pub worker_histogram_buckets: usize,
    pub worker_affinity: bool,
    pub gc_on_park: Option<bool>,
    pub gc_muzzy: Option<bool>,
}

/// The override that a functional test adds.
pub open spec fn localhost_override() -> Seq<char> {
    "server_name=\"localhost\""@
}

fn copy_str(s: &str) -> (r: String)
    ensures
        r@ == s@,
{
    s.to_owned()
}

impl Args {
    /// The arguments of a functional test: `base` with the test names added
    /// and the server name set to `localhost`; every other field as in
    /// `base`.
    pub fn default_test(base: Args, name: &[&str]) -> (r: Args)
        ensures
            r.test@.map_values(|s: String| s@) == base.test@.map_values(|s: String| s@) + name@.map_values(
                |s: &str| s@,
            ),
            r.option@.map_values(|s: String| s@) == base.option@.map_values(|s: String| s@).push(
                localhost_override(),
            ),
            r == (Args { test: r.test, option: r.option, ..base }),
    {
        let mut args = base;
        let ghost t0 = args.test@;
        let mut i: usize = 0;
        while i < name.len()
            invariant
                i <= name@.len(),
                args.test@.map_values(|s: String| s@) == t0.map_values(|s: String| s@) + name@.take(
                    i as int,
                ).map_values(|s: &str| s@),
                args == (Args { test: args.test, ..base }),
            decreases name.len() - i,
        {
            let ghost before = args.test@;
            args.test.push(copy_str(name[i]));
            proof {
                assert(name@.take(i + 1) =~= name@.take(i as int).push(name@[i as int]));
                assert(args.test@.map_values(|s: String| s@) =~= before.map_values(|s: String| s@).push(
                    name@[i as int]@,
                ));
                assert(name@.take(i + 1).map_values(|s: &str| s@) =~= name@.take(i as int).map_values(
                    |s: &str| s@,
                ).push(name@[i as int]@));
            }
            i = i + 1;
        }
        proof {
            assert(name@.take(name@.len() as int) =~= name@);
        }
        let ghost o0 = args.option@;
        proof {
            reveal_strlit("server_name=\"localhost\"");
        }
        args.option.push(copy_str("server_name=\"localhost\""));
        proof {
            assert(args.option@.map_values(|s: String| s@) =~= o0.map_values(|s: String| s@).push(
                localhost_override(),
            ));
        }
        args
    }
}

pub open spec fn spec_flag_overrides(args: Args) -> Seq<(Seq<char>, bool)> {
    (if args.read_only {
        seq![("rocksdb_read_only"@, true)]
    } else {
        Seq::empty()
    }) + (if args.maintenance || args.read_only {
        seq![("startup_netburst"@, false), ("listening"@, false)]
    } else {
        Seq::empty()
    }) + (if args.console {
        seq![("admin_console_automatic"@, true)]
    } else {
        Seq::empty()
    })
}

/// The settings that the flags imply, in the order in which they are
/// applied: read-only mode stores read-only, read-only and maintenance mode
/// stop listening, and the console flag starts the admin console. The
/// commands to execute and the test names are appended after them.
pub fn flag_overrides(args: &Args) -> (r: Vec<(&'static str, bool)>)
    ensures
        r@.map_values(|p: (&'static str, bool)| (p.0@, p.1)) == spec_flag_overrides(*args),
{
    proof {
        reveal_strlit("rocksdb_read_only");
        reveal_strlit("startup_netburst");
        reveal_strlit("listening");
        reveal_strlit("admin_console_automatic");
    }
    let mut r: Vec<(&'static str, bool)> = Vec::new();
    if args.read_only {
        r.push(("rocksdb_read_only", true));
    }
    if args.maintenance || args.read_only {
        r.push(("startup_netburst", false));
        r.push(("listening", false));
    }
    if args.console {
        r.push(("admin_console_automatic", true));
    }
    proof {
        assert(r@.map_values(|p: (&'static str, bool)| (p.0@, p.1)) =~= spec_flag_overrides(*args));
    }
    r
}

/// Why a `-O/--option` override is refused.
#[derive(Debug, Clone, PartialEq, Eq)]
pub enum OptionError {
    MissingEquals,
    MissingKey,
    MissingValue,
    /// The override is no line of a TOML file; the parser's message.
    InvalidToml(String),
}

/// The message of the TOML parser for `s`, or `None` when `s` is a TOML
/// document.
pub uninterp spec fn toml_error(s: Seq<char>) -> Option<Seq<char>>;

/// `toml::from_str` into a TOML table: the parser's message when `s` is no
/// TOML document.
#[verifier::external_body]
fn parse_toml(s: &str) -> (r: Option<String>)
    ensures
        match toml_error(s@) {
            Some(m) => r matches Some(v) && v@ == m,
            None => r is None,
        },
{
    toml::from_str::<toml::Table>(s).err().map(|e| e.to_string())
}

/// The position of the first `=` in `s`.
pub open spec fn first_equals(s: Seq<char>) -> Option<int> {
    if exists|i: int| 0 <= i < s.len() && s[i] == '=' {
        Some(choose|i: int| 0 <= i < s.len() && s[i] == '=' && forall|j: int| 0 <= j < i ==> s[j] != '=')
    } else {
        None
    }
}

/// Splits an override `key=value` at its first `=`: both sides must be
/// non-empty.
pub fn split_option(option: &str) -> (r: Result<(&str, &str), OptionError>)
    ensures
        first_equals(option@) is None ==> r == Err::<(&str, &str), OptionError>(OptionError::MissingEquals),
        first_equals(option@) matches Some(i) ==> {
            let (path, val) = (option@.take(i), option@.skip(i + 1));
            if path.len() == 0 {
                r == Err::<(&str, &str), OptionError>(OptionError::MissingKey)
            } else if val.len() == 0 {
                r == Err::<(&str, &str), OptionError>(OptionError::MissingValue)
            } else {
                r matches Ok((p, v)) && p@ == path && v@ == val
            }
        },
{
    let n = option.unicode_len();
    let mut i: usize = 0;
    while i < n
        invariant
            n == option@.len(),
            i <= n,
            forall|j: int| 0 <= j < i ==> option@[j] != '=',
        decreases n - i,
    {
        if option.get_char(i) == '=' {
            proof {
                let k = first_equals(option@)->0;
                if k != i {
                    if k < i {
                        assert(option@[k] != '=');
                    } else {
                        assert(option@[i as int] == '=');
                    }
                }
            }
            if i == 0 {
                return Err(OptionError::MissingKey);
            }
            if i + 1 == n {
                return Err(OptionError::MissingValue);
            }
            let path = option.substring_char(0, i);
            let val = option.substring_char(i + 1, n);
            proof {
                assert(option@.subrange(0, i as int) =~= option@.take(i as int));
                assert(option@.subrange(i + 1, n as int) =~= option@.skip(i + 1));
            }
            return Ok((path, val));
        }
        i = i + 1;
    }
    Err(OptionError::MissingEquals)
}

/// A value that the command line sets in the configuration.
pub enum OverrideValue {
    Bool(bool),
    /// Joined to the list the configuration holds.
    List(Vec<String>),
    /// A TOML value, as the `key=value` line gives it.
    Toml(String),
}

/// One setting of the configuration from the command line.
pub struct Override {
    pub key: String,
    pub value: OverrideValue,
}

proof fn lemma_first_equals_from(s: Seq<char>, k: int)
    requires
        0 <= k <= s.len(),
        forall|j: int| 0 <= j < k ==> s[j] != '=',
        exists|i: int| k <= i < s.len() && s[i] == '=',
    ensures
        exists|i: int| 0 <= i < s.len() && s[i] == '=' && forall|j: int| 0 <= j < i ==> s[j] != '=',
    decreases s.len() - k,
{
    if s[k] == '=' {
        assert(0 <= k < s.len() && s[k] == '=' && forall|j: int| 0 <= j < k ==> s[j] != '=');
    } else {
        lemma_first_equals_from(s, k + 1);
    }
}

/// The first `=` is found when there is one.
proof fn lemma_first_equals(s: Seq<char>)
    ensures
        first_equals(s) matches Some(i) ==> 0 <= i < s.len() && s[i] == '=' && forall|j: int|
            0 <= j < i ==> s[j] != '=',
{
    if exists|i: int| 0 <= i < s.len() && s[i] == '=' {
        lemma_first_equals_from(s, 0);
    }
}

/// An override that is taken: `key=value` with both sides non-empty, and a
/// line of a TOML file as a whole.
pub open spec fn option_ok(s: Seq<char>) -> bool {
    first_equals(s) matches Some(i) && i > 0 && i + 1 < s.len() && toml_error(s) is None
}

/// The error that refuses an override that is not taken: the first of a
/// missing `=`, key or value, then the TOML parser's message.
pub open spec fn option_refused_with(e: OptionError, s: Seq<char>) -> bool {
    match first_equals(s) {
        None => e == OptionError::MissingEquals,
        Some(i) => if i == 0 {
            e == OptionError::MissingKey
        } else if i + 1 == s.len() {
            e == OptionError::MissingValue
        } else {
            toml_error(s) matches Some(m) && e matches OptionError::InvalidToml(t) && t@ == m
        },
    }
}

fn copy_list(v: &Vec<String>) -> (r: Vec<String>)
    ensures
        r@ == v@,
{
    let r = v.clone();
    proof {
        assert(r@ =~= v@);
    }
    r
}

/// The configuration settings that the command line makes, in the order in
/// which they apply: the flags, the commands to execute, the test names,
/// then each `-O/--option`, split at its first `=`. The first malformed
/// option refuses them all, with its text and why.
pub fn config_overrides(args: &Args) -> (r: Result<Vec<Override>, (OptionError, String)>)
    ensures
        match r {
            Ok(v) => {
                &&& forall|i: int| 0 <= i < args.option@.len() ==> option_ok(#[trigger] args.option@[i]@)
                &&& v@.len() == spec_flag_overrides(*args).len() + 2 + args.option@.len()
                &&& forall|i: int|
                    0 <= i < spec_flag_overrides(*args).len() ==> (#[trigger] v@[i]).key@ == spec_flag_overrides(
                        *args,
                    )[i].0 && v@[i].value == OverrideValue::Bool(spec_flag_overrides(*args)[i].1)
                &&& v@[spec_flag_overrides(*args).len() as int].key@ == "admin_execute"@
                &&& (v@[spec_flag_overrides(*args).len() as int].value matches OverrideValue::List(l) && l@
                    == args.execute@)
                &&& v@[spec_flag_overrides(*args).len() + 1int].key@ == "test"@
                &&& (v@[spec_flag_overrides(*args).len() + 1int].value matches OverrideValue::List(l) && l@
                    == args.test@)
                &&& forall|i: int|
                    0 <= i < args.option@.len() ==> {
                        let o = args.option@[i]@;
                        let k = first_equals(o)->0;
                        let e = #[trigger] v@[spec_flag_overrides(*args).len() + 2 + i];
                        e.key@ == o.take(k) && (e.value matches OverrideValue::Toml(t) && t@ == o)
                    }
            },
            Err((e, text)) => exists|i: int|
                0 <= i < args.option@.len() && !option_ok(#[trigger] args.option@[i]@) && option_refused_with(
                    e,
                    args.option@[i]@,
                ) && text@ == args.option@[i]@ && forall|j: int|
                    0 <= j < i ==> option_ok(#[trigger] args.option@[j]@),
        },
{
    proof {
        reveal_strlit("admin_execute");
        reveal_strlit("test");
    }
    let flags = flag_overrides(args);
    let mut out: Vec<Override> = Vec::new();
    let mut i: usize = 0;
    while i < flags.len()
        invariant
            i <= flags@.len(),
            flags@.map_values(|p: (&'static str, bool)| (p.0@, p.1)) == spec_flag_overrides(*args),
            out@.len() == i,
            forall|k: int|
                0 <= k < i ==> (#[trigger] out@[k]).key@ == spec_flag_overrides(*args)[k].0 && out@[k].value
                    == OverrideValue::Bool(spec_flag_overrides(*args)[k].1),
        decreases flags.len() - i,
    {
        let (key, value) = flags[i];
        proof {
            assert(flags@.map_values(|p: (&'static str, bool)| (p.0@, p.1))[i as int] == (key@, value));
        }
        out.push(Override { key: key.to_string(), value: OverrideValue::Bool(value) });
        i = i + 1;
    }
    let n = flags.len();
    proof {
        assert(n == spec_flag_overrides(*args).len()) by {
            assert(flags@.map_values(|p: (&'static str, bool)| (p.0@, p.1)).len() == flags@.len());
        }
    }
    out.push(Override { key: "admin_execute".to_string(), value: OverrideValue::List(copy_list(&args.execute)) });
    out.push(Override { key: "test".to_string(), value: OverrideValue::List(copy_list(&args.test)) });
    let mut j: usize = 0;
    while j < args.option.len()
        invariant
            n == spec_flag_overrides(*args).len(),
            j <= args.option@.len(),
            out@.len() == n + 2 + j,
            forall|k: int|
                0 <= k < n ==> (#[trigger] out@[k]).key@ == spec_flag_overrides(*args)[k].0 && out@[k].value
                    == OverrideValue::Bool(spec_flag_overrides(*args)[k].1),
            out@[n as int].key@ == "admin_execute"@,
            (out@[n as int].value matches OverrideValue::List(l) && l@ == args.execute@),
            out@[n + 1].key@ == "test"@,
            (out@[n + 1].value matches OverrideValue::List(l) && l@ == args.test@),
            forall|k: int| 0 <= k < j ==> option_ok(#[trigger] args.option@[k]@),
            forall|k: int|
                0 <= k < j ==> {
                    let o = args.option@[k]@;
                    let q = first_equals(o)->0;
                    let e = #[trigger] out@[n + 2 + k];
                    e.key@ == o.take(q) && (e.value matches OverrideValue::Toml(t) && t@ == o)
                },
        decreases args.option.len() - j,
    {
        let option = &args.option[j];
        match split_option(option.as_str()) {
            Ok((path, _val)) => {
                proof {
                    lemma_first_equals(option@);
                }
                match parse_toml(option.as_str()) {
                    Some(m) => {
                        proof {
                            assert(!option_ok(args.option@[j as int]@));
                        }
                        return Err((OptionError::InvalidToml(m), option.clone()));
                    },
                    None => {},
                }
                let ghost before = out@;
                out.push(Override { key: path.to_string(), value: OverrideValue::Toml(option.clone()) });
                proof {
                    let o = args.option@[j as int]@;
                    assert(option@ == o);
                    assert(first_equals(o) is Some);
                    lemma_first_equals(o);
                    let q = first_equals(o)->0;
                    assert(0 <= q < o.len() && o[q] == '=');
                    assert(o.take(q).len() != 0);
                    assert(o.skip(q + 1).len() != 0);
                    assert(q > 0 && q + 1 < o.len());
                    assert(option_ok(args.option@[j as int]@));
                    assert forall|k: int| 0 <= k < n implies (#[trigger] out@[k]).key@ == spec_flag_overrides(
                        *args,
                    )[k].0 && out@[k].value == OverrideValue::Bool(spec_flag_overrides(*args)[k].1) by {
                        assert(out@[k] == before[k]);
                    }
                    assert(out@[n as int] == before[n as int]);
                    assert(out@[n + 1] == before[n + 1]);
                    assert forall|k: int|
                        0 <= k < j + 1 implies {
                            let o = args.option@[k]@;
                            let q = first_equals(o)->0;
                            let e = #[trigger] out@[n + 2 + k];
                            e.key@ == o.take(q) && (e.value matches OverrideValue::Toml(t) && t@ == o)
                        } by {
                        if k < j {
                            assert(out@[n + 2 + k] == before[n + 2 + k]);
                        }
                    }
                }
            },
            Err(e) => {
                proof {
                    lemma_first_equals(option@);
                    assert(!option_ok(args.option@[j as int]@));
                }
                return Err((e, option.clone()));
            },
        }
        j = j + 1;
    }
    Ok(out)
}

} // verus!
