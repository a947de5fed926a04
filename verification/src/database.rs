use vstd::prelude::*;
use vstd::string::*;

verus! {

/// The state of the storage engine that corking acts on: how many corks are
/// held, and how many flushes and syncs have been asked for.
pub struct Engine {
    pub corks: u32,
    pub flushes: u64,
    pub syncs: u64,
    /// Whether reads verify block checksums.
    pub checksums: bool,
}

impl Engine {
    /// Writes are held back while a cork is held.
    pub open spec fn spec_corked(&self) -> bool {
        self.corks > 0
    }

    /// See [`Engine::spec_corked`].
    pub fn corked(&self) -> (r: bool)
        ensures
            r == self.spec_corked(),
    {
        self.corks > 0
    }

    fn cork(&mut self)
        ensures
            final(self).corks == old(self).corks.wrapping_add(1),
            final(self).flushes == old(self).flushes,
            final(self).syncs == old(self).syncs,
            final(self).checksums == old(self).checksums,
    {
        self.corks = self.corks.wrapping_add(1);
    }

    fn uncork(&mut self)
        ensures
            final(self).corks == old(self).corks.wrapping_sub(1),
            final(self).flushes == old(self).flushes,
            final(self).syncs == old(self).syncs,
            final(self).checksums == old(self).checksums,
    {
        self.corks = self.corks.wrapping_sub(1);
    }

    fn flush(&mut self)
        ensures
            final(self).flushes == old(self).flushes.wrapping_add(1),
            final(self).corks == old(self).corks,
            final(self).syncs == old(self).syncs,
            final(self).checksums == old(self).checksums,
    {
        self.flushes = self.flushes.wrapping_add(1);
    }

    fn sync(&mut self)
        ensures
            final(self).syncs == old(self).syncs.wrapping_add(1),
            final(self).corks == old(self).corks,
            final(self).flushes == old(self).flushes,
            final(self).checksums == old(self).checksums,
    {
        self.syncs = self.syncs.wrapping_add(1);
    }

    /// After a removal: flushes unless a cork is held.
    pub fn after_remove(&mut self)
        ensures
            final(self).flushes == if old(self).spec_corked() {
                old(self).flushes
            } else {
                old(self).flushes.wrapping_add(1)
            },
            final(self).corks == old(self).corks,
            final(self).syncs == old(self).syncs,
            final(self).checksums == old(self).checksums,
    {
        if !self.corked() {
            self.flush();
        }
    }
}

/// The engine after a cork is taken.
pub open spec fn corked_engine(e: Engine) -> Engine {
    Engine { corks: e.corks.wrapping_add(1), ..e }
}

/// The engine after a cork is released that flushes and syncs as asked.
pub open spec fn released_engine(e: Engine, flush: bool, sync: bool) -> Engine {
    Engine {
        corks: e.corks.wrapping_sub(1),
        flushes: if flush {
            e.flushes.wrapping_add(1)
        } else {
            e.flushes
        },
        syncs: if sync {
            e.syncs.wrapping_add(1)
        } else {
            e.syncs
        },
        ..e
    }
}

/// The database, with its engine.
pub struct Database {
    pub engine: Engine,
}

/// A held cork: writes are batched until it is released, which then
/// flushes and syncs as it was asked to.
pub struct Cork {
    flush: bool,
    sync: bool,
}

impl Cork {
    pub closed spec fn spec_flush(&self) -> bool {
        self.flush
    }

    pub closed spec fn spec_sync(&self) -> bool {
        self.sync
    }

    fn new(engine: &mut Engine, flush: bool, sync: bool) -> (r: Cork)
        ensures
            final(engine).corks == old(engine).corks.wrapping_add(1),
            final(engine).flushes == old(engine).flushes,
            final(engine).syncs == old(engine).syncs,
            final(engine).checksums == old(engine).checksums,
            r.spec_flush() == flush,
            r.spec_sync() == sync,
    {
        engine.cork();
        Cork { flush, sync }
    }

    /// Releases the cork: uncorks, then flushes and syncs if asked to.
    pub fn release(self, db: &mut Database)
        ensures
            final(db).engine == released_engine(old(db).engine, self.spec_flush(), self.spec_sync()),
    {
        db.engine.uncork();
        if self.flush {
            db.engine.flush();
        }
        if self.sync {
            db.engine.sync();
        }
    }
}

impl Database {
    /// Holds a cork that neither flushes nor syncs when released.
    pub fn cork(&mut self) -> (r: Cork)
        ensures
            final(self).engine == corked_engine(old(self).engine),
            !r.spec_flush(),
            !r.spec_sync(),
    {
        Cork::new(&mut self.engine, false, false)
    }

    /// Holds a cork that flushes when released.
    pub fn cork_and_flush(&mut self) -> (r: Cork)
        ensures
            final(self).engine == corked_engine(old(self).engine),
            r.spec_flush(),
            !r.spec_sync(),
    {
        Cork::new(&mut self.engine, true, false)
    }

    /// Holds a cork that flushes and syncs when released.
    pub fn cork_and_sync(&mut self) -> (r: Cork)
        ensures
            final(self).engine == corked_engine(old(self).engine),
            r.spec_flush(),
            r.spec_sync(),
    {
        Cork::new(&mut self.engine, true, true)
    }
}

/// Taking a cork and releasing it leaves the number of held corks as it
/// was, and adds exactly the flush and the sync that the cork asked for.
pub proof fn lemma_cork_release_restores(e: Engine, flush: bool, sync: bool)
    ensures
        released_engine(corked_engine(e), flush, sync).corks == e.corks,
        released_engine(corked_engine(e), flush, sync).flushes == if flush {
            e.flushes.wrapping_add(1)
        } else {
            e.flushes
        },
        released_engine(corked_engine(e), flush, sync).syncs == if sync {
            e.syncs.wrapping_add(1)
        } else {
            e.syncs
        },
{
}

/// Where reads are served from.
#[derive(Debug, Clone, Copy, PartialEq, Eq, Structural)]
pub enum ReadTier {
    All,
    BlockCache,
}

/// The read options that the database sets.
#[derive(Debug, Clone, Copy, PartialEq, Eq, Structural)]
pub struct ReadOptions {
    pub total_order_seek: bool,
    pub verify_checksums: bool,
    pub read_tier: ReadTier,
    pub fill_cache: bool,
    pub background_purge_on_iterator_cleanup: bool,
}

/// Defaults for point reads: total-order seek, with checksums verified only
/// when the engine verifies them.
pub fn read_options_default(engine: &Engine) -> (r: ReadOptions)
    ensures
        r == (ReadOptions {
            total_order_seek: true,
            verify_checksums: engine.checksums,
            read_tier: ReadTier::All,
            fill_cache: true,
            background_purge_on_iterator_cleanup: false,
        }),
{
    let mut options = ReadOptions {
        total_order_seek: false,
        verify_checksums: true,
        read_tier: ReadTier::All,
        fill_cache: true,
        background_purge_on_iterator_cleanup: false,
    };
    options.total_order_seek = true;
    if !engine.checksums {
        options.verify_checksums = false;
    }
    options
}

/// As [`read_options_default`], served from the block cache only, without
/// filling it.
pub fn cache_read_options_default(engine: &Engine) -> (r: ReadOptions)
    ensures
        r == (ReadOptions {
            read_tier: ReadTier::BlockCache,
            fill_cache: false,
            ..read_options_default_spec(engine)
        }),
{
    let mut options = read_options_default(engine);
    options.read_tier = ReadTier::BlockCache;
    options.fill_cache = false;
    options
}

pub open spec fn read_options_default_spec(engine: &Engine) -> ReadOptions {
    ReadOptions {
        total_order_seek: true,
        verify_checksums: engine.checksums,
        read_tier: ReadTier::All,
        fill_cache: true,
        background_purge_on_iterator_cleanup: false,
    }
}

/// As [`read_options_default`], purging in the background when an
/// iterator is dropped.
pub fn iter_options_default(engine: &Engine) -> (r: ReadOptions)
    ensures
        r == (ReadOptions {
            background_purge_on_iterator_cleanup: true,
            ..read_options_default_spec(engine)
        }),
{
    let mut options = read_options_default(engine);
    options.background_purge_on_iterator_cleanup = true;
    options
}

/// As [`iter_options_default`], served from the block cache only, without
/// filling it.
pub fn cache_iter_options_default(engine: &Engine) -> (r: ReadOptions)
    ensures
        r == (ReadOptions {
            background_purge_on_iterator_cleanup: true,
            read_tier: ReadTier::BlockCache,
            fill_cache: false,
            ..read_options_default_spec(engine)
        }),
{
    let mut options = iter_options_default(engine);
    options.read_tier = ReadTier::BlockCache;
    options.fill_cache = false;
    options
}

/// The levels of the storage engine's log messages.
#[derive(Debug, Clone, Copy, PartialEq, Eq, Structural)]
pub enum LogLevel {
    Debug,
    Info,
    Warn,
    Error,
    Fatal,
    Header,
}

/// The levels that the server logs at.
#[derive(Debug, Clone, Copy, PartialEq, Eq, Structural)]
pub enum LogTarget {
    Trace,
    Debug,
    Warn,
    Error,
}

/// Unicode's White_Space property, by which `char::is_whitespace` and
/// `str::trim` go.
pub open spec fn is_white_space(c: char) -> bool {
    let u = c as u32;
    ||| 0x09 <= u <= 0x0D
    ||| u == 0x20
    ||| u == 0x85
    ||| u == 0xA0
    ||| u == 0x1680
    ||| 0x2000 <= u <= 0x200A
    ||| u == 0x2028
    ||| u == 0x2029
    ||| u == 0x202F
    ||| u == 0x205F
    ||| u == 0x3000
}

/// `s` without its leading and trailing white space.
pub open spec fn trimmed(s: Seq<char>) -> Seq<char>
    decreases s.len(),
{
    if s.len() > 0 && is_white_space(s[0]) {
        trimmed(s.drop_first())
    } else if s.len() > 0 && is_white_space(s.last()) {
        trimmed(s.drop_last())
    } else {
        s
    }
}

/// `str::trim`: the string without leading and trailing white space, as
/// [`trimmed`] states.
#[verifier::external_body]
fn str_trim(s: &str) -> (r: &str)
    ensures
        r@ == trimmed(s@),
{
    s.trim()
}

pub open spec fn is_prefix(p: Seq<char>, s: Seq<char>) -> bool {
    p.len() <= s.len() && s.take(p.len() as int) == p
}

/// Whether `s` starts with `p`.
pub fn starts_with(s: &str, p: &str) -> (r: bool)
    ensures
        r == is_prefix(p@, s@),
{
    let ls = s.unicode_len();
    let lp = p.unicode_len();
    if lp > ls {
        return false;
    }
    let mut i: usize = 0;
    while i < lp
        invariant
            ls == s@.len(),
            lp == p@.len(),
            lp <= ls,
            i <= lp,
            forall|j: int| 0 <= j < i ==> s@[j] == p@[j],
        decreases lp - i,
    {
        if s.get_char(i) != p.get_char(i) {
            proof {
                assert(s@.take(lp as int)[i as int] != p@[i as int]);
            }
            return false;
        }
        i = i + 1;
    }
    proof {
        assert(s@.take(lp as int) =~= p@);
    }
    true
}

pub open spec fn is_options_dump(msg: Seq<char>) -> bool {
    is_prefix("Options"@, msg) || is_prefix("table_factory options"@, msg)
}

pub open spec fn spec_log_target(level: LogLevel, msg: Seq<char>) -> LogTarget {
    if is_options_dump(trimmed(msg)) {
        LogTarget::Trace
    } else {
        match level {
            LogLevel::Header | LogLevel::Debug | LogLevel::Info => LogTarget::Debug,
            LogLevel::Error | LogLevel::Fatal => LogTarget::Error,
            LogLevel::Warn => LogTarget::Warn,
        }
    }
}

/// Routes a storage engine log message: option dumps go to trace, errors
/// to error, warnings to warn, the rest to debug. Gives the trimmed message
/// to log.
pub fn handle(level: LogLevel, msg: &str) -> (r: (LogTarget, &str))
    ensures
        r.0 == spec_log_target(level, msg@),
        r.1@ == trimmed(msg@),
{
    let msg = str_trim(msg);
    proof {
        reveal_strlit("Options");
        reveal_strlit("table_factory options");
    }
    let is_options = starts_with(msg, "Options") || starts_with(msg, "table_factory options");
    let target = if is_options {
        LogTarget::Trace
    } else {
        match level {
            LogLevel::Header | LogLevel::Debug => LogTarget::Debug,
            LogLevel::Error | LogLevel::Fatal => LogTarget::Error,
            LogLevel::Info => LogTarget::Debug,
            LogLevel::Warn => LogTarget::Warn,
        }
    };
    (target, msg)
}

} // verus!
