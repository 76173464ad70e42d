use vstd::prelude::*;

use crate::context::short_id;
use crate::text::{chars_of, decimal, decimal_string, push_char, push_str, string_of_range};

verus! {

/// Days a log file is kept unless configured otherwise.
pub const DEFAULT_RETENTION_DAYS: u64 = 30;

/// `dir` joined with `name`, with one separator between them.
pub open spec fn joined_path(dir: Seq<char>, name: Seq<char>) -> Seq<char> {
    if dir.len() == 0 || dir.last() == '/' {
        dir + name
    } else {
        dir + seq!['/'] + name
    }
}

/// Join a file name onto a directory.
pub fn join_path(dir: &str, name: &str) -> (r: String)
    ensures
        r@ == joined_path(dir@, name@),
{
    let d = chars_of(dir);
    let mut out = String::from_str(dir);
    if d.len() > 0 && d[d.len() - 1] != '/' {
        push_char(&mut out, '/');
    }
    push_str(&mut out, name);
    proof {
        if d@.len() > 0 && d@.last() != '/' {
            assert(out@ =~= dir@ + seq!['/'] + name@);
        }
    }
    out
}

/// A model name made safe for a file name: `/`, `:` and `.` become `_`.
pub open spec fn sanitized(m: Seq<char>) -> Seq<char> {
    m.map_values(|c: char| if c == '/' || c == ':' || c == '.' { '_' } else { c })
}

pub fn sanitize_model(m: &str) -> (r: String)
    ensures
        r@ == sanitized(m@),
{
    let c = chars_of(m);
    let mut out = String::new();
    let mut i: usize = 0;
    while i < c.len()
        invariant
            i <= c@.len(),
            c@ == m@,
            out@ == sanitized(c@.take(i as int)),
        decreases c.len() - i,
    {
        let ch = c[i];
        let o = if ch == '/' || ch == ':' || ch == '.' {
            '_'
        } else {
            ch
        };
        push_char(&mut out, o);
        i = i + 1;
        assert(out@ =~= sanitized(c@.take(i as int)));
    }
    assert(c@.take(c@.len() as int) =~= c@);
    out
}

/// The first eight characters of a request id.
pub open spec fn short8(s: Seq<char>) -> Seq<char> {
    if s.len() <= 8 {
        s
    } else {
        s.take(8)
    }
}

/// The name of a log file: time stamp, short request id, sequence number and model.
pub open spec fn log_file_name(stamp: Seq<char>, request_id: Seq<char>, seq: u64, model: Seq<char>) -> Seq<char> {
    stamp + "_"@ + short8(request_id) + "_"@ + decimal(seq as nat) + "_"@ + sanitized(model) + ".json"@
}

/// Writes each completed exchange of a session to a file of its own.
pub struct FileLoggerHook {
    log_dir: String,
    retention_days: u64,
    enabled: bool,
}

impl FileLoggerHook {
    pub closed spec fn spec_log_dir(&self) -> Seq<char> {
        self.log_dir@
    }

    pub closed spec fn spec_retention_days(&self) -> u64 {
        self.retention_days
    }

    pub closed spec fn spec_enabled(&self) -> bool {
        self.enabled
    }

    /// A logger writing under `log_dir`, enabled, keeping files thirty days.
    pub fn new(log_dir: String) -> (r: Self)
        ensures
            r.spec_log_dir() == log_dir@,
            r.spec_retention_days() == 30,
            r.spec_enabled(),
    {
        FileLoggerHook { log_dir, retention_days: DEFAULT_RETENTION_DAYS, enabled: true }
    }

    /// The default log directory under a home directory (`.` where unknown).
    pub fn default_log_dir(home: Option<&str>) -> (r: String)
        ensures
            r@ == joined_path(
                joined_path(
                    match home {
                        Some(h) => h@,
                        None => "."@,
                    },
                    ".sessioncast"@,
                ),
                "logs"@,
            ),
    {
        let h = match home {
            Some(h) => h,
            None => ".",
        };
        let d = join_path(h, ".sessioncast");
        join_path(d.as_str(), "logs")
    }

    pub fn with_retention_days(self, days: u64) -> (r: Self)
        ensures
            r.spec_retention_days() == days,
            r.spec_log_dir() == self.spec_log_dir(),
            r.spec_enabled() == self.spec_enabled(),
    {
        FileLoggerHook { retention_days: days, ..self }
    }

    pub fn set_enabled(&mut self, enabled: bool)
        ensures
            final(self).spec_enabled() == enabled,
            final(self).spec_log_dir() == old(self).spec_log_dir(),
            final(self).spec_retention_days() == old(self).spec_retention_days(),
    {
        self.enabled = enabled;
    }

    pub fn is_enabled(&self) -> (r: bool)
        ensures
            r == self.spec_enabled(),
    {
        self.enabled
    }

    pub fn log_dir(&self) -> (r: &String)
        ensures
            r@ == self.spec_log_dir(),
    {
        &self.log_dir
    }

    pub fn retention_days(&self) -> (r: u64)
        ensures
            r == self.spec_retention_days(),
    {
        self.retention_days
    }

    /// The directory of a session's logs, named by the first sixteen characters of its id.
    pub fn get_session_dir(&self, session_id: &str) -> (r: String)
        ensures
            r@ == joined_path(self.spec_log_dir(), short_id(session_id@)),
    {
        let c = chars_of(session_id);
        let n = if c.len() <= 16 {
            c.len()
        } else {
            16
        };
        let short = string_of_range(&c, 0, n);
        assert(c@.len() <= 16 ==> c@.subrange(0, n as int) =~= c@);
        join_path(self.log_dir.as_str(), short.as_str())
    }

    /// The file name of a record.
    pub fn generate_filename(&self, stamp: &str, request_id: &str, request_num: u64, model: &str) -> (r:
        String)
        ensures
            r@ == log_file_name(stamp@, request_id@, request_num, model@),
    {
        let rc = chars_of(request_id);
        let n = if rc.len() <= 8 {
            rc.len()
        } else {
            8
        };
        let short = string_of_range(&rc, 0, n);
        assert(rc@.len() <= 8 ==> rc@.subrange(0, n as int) =~= rc@);
        let mut out = String::from_str(stamp);
        push_str(&mut out, "_");
        push_str(&mut out, short.as_str());
        push_str(&mut out, "_");
        let num = decimal_string(request_num);
        push_str(&mut out, num.as_str());
        push_str(&mut out, "_");
        let m = sanitize_model(model);
        push_str(&mut out, m.as_str());
        push_str(&mut out, ".json");
        out
    }

    /// Whether a file last written at `modified` (seconds since the epoch) is
    /// past the retention window at `now`.
    pub fn is_expired(&self, modified: i64, now: i64) -> (r: bool)
        ensures
            r == (now - modified > self.spec_retention_days() * 86400),
    {
        let age: i128 = now as i128 - modified as i128;
        let window: i128 = self.retention_days as i128 * 86400;
        age > window
    }
}

/// A log file: a name with something before a `.json` extension.
pub open spec fn is_log_file_name(name: Seq<char>) -> bool {
    name.len() > 5 && name.skip(name.len() - 5) == ".json"@
}

/// Whether a file found under a session directory is a log file.
pub fn is_log_file(name: &str) -> (r: bool)
    ensures
        r == is_log_file_name(name@),
{
    let c = chars_of(name);
    if c.len() <= 5 {
        return false;
    }
    let n = c.len();
    let ext = chars_of(".json");
    let r = crate::text::matches_at(&c, &ext, n - 5);
    proof {
        reveal_strlit(".json");
        assert(c@.skip(n - 5) =~= c@.subrange(n - 5, n as int));
    }
    r
}

/// Whether a session directory goes after a sweep: it held entries and the
/// sweep deleted every one of them.
pub fn session_dir_emptied(entries: usize, deleted: usize) -> (r: bool)
    ensures
        r == (entries > 0 && deleted == entries),
{
    entries > 0 && deleted == entries
}

} // verus!
