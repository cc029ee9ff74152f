//! # File output
//!
//! - sends output into a rotating file
//!
//! ### catapult.conf
//!
//! ```text
//! output {
//!   file {
//!     directory = "./logs/"
//!   }
//! }
//! ```
//! ### Parameters
//!
//! - **directory**: Base directory into which logs are created. Can be a strftime pattern.
//!
//! Every line is written to the file whose name the pattern
//! `<directory>%Y-%m-%d-%H:00.log` gives at the time the line arrives, so a
//! new file starts every hour. The decisions taken on each line stand here:
//! `Rotation::step` says when a directory must be made and when a file must be
//! opened; the caller does the file system work.

use vstd::prelude::*;

use crate::params::Params;
use crate::text::{decimal, digit_char};
use crate::processor::{
    config_field, config_view, field_of, str_views, text_result, ConfigError, ConfigFault,
    Processor,
};

verus! {

/// What `Path::parent` gives for the path `p`, as a string.
pub uninterp spec fn parent_of(p: Seq<char>) -> Option<Seq<char>>;

/// Whether `Path` equality holds between `a` and `b`.
pub uninterp spec fn same_path(a: Seq<char>, b: Seq<char>) -> bool;

/// The directory that holds the path `p`, if it has one.
///
/// Trusted: `Path::parent` depends on the path alone, and gives a parent to
/// every non-empty path that does not start at the root: it gives none only
/// to the empty path and to a path that ends in a root. Which prefix it
/// gives, and whether it gives one to a path from the root, is not stated
/// here.
#[verifier::external_body]
fn path_parent(p: &str) -> (res: Option<String>)
    ensures
        res matches Some(d) ==> parent_of(p@) == Some(d@),
        res is None ==> parent_of(p@) is None,
        p@.len() > 0 && p@[0] != '/' ==> res is Some,
{
    match std::path::Path::new(p).parent() {
        Some(d) => Some(d.to_string_lossy().into_owned()),
        None => None,
    }
}

/// Whether the two strings name the same path.
///
/// Trusted: `Path` equality compares the paths' components, so it depends on
/// the two paths alone, holds between a path and itself, and does not hold
/// between the empty path, which has no component, and a path that has a
/// parent, whose last component it leaves out. Which other paths it equates
/// is not stated here.
#[verifier::external_body]
fn paths_equal(a: &str, b: &str) -> (res: bool)
    ensures
        res == same_path(a@, b@),
        a@ == b@ ==> res,
        parent_of(a@) is Some && b@.len() == 0 ==> !res,
{
    std::path::Path::new(a) == std::path::Path::new(b)
}

/// A broken-down time, with the fields of `time::Tm`.
#[derive(Clone, Copy, PartialEq, Eq, Debug, Structural)]
pub struct TimeFields {
    /// Seconds after the minute, 0 to 60.
    pub sec: i32,
    /// Minutes after the hour, 0 to 59.
    pub min: i32,
    /// Hours after midnight, 0 to 23.
    pub hour: i32,
    /// Day of the month, 1 to 31.
    pub mday: i32,
    /// Months since January, 0 to 11.
    pub mon: i32,
    /// Years since 1900.
    pub year: i32,
    /// Days since Sunday, 0 to 6.
    pub wday: i32,
    /// Days since January 1, 0 to 365.
    pub yday: i32,
    /// Daylight Saving Time flag.
    pub isdst: i32,
    /// Seconds east of UTC.
    pub utcoff: i32,
    /// Nanoseconds, 0 to 999,999,999.
    pub nsec: i32,
}

impl TimeFields {
    /// Every field lies in the range that `time::Tm` documents for it, and
    /// the year is one that the formatting can add 1900 to.
    pub open spec fn in_range(&self) -> bool {
        &&& 0 <= self.sec <= 60
        &&& 0 <= self.min <= 59
        &&& 0 <= self.hour <= 23
        &&& 1 <= self.mday <= 31
        &&& 0 <= self.mon <= 11
        &&& -1_000_000 <= self.year <= 1_000_000
        &&& 0 <= self.wday <= 6
        &&& 0 <= self.yday <= 365
        &&& -86_400 <= self.utcoff <= 86_400
        &&& 0 <= self.nsec <= 999_999_999
    }

    /// Whether every field lies in its range.
    pub fn is_in_range(&self) -> (res: bool)
        ensures
            res == self.in_range(),
    {
        0 <= self.sec && self.sec <= 60 && 0 <= self.min && self.min <= 59 && 0 <= self.hour
            && self.hour <= 23 && 1 <= self.mday && self.mday <= 31 && 0 <= self.mon && self.mon
            <= 11 && -1_000_000 <= self.year && self.year <= 1_000_000 && 0 <= self.wday
            && self.wday <= 6 && 0 <= self.yday && self.yday <= 365 && -86_400 <= self.utcoff
            && self.utcoff <= 86_400 && 0 <= self.nsec && self.nsec <= 999_999_999
    }
}

/// Whether the pattern holds the conversion `%s` (seconds since the epoch):
/// read from the left, each `%` takes the character after it.
pub open spec fn has_epoch_conversion(p: Seq<char>) -> bool
    decreases p.len(),
{
    if p.len() < 2 {
        false
    } else if p[0] == '%' {
        p[1] == 's' || has_epoch_conversion(p.skip(2))
    } else {
        has_epoch_conversion(p.skip(1))
    }
}

/// A pattern whose only conversions are `%Y`, `%m`, `%d`, `%H` and `%%`.
pub open spec fn simple_pattern(p: Seq<char>) -> bool
    decreases p.len(),
{
    if p.len() == 0 {
        true
    } else if p[0] == '%' {
        p.len() >= 2 && (p[1] == 'Y' || p[1] == 'm' || p[1] == 'd' || p[1] == 'H' || p[1] == '%')
            && simple_pattern(p.skip(2))
    } else {
        simple_pattern(p.skip(1))
    }
}

/// A number from 0 to 99 in two digits.
pub open spec fn two_digits(n: int) -> Seq<char> {
    seq![digit_char((n / 10) as nat), digit_char((n % 10) as nat)]
}

/// A number in decimal, with a `-` before a negative one.
pub open spec fn signed_decimal(n: int) -> Seq<char> {
    if n >= 0 {
        decimal(n as nat)
    } else {
        seq!['-'] + decimal((-n) as nat)
    }
}

/// What one of the conversions of a simple pattern writes.
pub open spec fn conversion(c: char, t: TimeFields) -> Seq<char> {
    if c == 'Y' {
        signed_decimal(t.year + 1900)
    } else if c == 'm' {
        two_digits(t.mon + 1)
    } else if c == 'd' {
        two_digits(t.mday as int)
    } else if c == 'H' {
        two_digits(t.hour as int)
    } else {
        seq!['%']
    }
}

/// What strftime writes for a simple pattern: the year, the month, the day
/// of the month and the hour where the pattern names them, every other
/// character as it stands.
pub open spec fn render(p: Seq<char>, t: TimeFields) -> Seq<char>
    decreases p.len(),
{
    if p.len() == 0 {
        Seq::empty()
    } else if p[0] == '%' && p.len() >= 2 {
        conversion(p[1], t) + render(p.skip(2), t)
    } else {
        seq![p[0]] + render(p.skip(1), t)
    }
}

/// Two times of the same hour of the same day give the same text for a
/// simple pattern: the lines of one hour share a log file.
pub proof fn lemma_same_hour_same_text(p: Seq<char>, t1: TimeFields, t2: TimeFields)
    requires
        t1.year == t2.year,
        t1.mon == t2.mon,
        t1.mday == t2.mday,
        t1.hour == t2.hour,
    ensures
        render(p, t1) == render(p, t2),
    decreases p.len(),
{
    if p.len() > 0 {
        if p[0] == '%' && p.len() >= 2 {
            lemma_same_hour_same_text(p.skip(2), t1, t2);
        } else {
            lemma_same_hour_same_text(p.skip(1), t1, t2);
        }
    }
}

proof fn lemma_simple_after_plain(a: Seq<char>, b: Seq<char>)
    requires
        !a.contains('%'),
        simple_pattern(b),
    ensures
        simple_pattern(a + b),
    decreases a.len(),
{
    if a.len() > 0 {
        assert(a[0] != '%');
        assert(!a.skip(1).contains('%')) by {
            if a.skip(1).contains('%') {
                let i = choose|i: int| 0 <= i < a.skip(1).len() && a.skip(1)[i] == '%';
                assert(a[i + 1] == '%');
            }
        }
        lemma_simple_after_plain(a.skip(1), b);
        assert((a + b).skip(1) =~= a.skip(1) + b);
    } else {
        assert(a + b =~= b);
    }
}

/// The hourly pattern under a directory written without `%` has no
/// conversions but the year, month, day and hour.
pub proof fn lemma_hourly_pattern_is_simple(directory: Seq<char>)
    requires
        !directory.contains('%'),
    ensures
        simple_pattern(file_pattern_of(directory)),
{
    let h = "%Y-%m-%d-%H:00.log"@;
    reveal_strlit("%Y-%m-%d-%H:00.log");
    assert(simple_pattern(h)) by {
        reveal_with_fuel(simple_pattern, 16);
        assert(h.skip(2).skip(1).skip(2).skip(1).skip(2).skip(1).skip(2) =~= h.skip(11));
    }
    lemma_simple_after_plain(directory, h);
}

/// Whether what strftime makes of the pattern and the time depends on them
/// alone. `%s` of a time with a nonzero UTC offset converts through the
/// process's time zone, so it does not.
pub open spec fn strftime_is_determined(format: Seq<char>, t: TimeFields) -> bool {
    !has_epoch_conversion(format) || t.utcoff == 0
}

/// What `time::strftime` gives for a format and a time where that depends
/// on them alone (see `strftime_is_determined`); `None` where it returns an
/// error.
pub uninterp spec fn strftime_of(format: Seq<char>, t: TimeFields) -> Option<Seq<char>>;

/// Formats a time after a strftime pattern.
///
/// Trusted: where the pattern has no `%s` conversion or the time's UTC offset
/// is zero, `time::strftime` depends on the pattern and the time alone, and
/// its result is `strftime_of` of them. Otherwise `%s` reads the process's
/// time zone, and nothing is stated of the result. What it writes for each
/// conversion, and which patterns it refuses, is not stated here, but for
/// the conversions `%Y`, `%m`, `%d`, `%H` and `%%`: it accepts a pattern that
/// has no other, and writes the year (`tm_year + 1900`), the month
/// (`tm_mon + 1`) and the day and hour in two digits, `%` for `%%`, and every
/// other character as it stands. Its `requires` leaves out the field values
/// on which it panics.
#[verifier::external_body]
fn strftime(format: &str, t: &TimeFields) -> (res: Option<String>)
    requires
        t.in_range(),
    ensures
        simple_pattern(format@) ==> res is Some && res.unwrap()@ == render(format@, *t),
        strftime_is_determined(format@, *t) ==> match res {
            Some(s) => strftime_of(format@, *t) == Some(s@),
            None => strftime_of(format@, *t) is None,
        },
{
    let tm = time::Tm {
        tm_sec: t.sec,
        tm_min: t.min,
        tm_hour: t.hour,
        tm_mday: t.mday,
        tm_mon: t.mon,
        tm_year: t.year,
        tm_wday: t.wday,
        tm_yday: t.yday,
        tm_isdst: t.isdst,
        tm_utcoff: t.utcoff,
        tm_nsec: t.nsec,
    };
    time::strftime(format, &tm).ok()
}

/// `"directory"`
pub open spec fn directory_name() -> Seq<char> {
    "directory"@
}

/// The strftime pattern of the hourly log files under `directory`.
pub open spec fn file_pattern_of(directory: Seq<char>) -> Seq<char> {
    directory + "%Y-%m-%d-%H:00.log"@
}

/// What the file output remembers between lines: the directory it last made
/// sure of, and the file it writes to.
pub struct Rotation {
    parent_dir: String,
    log_path: String,
}

/// The file system work that a line calls for before it is written.
pub struct RotationStep {
    /// Make this directory, with its parents, where it does not exist.
    pub create_dir: Option<String>,
    /// Open this file for appending, creating it where it does not exist.
    pub open_file: Option<String>,
}

/// The state after a line for the file `basefile`, and the work it calls
/// for; `None` where the path has no parent directory.
pub open spec fn rotate(state: (Seq<char>, Seq<char>), basefile: Seq<char>) -> Option<
    ((Seq<char>, Seq<char>), (Option<Seq<char>>, Option<Seq<char>>)),
> {
    match parent_of(basefile) {
        None => None,
        Some(parent) => {
            let dir_changed = !same_path(parent, state.0);
            let file_changed = !same_path(basefile, state.1);
            Some(
                (
                    (
                        if dir_changed {
                            parent
                        } else {
                            state.0
                        },
                        if file_changed {
                            basefile
                        } else {
                            state.1
                        },
                    ),
                    (
                        if dir_changed {
                            Some(parent)
                        } else {
                            None
                        },
                        if file_changed {
                            Some(basefile)
                        } else {
                            None
                        },
                    ),
                ),
            )
        },
    }
}

/// A line whose file is not, as a path, the file being written calls for
/// opening that file, and it becomes the file being written, whether or not
/// its directory changed too; a line whose directory is not the one last
/// made sure of calls for making that directory. A line for the file being
/// written opens nothing, and one for the directory last made sure of makes
/// none.
pub proof fn lemma_rotate_opens_every_new_file(
    state: (Seq<char>, Seq<char>),
    basefile: Seq<char>,
)
    requires
        parent_of(basefile) is Some,
    ensures
        rotate(state, basefile) matches Some((next, work)) && (!same_path(basefile, state.1) ==> (
        work.1 == Some(basefile) && next.1 == basefile)) && (same_path(basefile, state.1) ==> (
        work.1 is None && next.1 == state.1)) && (!same_path(parent_of(basefile).unwrap(), state.0)
            ==> (work.0 == Some(parent_of(basefile).unwrap()) && next.0 == parent_of(
            basefile,
        ).unwrap())) && (same_path(parent_of(basefile).unwrap(), state.0) ==> (work.0 is None
            && next.0 == state.0)),
{
}

/// The state already writes to the file `basefile`: the directory of
/// `basefile` is the one last made sure of, and `basefile` is the file being
/// written, each as the same string or as the same `Path`.
pub open spec fn settled(state: (Seq<char>, Seq<char>), basefile: Seq<char>) -> bool {
    match parent_of(basefile) {
        None => false,
        Some(parent) => (parent == state.0 || same_path(parent, state.0)) && (basefile == state.1
            || same_path(basefile, state.1)),
    }
}

impl RotationStep {
    pub open spec fn view(&self) -> (Option<Seq<char>>, Option<Seq<char>>) {
        (
            match self.create_dir {
                Some(d) => Some(d@),
                None => None,
            },
            match self.open_file {
                Some(f) => Some(f@),
                None => None,
            },
        )
    }
}

impl Rotation {
    pub closed spec fn view(&self) -> (Seq<char>, Seq<char>) {
        (self.parent_dir@, self.log_path@)
    }

    /// Before the first line: the directory `/`, and no file.
    pub fn new() -> (res: Rotation)
        ensures
            res.view() == ("/"@, Seq::<char>::empty()),
    {
        Rotation { parent_dir: "/".to_owned(), log_path: String::new() }
    }

    /// Takes the line's file name, `basefile`: where its directory is not
    /// the one last made sure of, that directory must be made; where the file
    /// is not the one being written, it must be opened. `None`, and nothing
    /// changed, where `basefile` has no parent directory.
    pub fn step(&mut self, basefile: &str) -> (res: Option<RotationStep>)
        ensures
            match rotate(old(self).view(), basefile@) {
                None => res is None && final(self).view() == old(self).view(),
                Some((next, work)) => res matches Some(w) && w.view() == work && final(self).view()
                    == next,
            },
            res is Some ==> settled(final(self).view(), basefile@),
            settled(old(self).view(), basefile@) ==> (res matches Some(w) && w.create_dir is None
                && w.open_file is None && final(self).view() == old(self).view()),
            old(self).view().1.len() == 0 && parent_of(basefile@) is Some ==> (res matches Some(w)
                && w.view().1 == Some(basefile@)),
            parent_of(basefile@) is Some && !same_path(basefile@, old(self).view().1) ==> (
            res matches Some(w) && w.view().1 == Some(basefile@) && final(self).view().1
                == basefile@),
            parent_of(basefile@) is Some && same_path(basefile@, old(self).view().1) ==> (
            res matches Some(w) && w.open_file is None && final(self).view().1 == old(
                self,
            ).view().1),
            parent_of(basefile@) is Some && !same_path(parent_of(basefile@).unwrap(), old(self).view().0)
                ==> (res matches Some(w) && w.view().0 == parent_of(basefile@) && final(self).view().0
                == parent_of(basefile@).unwrap()),
            parent_of(basefile@) is Some && same_path(parent_of(basefile@).unwrap(), old(self).view().0)
                ==> (
            res matches Some(w) && w.create_dir is None && final(self).view().0 == old(
                self,
            ).view().0),
            parent_of(basefile@) is None ==> res is None,
    {
        let parent = match path_parent(basefile) {
            None => {
                return None;
            },
            Some(p) => p,
        };
        let create_dir = if !paths_equal(parent.as_str(), self.parent_dir.as_str()) {
            self.parent_dir = parent.clone();
            Some(parent)
        } else {
            None
        };
        let open_file = if !paths_equal(basefile, self.log_path.as_str()) {
            self.log_path = basefile.to_owned();
            Some(basefile.to_owned())
        } else {
            None
        };
        Some(RotationStep { create_dir, open_file })
    }
}

/// Why a line cannot be placed in a log file.
#[derive(PartialEq, Eq, Debug)]
pub enum RotationError {
    /// The file pattern is not one that strftime accepts.
    BadPattern,
    /// The file name that the pattern gives, here, has no parent directory.
    NoDirectory(String),
}

impl Rotation {
    /// Takes a line that arrives at the time `now`: names its file after the
    /// pattern, then steps to that file. On an error nothing changes.
    ///
    /// Whatever name strftime gives, the step and the new state follow from
    /// it as `step` states. Where strftime's result depends on the pattern and
    /// the time alone, it is `strftime_of` of them; so two lines whose times
    /// give the same name go to the same file, the second calling for no
    /// work.
    pub fn advance(&mut self, pattern: &str, now: &TimeFields) -> (res: Result<
        (String, RotationStep),
        RotationError,
    >)
        requires
            now.in_range(),
        ensures
            match res {
                Ok((name, w)) => rotate(old(self).view(), name@) == Some::<
                    ((Seq<char>, Seq<char>), (Option<Seq<char>>, Option<Seq<char>>)),
                >((final(self).view(), w.view())) && settled(final(self).view(), name@) && (
                settled(old(self).view(), name@) ==> w.create_dir is None && w.open_file is None
                    && final(self).view() == old(self).view()) && (strftime_is_determined(
                    pattern@,
                    *now,
                ) ==> strftime_of(pattern@, *now) == Some(name@)),
                Err(RotationError::BadPattern) => final(self).view() == old(self).view() && (
                strftime_is_determined(pattern@, *now) ==> strftime_of(pattern@, *now) is None),
                Err(RotationError::NoDirectory(name)) => final(self).view() == old(self).view()
                    && rotate(old(self).view(), name@) is None && (strftime_is_determined(
                    pattern@,
                    *now,
                ) ==> strftime_of(pattern@, *now) == Some(name@)),
            },
            simple_pattern(pattern@) ==> match res {
                Ok((name, _)) => name@ == render(pattern@, *now),
                Err(RotationError::BadPattern) => false,
                Err(RotationError::NoDirectory(name)) => name@ == render(pattern@, *now),
            },
            old(self).view().1.len() == 0 ==> (res matches Ok((name, w)) ==> w.view().1 == Some(
                name@,
            )),
    {
        let basefile = match strftime(pattern, now) {
            None => {
                return Err(RotationError::BadPattern);
            },
            Some(b) => b,
        };
        match self.step(basefile.as_str()) {
            None => Err(RotationError::NoDirectory(basefile)),
            Some(w) => Ok((basefile, w)),
        }
    }
}

/// How to open the log file, given what the file system says of its path.
#[derive(Clone, Copy, PartialEq, Eq, Debug, Structural)]
pub enum OpenMode {
    /// Nothing is there: create the file.
    Create,
    /// A file is there: append to it.
    Append,
}

/// Writes every line to the file of its hour.
pub struct RotatingFile {
    name: String,
}

impl RotatingFile {
    pub fn new(name: String) -> (res: RotatingFile)
        ensures
            res.name_view() == name@,
    {
        RotatingFile { name }
    }

    /// The strftime pattern of the log files: the `directory` parameter,
    /// then `%Y-%m-%d-%H:00.log`.
    pub fn file_pattern(config: &Option<Params>) -> (res: Result<String, ConfigError>)
        ensures
            text_result(res) == match field_of(config_view(*config), directory_name()) {
                Ok(d) => Ok(file_pattern_of(d)),
                Err(e) => Err::<Seq<char>, ConfigFault>(e),
            },
    {
        let directory = config_field(config, "directory")?;
        let mut pattern = directory.clone();
        pattern.append("%Y-%m-%d-%H:00.log");
        Ok(pattern)
    }

    /// How to open the log file: `existing` is `None` where nothing is at its
    /// path, and whether it is a regular file otherwise. `None` where
    /// something that is not a file is there, which the output cannot write
    /// to.
    pub fn open_mode(existing: Option<bool>) -> (res: Option<OpenMode>)
        ensures
            res == match existing {
                None => Some(OpenMode::Create),
                Some(true) => Some(OpenMode::Append),
                Some(false) => None::<OpenMode>,
            },
    {
        match existing {
            None => Some(OpenMode::Create),
            Some(is_file) => if is_file {
                Some(OpenMode::Append)
            } else {
                None
            },
        }
    }

    /// The bytes written for a line: the line and a line feed.
    pub fn record(line: String) -> (res: String)
        ensures
            res@ == line@.push('\n'),
    {
        let mut l = line;
        crate::text::push_char(&mut l, '\n');
        l
    }
}

impl Processor for RotatingFile {
    closed spec fn name_view(&self) -> Seq<char> {
        self.name@
    }

    open spec fn mandatory_view(&self) -> Seq<Seq<char>> {
        seq![directory_name()]
    }

    fn human_name(&self) -> (res: &str) {
        self.name.as_str()
    }

    fn mandatory_fields(&self) -> (res: Vec<&'static str>) {
        let res = vec!["directory"];
        assert(str_views(res@) =~= seq![directory_name()]);
        res
    }
}

} // verus!
