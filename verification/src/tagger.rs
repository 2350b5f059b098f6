//! Marking the end of each quarter with an archive tag.

use vstd::prelude::*;
use vstd::string::*;
use crate::archive::archive_tag;
use crate::repo::GitBareRepository;
use crate::text::{decimal, decimal_text};

verus! {

/// A time of day, given by its hour alone, by hour and minute, or by hour,
/// minute and second.
pub trait IntoNaiveTime {
    /// The hour, the minute and the second.
    spec fn parts(&self) -> (nat, nat, nat);

    /// The time of day in seconds since midnight.
    fn to_time(&self) -> (secs: u32)
        requires
            valid_time(self.parts()),
        ensures
            secs == seconds_of(self.parts()),
            secs < 86400,
    ;

    /// The time of day in seconds since midnight, where hour, minute and
    /// second name one.
    fn checked_time(&self) -> (secs: Option<u32>)
        ensures
            secs is Some <==> valid_time(self.parts()),
            secs is Some ==> secs->0 == seconds_of(self.parts()),
    ;
}

/// Whether hour, minute and second name a time of day.
pub open spec fn valid_time(parts: (nat, nat, nat)) -> bool {
    parts.0 < 24 && parts.1 < 60 && parts.2 < 60
}

/// The seconds since midnight of a time of day.
pub open spec fn seconds_of(parts: (nat, nat, nat)) -> nat {
    parts.0 * 3600 + parts.1 * 60 + parts.2
}

impl IntoNaiveTime for (u32,) {
    open spec fn parts(&self) -> (nat, nat, nat) {
        (self.0 as nat, 0, 0)
    }

    fn to_time(&self) -> (secs: u32) {
        self.0 * 3600
    }

    fn checked_time(&self) -> (secs: Option<u32>) {
        if self.0 < 24 {
            Some(self.to_time())
        } else {
            None
        }
    }
}

impl IntoNaiveTime for (u32, u32) {
    open spec fn parts(&self) -> (nat, nat, nat) {
        (self.0 as nat, self.1 as nat, 0)
    }

    fn to_time(&self) -> (secs: u32) {
        self.0 * 3600 + self.1 * 60
    }

    fn checked_time(&self) -> (secs: Option<u32>) {
        if self.0 < 24 && self.1 < 60 {
            Some(self.to_time())
        } else {
            None
        }
    }
}

impl IntoNaiveTime for (u32, u32, u32) {
    open spec fn parts(&self) -> (nat, nat, nat) {
        (self.0 as nat, self.1 as nat, self.2 as nat)
    }

    fn to_time(&self) -> (secs: u32) {
        self.0 * 3600 + self.1 * 60 + self.2
    }

    fn checked_time(&self) -> (secs: Option<u32>) {
        if self.0 < 24 && self.1 < 60 && self.2 < 60 {
            Some(self.to_time())
        } else {
            None
        }
    }
}

/// Whether there is a delay from now to the time of day `parts`: `parts`
/// name a time of day, and now, `now_secs` seconds and `now_nanos`
/// nanoseconds after midnight, is not after it.
pub open spec fn delay_is_owed(parts: (nat, nat, nat), now_secs: u32, now_nanos: u32) -> bool {
    &&& valid_time(parts)
    &&& now_nanos < 1_000_000_000
    &&& now_secs < seconds_of(parts) || (now_secs == seconds_of(parts) && now_nanos == 0)
}

/// Whether a day of a month is the last of a quarter.
pub open spec fn quarter_ends(month: u32, day: u32) -> bool {
    (month == 3 && day == 31) || (month == 6 && day == 30) || (month == 9 && day == 30) || (month
        == 12 && day == 31)
}

/// The numeral of a year, with a minus sign before a year below zero.
pub open spec fn year_text(year: int) -> Seq<char> {
    if year < 0 {
        "-"@ + decimal((-year) as nat)
    } else {
        decimal(year as nat)
    }
}

/// The tag of the quarter that the month `month0` (January is 0) of `year`
/// lies in: the year, `-Q`, and the quarter's number.
pub open spec fn quarter_tag(year: int, month0: nat) -> Seq<char> {
    year_text(year) + "-Q"@ + decimal(month0 / 3 + 1)
}

/// Whether the day `day` of the month `month` (January is 1) is the last
/// of a quarter.
pub fn is_quarter_end(month: u32, day: u32) -> (yes: bool)
    ensures
        yes == quarter_ends(month, day),
{
    (month == 3 && day == 31) || (month == 6 && day == 30) || (month == 9 && day == 30) || (month
        == 12 && day == 31)
}

/// The tag of the quarter that the month `month0` (January is 0) of `year`
/// lies in.
pub fn current_quarter_as_tag(year: i32, month0: u32) -> (tag: String)
    ensures
        tag@ == quarter_tag(year as int, month0 as nat),
{
    let mut tag = if year < 0 {
        let size: usize = if year == i32::MIN {
            2147483648
        } else {
            (-year) as usize
        };
        let mut text = String::from_str("-");
        text.append(decimal_text(size).as_str());
        text
    } else {
        decimal_text(year as usize)
    };
    tag.append("-Q");
    let quarter: usize = (month0 / 3 + 1) as usize;
    tag.append(decimal_text(quarter).as_str());
    tag
}

/// What sets an archive tag on a repository at the end of each quarter:
/// the repository, the time of day to look at, and the seconds between looks.
pub struct ArchiveTagger<T> {
    repo: GitBareRepository,
    run_at_time: T,
    interval: u64,
}

impl<T: IntoNaiveTime> ArchiveTagger<T> {
    /// The repository that is tagged.
    pub closed spec fn spec_repo(&self) -> GitBareRepository {
        self.repo
    }

    /// The time of day that the tagger looks at.
    pub closed spec fn spec_run_at(&self) -> T {
        self.run_at_time
    }

    /// The seconds between two looks.
    pub closed spec fn spec_interval(&self) -> u64 {
        self.interval
    }

    /// A tagger for `repo` that looks at `run_at_time` and then every
    /// `interval` seconds.
    pub fn new(repo: GitBareRepository, run_at_time: T, interval: u64) -> (tagger: Self)
        ensures
            tagger.spec_repo() == repo,
            tagger.spec_run_at() == run_at_time,
            tagger.spec_interval() == interval,
    {
        ArchiveTagger { repo, run_at_time, interval }
    }

    /// The repository that is tagged.
    pub fn repo(&self) -> (repo: &GitBareRepository)
        ensures
            *repo == self.spec_repo(),
    {
        &self.repo
    }

    /// The seconds between two looks.
    pub fn interval(&self) -> (secs: u64)
        ensures
            secs == self.spec_interval(),
    {
        self.interval
    }

    /// The whole seconds from now to the time of day that the tagger looks
    /// at, where now is `now_secs` seconds and `now_nanos` nanoseconds after
    /// midnight and not after that time.
    pub fn compute_initial_delay(&self, now_secs: u32, now_nanos: u32) -> (delay: u64)
        requires
            valid_time(self.spec_run_at().parts()),
            now_nanos < 1_000_000_000,
            now_secs < seconds_of(self.spec_run_at().parts()) || (now_secs == seconds_of(
                self.spec_run_at().parts(),
            ) && now_nanos == 0),
        ensures
            delay == (seconds_of(self.spec_run_at().parts()) * 1_000_000_000 - (now_secs
                * 1_000_000_000 + now_nanos)) / 1_000_000_000,
    {
        let target = self.run_at_time.to_time();
        if now_nanos == 0 {
            (target - now_secs) as u64
        } else {
            (target - now_secs - 1) as u64
        }
    }

    /// The time of day that the tagger looks at.
    pub fn run_at(&self) -> (time: &T)
        ensures
            *time == self.spec_run_at(),
    {
        &self.run_at_time
    }

    /// The whole seconds from now to the time of day that the tagger looks
    /// at, where now is `now_secs` seconds and `now_nanos` nanoseconds after
    /// midnight; `None` where the tagger's time is no time of day, where
    /// `now_nanos` is no part of a second, or where now is after that time.
    pub fn initial_delay(&self, now_secs: u32, now_nanos: u32) -> (delay: Option<u64>)
        ensures
            delay is Some <==> delay_is_owed(self.spec_run_at().parts(), now_secs, now_nanos),
            delay is Some ==> delay->0 == (seconds_of(self.spec_run_at().parts()) * 1_000_000_000
                - (now_secs * 1_000_000_000 + now_nanos)) / 1_000_000_000,
    {
        match self.run_at_time.checked_time() {
            Some(target) => {
                if now_nanos < 1_000_000_000 && (now_secs < target || (now_secs == target
                    && now_nanos == 0)) {
                    Some(self.compute_initial_delay(now_secs, now_nanos))
                } else {
                    None
                }
            },
            None => None,
        }
    }

    /// The name of the tag that marks the archive `tag`.
    pub fn tag_name(tag: &str) -> (name: String)
        ensures
            name@ == archive_tag(tag@),
    {
        let mut name = String::from_str("archive/");
        name.append(tag);
        name
    }

    /// The tag to set on the given day, if it is the last of a quarter.
    pub fn due_tag(year: i32, month: u32, day: u32) -> (name: Option<String>)
        ensures
            match name {
                Some(text) => quarter_ends(month, day) && text@ == archive_tag(
                    quarter_tag(year as int, (month - 1) as nat),
                ),
                None => !quarter_ends(month, day),
            },
    {
        if is_quarter_end(month, day) {
            let tag = current_quarter_as_tag(year, month - 1);
            Some(Self::tag_name(tag.as_str()))
        } else {
            None
        }
    }
}

} // verus!
