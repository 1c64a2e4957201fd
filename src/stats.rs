//! Daily and total focus statistics, and the text form of a duration.
//! Loading and saving the record, and reading the date, are the caller's part.

use vstd::prelude::*;

verus! {

pub struct DailyStats {
    /// The day these counters belong to, as `YYYY-MM-DD`.
    pub date: String,
    pub focus_duration_seconds: u64,
    pub block_count: u64,
    pub websites_blocked: u64,
    pub apps_blocked: u64,
}

pub struct StatsData {
    pub today: DailyStats,
    pub total_focus_seconds: u64,
    pub total_blocks: u64,
}

impl DailyStats {
    /// Zeroed counters for the day `date`.
    pub fn for_date(date: &str) -> (r: DailyStats)
        ensures
            r.date@ == date@,
            r.focus_duration_seconds == 0,
            r.block_count == 0,
            r.websites_blocked == 0,
            r.apps_blocked == 0,
    {
        DailyStats {
            date: String::from_str(date),
            focus_duration_seconds: 0,
            block_count: 0,
            websites_blocked: 0,
            apps_blocked: 0,
        }
    }
}

impl StatsData {
    /// A record with every counter at zero, for the day `date`.
    pub fn fresh(date: &str) -> (r: StatsData)
        ensures
            r.today.date@ == date@,
            r.today.focus_duration_seconds == 0,
            r.today.block_count == 0,
            r.today.websites_blocked == 0,
            r.today.apps_blocked == 0,
            r.total_focus_seconds == 0,
            r.total_blocks == 0,
    {
        StatsData { today: DailyStats::for_date(date), total_focus_seconds: 0, total_blocks: 0 }
    }

    /// Whether every counter is zero and the day is `date`.
    pub open spec fn is_fresh(&self, date: Seq<char>) -> bool {
        &&& self.today.date@ == date
        &&& self.today.focus_duration_seconds == 0
        &&& self.today.block_count == 0
        &&& self.today.websites_blocked == 0
        &&& self.today.apps_blocked == 0
        &&& self.total_focus_seconds == 0
        &&& self.total_blocks == 0
    }

    /// The loaded record where it belongs to the day `today`; else a fresh one.
    pub fn current_or_fresh(self, today: &str) -> (r: StatsData)
        ensures
            self.today.date@ == today@ ==> r == self,
            self.today.date@ != today@ ==> r.is_fresh(today@),
    {
        if self.today.date == String::from_str(today) {
            self
        } else {
            StatsData::fresh(today)
        }
    }

    /// Counts `seconds` more of focus, today and in total.
    pub fn add_focus_time(&mut self, seconds: u64)
        requires
            old(self).today.focus_duration_seconds + seconds <= u64::MAX,
            old(self).total_focus_seconds + seconds <= u64::MAX,
        ensures
            final(self).today.focus_duration_seconds == old(self).today.focus_duration_seconds + seconds,
            final(self).total_focus_seconds == old(self).total_focus_seconds + seconds,
            final(self).today.date == old(self).today.date,
            final(self).today.block_count == old(self).today.block_count,
            final(self).today.websites_blocked == old(self).today.websites_blocked,
            final(self).today.apps_blocked == old(self).today.apps_blocked,
            final(self).total_blocks == old(self).total_blocks,
    {
        self.today.focus_duration_seconds = self.today.focus_duration_seconds + seconds;
        self.total_focus_seconds = self.total_focus_seconds + seconds;
    }

    /// Counts one block, of a website or else of an application.
    pub fn add_block(&mut self, website: bool)
        requires
            old(self).today.block_count < u64::MAX,
            old(self).total_blocks < u64::MAX,
            website ==> old(self).today.websites_blocked < u64::MAX,
            !website ==> old(self).today.apps_blocked < u64::MAX,
        ensures
            final(self).today.block_count == old(self).today.block_count + 1,
            final(self).total_blocks == old(self).total_blocks + 1,
            final(self).today.websites_blocked == old(self).today.websites_blocked + if website {
                1int
            } else {
                0int
            },
            final(self).today.apps_blocked == old(self).today.apps_blocked + if website {
                0int
            } else {
                1int
            },
            final(self).today.date == old(self).today.date,
            final(self).today.focus_duration_seconds == old(self).today.focus_duration_seconds,
            final(self).total_focus_seconds == old(self).total_focus_seconds,
    {
        self.today.block_count = self.today.block_count + 1;
        self.total_blocks = self.total_blocks + 1;
        if website {
            self.today.websites_blocked = self.today.websites_blocked + 1;
        } else {
            self.today.apps_blocked = self.today.apps_blocked + 1;
        }
    }
}

/// `n` in decimal, without leading zeros.
pub open spec fn decimal_of(n: nat) -> Seq<char>
    decreases n,
{
    let d = seq!['0', '1', '2', '3', '4', '5', '6', '7', '8', '9'];
    if n < 10 {
        seq![d[n as int]]
    } else {
        decimal_of(n / 10).push(d[(n % 10) as int])
    }
}

/// Relies on `u64`'s `Display`: decimal digits without leading zeros.
#[verifier::external_body]
fn decimal(n: u64) -> (r: String)
    ensures
        r@ == decimal_of(n as nat),
{
    n.to_string()
}

/// `seconds` as `Hh Mm Ss`, leaving out hours, then minutes, while they are zero.
pub open spec fn duration_text(seconds: u64) -> Seq<char> {
    let h = seconds / 3600;
    let m = (seconds % 3600) / 60;
    let s = seconds % 60;
    if h > 0 {
        decimal_of(h as nat) + "h "@ + decimal_of(m as nat) + "m "@ + decimal_of(s as nat) + "s"@
    } else if m > 0 {
        decimal_of(m as nat) + "m "@ + decimal_of(s as nat) + "s"@
    } else {
        decimal_of(s as nat) + "s"@
    }
}

pub fn format_duration(seconds: u64) -> (r: String)
    ensures
        r@ == duration_text(seconds),
{
    let hours = seconds / 3600;
    let minutes = (seconds % 3600) / 60;
    let secs = seconds % 60;
    let mut out = String::new();
    if hours > 0 {
        out.append(decimal(hours).as_str());
        out.append("h ");
    }
    if hours > 0 || minutes > 0 {
        out.append(decimal(minutes).as_str());
        out.append("m ");
    }
    out.append(decimal(secs).as_str());
    out.append("s");
    proof {
        if hours > 0 {
            assert(out@ =~= duration_text(seconds));
        } else if minutes > 0 {
            assert(out@ =~= duration_text(seconds));
        } else {
            assert(out@ =~= duration_text(seconds));
        }
    }
    out
}

} // verus!
