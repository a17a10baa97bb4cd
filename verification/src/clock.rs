//! Local time, and nothing else.
//!
//! Every instant that is printed goes through [`stamp`] and arrives carrying
//! its own zone. What the local clock shows at an instant is looked up outside
//! and handed over as a [`Moment`].

use vstd::prelude::*;

use crate::model::{Stamp, Text};
use crate::strings;

verus! {

pub const DAY: i64 = 86_400;

/// What the local clock and calendar show at an instant.
#[derive(Debug, PartialEq, Eq)]
pub struct Civil<T = String> {
    pub years_since_1900: i32,
    /// From 0, for January, to 11.
    pub month: i32,
    /// Day of the month, from 1.
    pub day: i32,
    pub hour: i32,
    pub minute: i32,
    pub second: i32,
    /// From 0, for Sunday, to 6.
    pub weekday: i32,
    /// Seconds east of UTC.
    pub offset_seconds: i64,
    /// The zone's abbreviation, where it has one.
    pub zone: Option<T>,
}

impl View for Civil {
    type V = Civil<Text>;

    open spec fn view(&self) -> Civil<Text> {
        Civil {
            years_since_1900: self.years_since_1900,
            month: self.month,
            day: self.day,
            hour: self.hour,
            minute: self.minute,
            second: self.second,
            weekday: self.weekday,
            offset_seconds: self.offset_seconds,
            zone: strings::view_of(self.zone),
        }
    }
}

/// An instant, with what the local clock shows at it. `None` where no local
/// zone is available.
#[derive(Debug, PartialEq, Eq)]
pub struct Moment<T = String> {
    /// Seconds since the Unix epoch.
    pub epoch: i64,
    pub civil: Option<Civil<T>>,
}

impl View for Moment {
    type V = Moment<Text>;

    open spec fn view(&self) -> Moment<Text> {
        Moment { epoch: self.epoch, civil: strings::view_of(self.civil) }
    }
}

// ---------------------------------------------------------------------------
// The current instant
// ---------------------------------------------------------------------------

/// `SystemTime::now` measured against the Unix epoch, in whole seconds: `Err`
/// where it lies before. Nothing is promised of the result.
#[verifier::external_body]
fn read_clock() -> (out: Result<u64, u64>) {
    match std::time::SystemTime::now().duration_since(std::time::UNIX_EPOCH) {
        Ok(since) => Ok(since.as_secs()),
        Err(before) => Err(before.duration().as_secs()),
    }
}

/// The epoch second of a reading of the clock. A reading before 1970 counts
/// backwards.
pub fn epoch_of(reading: Result<u64, u64>) -> (out: i64)
    ensures
        out == match reading {
            Ok(since) => if since <= i64::MAX {
                since as int
            } else {
                i64::MAX as int
            },
            Err(before) => if before <= i64::MAX {
                -(before as int)
            } else {
                -(i64::MAX as int)
            },
        },
{
    match reading {
        Ok(since) => if since <= i64::MAX as u64 {
            since as i64
        } else {
            i64::MAX
        },
        Err(before) => if before <= i64::MAX as u64 {
            -(before as i64)
        } else {
            -i64::MAX
        },
    }
}

/// Seconds since the Unix epoch, now. Never the smallest number there is, so it
/// can be negated.
pub fn now() -> (out: i64)
    ensures
        out > i64::MIN,
{
    epoch_of(read_clock())
}

// ---------------------------------------------------------------------------
// Stamps
// ---------------------------------------------------------------------------

/// A number in decimal, with zeros in front up to so many characters. The sign
/// counts as one of them.
pub open spec fn padded(n: int, width: nat) -> Text {
    if n < 0 {
        let digits = strings::decimal((-n) as nat);
        "-"@ + strings::repeated(
            '0',
            if digits.len() + 1 < width {
                (width - 1 - digits.len()) as nat
            } else {
                0
            },
        ) + digits
    } else {
        let digits = strings::decimal(n as nat);
        strings::repeated(
            '0',
            if digits.len() < width {
                (width - digits.len()) as nat
            } else {
                0
            },
        ) + digits
    }
}

fn zero_padded(n: i64, width: usize) -> (out: String)
    ensures
        out@ == padded(n as int, width as nat),
{
    if n < 0 {
        let digits = strings::number((-(n as i128)) as u64);
        let len = digits.as_str().unicode_len();
        let zeros: usize = if len < width && width - len > 1 {
            width - 1 - len
        } else {
            0
        };
        strings::cat3("-", strings::repeat('0', zeros).as_str(), digits.as_str())
    } else {
        let digits = strings::number(n as u64);
        let len = digits.as_str().unicode_len();
        let zeros: usize = if len < width {
            width - len
        } else {
            0
        };
        strings::cat2(strings::repeat('0', zeros).as_str(), digits.as_str())
    }
}

/// `2026-08-15 09:12`.
pub open spec fn local_text(civil: Civil<Text>) -> Text {
    padded(civil.years_since_1900 + 1900, 4) + "-"@ + padded(civil.month + 1, 2) + "-"@ + padded(
        civil.day as int,
        2,
    ) + " "@ + padded(civil.hour as int, 2) + ":"@ + padded(civil.minute as int, 2)
}

/// `+0200`.
pub open spec fn offset_text(offset: int) -> Text {
    let size = if offset < 0 {
        -offset
    } else {
        offset
    };
    let sign = if offset < 0 {
        "-"@
    } else {
        "+"@
    };
    sign + padded(size / 3600, 2) + padded(size % 3600 / 60, 2)
}

/// `CEST +0200`.
pub open spec fn zone_text(civil: Civil<Text>) -> Text {
    match civil.zone {
        Some(name) if name.len() > 0 => name + " "@ + offset_text(civil.offset_seconds as int),
        _ => offset_text(civil.offset_seconds as int),
    }
}

/// An instant rendered in the local zone.
pub open spec fn stamped(moment: Moment<Text>) -> Stamp<Text> {
    match moment.civil {
        Some(civil) => Stamp {
            epoch: moment.epoch,
            local: local_text(civil),
            zone: zone_text(civil),
            offset_seconds: Some(civil.offset_seconds),
        },
        None => Stamp {
            epoch: moment.epoch,
            local: "epoch "@ + strings::signed_decimal(moment.epoch as int),
            zone: "unknown zone"@,
            offset_seconds: None,
        },
    }
}

fn format_offset(offset: i64) -> (out: String)
    ensures
        out@ == offset_text(offset as int),
{
    let size: u64 = if offset < 0 {
        (-(offset as i128)) as u64
    } else {
        offset as u64
    };
    let sign = if offset < 0 {
        "-"
    } else {
        "+"
    };
    strings::cat3(
        sign,
        zero_padded((size / 3600) as i64, 2).as_str(),
        zero_padded((size % 3600 / 60) as i64, 2).as_str(),
    )
}

fn format_local(civil: &Civil) -> (out: String)
    ensures
        out@ == local_text(civil@),
{
    let start = strings::cat5(
        zero_padded(civil.years_since_1900 as i64 + 1900, 4).as_str(),
        "-",
        zero_padded(civil.month as i64 + 1, 2).as_str(),
        "-",
        zero_padded(civil.day as i64, 2).as_str(),
    );
    strings::cat5(
        start.as_str(),
        " ",
        zero_padded(civil.hour as i64, 2).as_str(),
        ":",
        zero_padded(civil.minute as i64, 2).as_str(),
    )
}

/// An instant, rendered in the local zone.
pub fn stamp(moment: &Moment) -> (out: Stamp)
    ensures
        out@ == stamped(moment@),
{
    match &moment.civil {
        Some(civil) => {
            let offset = format_offset(civil.offset_seconds);
            let zone = match &civil.zone {
                Some(name) => if strings::is_empty(name.as_str()) {
                    offset
                } else {
                    strings::cat3(name.as_str(), " ", offset.as_str())
                },
                None => offset,
            };
            Stamp {
                epoch: moment.epoch,
                local: format_local(civil),
                zone,
                offset_seconds: Some(civil.offset_seconds),
            }
        },
        None => Stamp {
            epoch: moment.epoch,
            local: strings::cat2("epoch ", strings::signed_number(moment.epoch).as_str()),
            zone: "unknown zone".to_string(),
            offset_seconds: None,
        },
    }
}

// ---------------------------------------------------------------------------
// Boundaries
// ---------------------------------------------------------------------------

/// The seconds elapsed since midnight, by the clock.
pub open spec fn elapsed(civil: Civil<Text>) -> int {
    civil.hour * 3600 + civil.minute * 60 + civil.second
}

/// Local midnight at the start of the day an instant falls in; midnight in UTC
/// where there is no local zone.
pub open spec fn day_start(moment: Moment<Text>) -> i64 {
    match moment.civil {
        Some(civil) => moment.epoch.wrapping_sub(elapsed(civil) as i64),
        None => moment.epoch.wrapping_sub((moment.epoch % 86_400) as i64),
    }
}

/// Local midnight at the start of the day containing `moment`.
///
/// A day on which the clock jumps forward at midnight has no 00:00 at all. Then
/// the result is the last instant of the previous day, which is the
/// conservative direction for a window boundary.
pub fn midnight(moment: &Moment) -> (out: i64)
    ensures
        out == day_start(moment@),
{
    match &moment.civil {
        Some(civil) => {
            let since: i64 = civil.hour as i64 * 3_600 + civil.minute as i64 * 60
                + civil.second as i64;
            moment.epoch.wrapping_sub(since)
        },
        None => {
            let into: i64 = match moment.epoch.checked_rem_euclid(DAY) {
                Some(into) => into,
                None => 0,
            };
            moment.epoch.wrapping_sub(into)
        },
    }
}

/// The instant near noon so many days before the day an instant falls in. Noon
/// rather than midnight, because a day on which the clock moves is an hour or
/// two longer or shorter, and noon has twelve of slack in both directions.
pub open spec fn noon_before(moment: Moment<Text>, days: int) -> i64 {
    day_start(moment).wrapping_add(43_200).wrapping_sub((days * 86_400) as i64)
}

/// How many days the Monday of the week lies back.
pub open spec fn days_since_monday(civil: Civil<Text>) -> int {
    (civil.weekday + 6) % 7
}

pub open spec fn days_since_first(civil: Civil<Text>) -> int {
    civil.day - 1
}

/// Near noon on the Monday of the ISO week containing `moment`; `None` where
/// there is no local zone.
pub fn week_noon(moment: &Moment) -> (out: Option<i64>)
    ensures
        out == match moment@.civil {
            Some(civil) => Some(noon_before(moment@, days_since_monday(civil))),
            None => None,
        },
{
    match &moment.civil {
        Some(civil) => {
            let shifted: i64 = civil.weekday as i64 + 6;
            let back: i64 = match shifted.checked_rem_euclid(7) {
                Some(back) => back,
                None => 0,
            };
            Some(midnight(moment).wrapping_add(43_200).wrapping_sub(back * DAY))
        },
        None => None,
    }
}

/// Near noon on the first day of the calendar month containing `moment`; `None`
/// where there is no local zone.
pub fn month_noon(moment: &Moment) -> (out: Option<i64>)
    ensures
        out == match moment@.civil {
            Some(civil) => Some(noon_before(moment@, days_since_first(civil))),
            None => None,
        },
{
    match &moment.civil {
        Some(civil) => {
            let back: i64 = civil.day as i64 - 1;
            Some(midnight(moment).wrapping_add(43_200).wrapping_sub(back * DAY))
        },
        None => None,
    }
}

/// The start of a period: midnight of the day its noon falls in, or of the day
/// of the instant itself where there is no local zone.
pub open spec fn period_start(moment: Moment<Text>, noon: Moment<Text>) -> i64 {
    match moment.civil {
        Some(_) => day_start(noon),
        None => day_start(moment),
    }
}

/// Local midnight at the start of the ISO week, Monday, containing `moment`.
/// `noon` is the instant that [`week_noon`] gives for it.
pub fn week_start(moment: &Moment, noon: &Moment) -> (out: i64)
    ensures
        out == period_start(moment@, noon@),
{
    match &moment.civil {
        Some(_) => midnight(noon),
        None => midnight(moment),
    }
}

/// Local midnight on the first day of the calendar month containing `moment`.
/// `noon` is the instant that [`month_noon`] gives for it.
pub fn month_start(moment: &Moment, noon: &Moment) -> (out: i64)
    ensures
        out == period_start(moment@, noon@),
{
    match &moment.civil {
        Some(_) => midnight(noon),
        None => midnight(moment),
    }
}

// ---------------------------------------------------------------------------
// Laws
// ---------------------------------------------------------------------------

/// Whether the clock fields are those of a clock. Second sixty is one: a clock
/// may show a leap second.
pub open spec fn on_the_clock(civil: Civil<Text>) -> bool {
    0 <= civil.hour < 24 && 0 <= civil.minute < 60 && 0 <= civil.second <= 60
}

/// The start of a day is at or before every instant of it, and less than a day
/// before: a whole day only for a leap second at its very end. Where there is no
/// local zone it is midnight in UTC.
pub proof fn law_a_day_starts_before_its_instants(moment: Moment<Text>)
    requires
        moment.civil is Some ==> on_the_clock(moment.civil->0),
        moment.epoch >= i64::MIN + 86_400,
    ensures
        day_start(moment) <= moment.epoch,
        moment.epoch - day_start(moment) <= 86_400,
        moment.civil is Some && moment.civil->0.second == 60 || moment.epoch - day_start(moment)
            < 86_400,
        moment.civil is None ==> day_start(moment) == moment.epoch - moment.epoch % 86_400,
{
}

/// A day of the calendar.
pub struct Date {
    pub year: int,
    pub month: int,
    pub day: int,
}

/// The seconds that a local clock is past the start of day zero. `zone` says how
/// far it is ahead of UTC at each instant.
pub open spec fn local(epoch: int, zone: spec_fn(int) -> int) -> int {
    epoch + zone(epoch)
}

/// What a local clock shows at an instant. `calendar` gives the date of each
/// day, counted from the day of the epoch, which was a Thursday.
#[verifier::opaque]
pub open spec fn shown(
    epoch: int,
    zone: spec_fn(int) -> int,
    calendar: spec_fn(int) -> Date,
) -> Civil<Text> {
    let t = local(epoch, zone);
    let date = calendar(t / 86_400);
    Civil {
        years_since_1900: (date.year - 1900) as i32,
        month: (date.month - 1) as i32,
        day: date.day as i32,
        hour: (t / 3_600 % 24) as i32,
        minute: (t / 60 % 60) as i32,
        second: (t % 60) as i32,
        weekday: ((t / 86_400 + 4) % 7) as i32,
        offset_seconds: zone(epoch) as i64,
        zone: None,
    }
}

pub open spec fn shown_at(
    epoch: int,
    zone: spec_fn(int) -> int,
    calendar: spec_fn(int) -> Date,
) -> Moment<Text> {
    Moment { epoch: epoch as i64, civil: Some(shown(epoch, zone, calendar)) }
}

/// Whether this instant and offset are far enough from the ends of the number
/// range for the calendar arithmetic around them.
pub open spec fn in_range(epoch: int, offset: int) -> bool {
    -0x1000_0000_0000_0000 <= epoch <= 0x1000_0000_0000_0000 && -100_000 <= offset <= 100_000
}

/// Whether an instant is the one local midnight of a day: before it the clock
/// shows earlier times only, and after it later ones only.
pub open spec fn is_midnight(at: int, day: int, zone: spec_fn(int) -> int) -> bool {
    &&& local(at, zone) == day * 86_400
    &&& forall|t: int| t < at ==> #[trigger] local(t, zone) < day * 86_400
    &&& forall|t: int| t > at ==> #[trigger] local(t, zone) > day * 86_400
}

pub open spec fn has_midnight(day: int, zone: spec_fn(int) -> int) -> bool {
    exists|at: int| #[trigger] is_midnight(at, day, zone)
}

/// Whether a zone never changes its clock at local midnight: each day has one,
/// neither skipped nor repeated.
pub open spec fn keeps_midnights(zone: spec_fn(int) -> int) -> bool {
    forall|day: int| #[trigger] has_midnight(day, zone)
}

/// The time of day out of its hours, minutes and seconds.
proof fn lemma_time_of_day(t: int)
    ensures
        (t / 3_600 % 24) * 3600 + (t / 60 % 60) * 60 + t % 60 == t % 86_400,
{
}

proof fn lemma_elapsed(epoch: int, zone: spec_fn(int) -> int, calendar: spec_fn(int) -> Date)
    ensures
        elapsed(shown(epoch, zone, calendar)) == local(epoch, zone) % 86_400,
{
    reveal(shown);
    lemma_time_of_day(local(epoch, zone));
}

proof fn lemma_day_start(epoch: int, zone: spec_fn(int) -> int, calendar: spec_fn(int) -> Date)
    requires
        i64::MIN + 86_400 <= epoch <= i64::MAX,
    ensures
        day_start(shown_at(epoch, zone, calendar)) == epoch - local(epoch, zone) % 86_400,
{
    lemma_elapsed(epoch, zone, calendar);
}

/// `2026-08-15`.
pub open spec fn date_text(civil: Civil<Text>) -> Text {
    padded(civil.years_since_1900 + 1900, 4) + "-"@ + padded(civil.month + 1, 2) + "-"@ + padded(
        civil.day as int,
        2,
    )
}

proof fn lemma_midnight_is_shown(civil: Civil<Text>)
    requires
        civil.hour == 0,
        civil.minute == 0,
    ensures
        local_text(civil) == date_text(civil) + " 00:00"@,
{
    reveal_strlit(" 00:00");
    reveal_strlit(" ");
    reveal_strlit(":");
    let zeros = padded(0, 2);
    assert(strings::decimal(0) =~= seq!['0']);
    assert(strings::repeated('0', 1) =~= seq!['0']);
    assert(zeros =~= seq!['0', '0']);
    assert(" "@ + zeros + ":"@ + zeros =~= " 00:00"@);
    assert(local_text(civil) =~= date_text(civil) + (" "@ + zeros + ":"@ + zeros));
}

/// Where the clock does not move between the start of a day and an instant of
/// it, the start shows 00:00:00 on the same date, and is its own start.
pub proof fn law_a_day_starts_at_midnight(
    epoch: int,
    zone: spec_fn(int) -> int,
    calendar: spec_fn(int) -> Date,
)
    requires
        in_range(epoch, zone(epoch)),
        zone(day_start(shown_at(epoch, zone, calendar)) as int) == zone(epoch),
    ensures
        ({
            let start = day_start(shown_at(epoch, zone, calendar));
            let then = shown_at(start as int, zone, calendar);
            &&& elapsed(shown(start as int, zone, calendar)) == 0
            &&& stamped(then).local == date_text(shown(epoch, zone, calendar)) + " 00:00"@
            &&& day_start(then) == start
        }),
{
    reveal(shown);
    lemma_day_start(epoch, zone, calendar);
    let start = day_start(shown_at(epoch, zone, calendar)) as int;
    assert(local(start, zone) % 86_400 == 0);
    assert(local(start, zone) / 86_400 == local(epoch, zone) / 86_400);
    lemma_elapsed(start, zone, calendar);
    lemma_day_start(start, zone, calendar);
    let civil = shown(start, zone, calendar);
    assert(local(start, zone) / 3_600 % 24 == 0 && local(start, zone) / 60 % 60 == 0);
    lemma_midnight_is_shown(civil);
    assert(date_text(civil) == date_text(shown(epoch, zone, calendar)));
}

/// So many days back from the day of an instant a day starts, whatever the
/// clock did in between: its noon has twelve hours of slack.
proof fn lemma_days_back(
    epoch: int,
    zone: spec_fn(int) -> int,
    calendar: spec_fn(int) -> Date,
    back: int,
)
    requires
        in_range(epoch, zone(epoch)),
        0 <= back <= 31,
        ({
            let noon = noon_before(shown_at(epoch, zone, calendar), back) as int;
            -43_200 <= zone(noon) - zone(epoch) < 43_200
        }),
    ensures
        ({
            let at = shown_at(epoch, zone, calendar);
            let noon = noon_before(at, back) as int;
            let day = local(epoch, zone) / 86_400 - back;
            let start = day * 86_400 - zone(noon);
            &&& period_start(at, shown_at(noon, zone, calendar)) == start
            &&& noon == day * 86_400 - zone(epoch) + 43_200
            &&& -0x2000_0000_0000_0000 <= start <= 0x2000_0000_0000_0000
        }),
{
    let at = shown_at(epoch, zone, calendar);
    lemma_day_start(epoch, zone, calendar);
    let noon = noon_before(at, back) as int;
    let day = local(epoch, zone) / 86_400 - back;
    assert(noon == day * 86_400 - zone(epoch) + 43_200);
    lemma_day_start(noon, zone, calendar);
    assert(local(noon, zone) / 86_400 == day);
}

/// What holds of the start of a week or a month at which the clock shows
/// midnight.
proof fn lemma_start_of_day(
    epoch: int,
    zone: spec_fn(int) -> int,
    calendar: spec_fn(int) -> Date,
    start: int,
    day: int,
)
    requires
        keeps_midnights(zone),
        local(start, zone) == day * 86_400,
        day <= local(epoch, zone) / 86_400,
    ensures
        start <= epoch,
        is_midnight(start, day, zone),
        elapsed(shown(start, zone, calendar)) == 0,
        local(start, zone) / 86_400 == day,
{
    assert(has_midnight(day, zone));
    let at = choose|at: int| #[trigger] is_midnight(at, day, zone);
    assert(is_midnight(at, day, zone));
    if start < at {
        assert(local(start, zone) < day * 86_400);
    }
    if start > at {
        assert(local(start, zone) > day * 86_400);
    }
    if epoch < start {
        assert(local(epoch, zone) < day * 86_400);
    }
    lemma_elapsed(start, zone, calendar);
}

/// The start of a day is its own start where the clock stands still until noon.
proof fn lemma_own_start(
    start: int,
    zone: spec_fn(int) -> int,
    calendar: spec_fn(int) -> Date,
    day: int,
)
    requires
        -0x2000_0000_0000_0000 <= start <= 0x2000_0000_0000_0000,
        local(start, zone) == day * 86_400,
        zone(start + 43_200) == zone(start),
    ensures
        ({
            let again = shown_at(start, zone, calendar);
            let noon = noon_before(again, 0) as int;
            &&& noon == start + 43_200
            &&& period_start(again, shown_at(noon, zone, calendar)) == start
        }),
{
    lemma_day_start(start, zone, calendar);
    lemma_day_start(start + 43_200, zone, calendar);
    let again = shown_at(start, zone, calendar);
    assert(local(start, zone) % 86_400 == 0);
    assert(local(start + 43_200, zone) % 86_400 == 43_200);
    assert(day_start(again) == start);
    assert(noon_before(again, 0) == start + 43_200);
    assert(day_start(shown_at(start + 43_200, zone, calendar)) == start);
}

pub open spec fn week_noon_of(
    epoch: int,
    zone: spec_fn(int) -> int,
    calendar: spec_fn(int) -> Date,
) -> i64 {
    noon_before(
        shown_at(epoch, zone, calendar),
        days_since_monday(shown(epoch, zone, calendar)),
    )
}

/// The start of the week that an instant lies in, on such a clock.
pub open spec fn week_start_of(
    epoch: int,
    zone: spec_fn(int) -> int,
    calendar: spec_fn(int) -> Date,
) -> i64 {
    period_start(
        shown_at(epoch, zone, calendar),
        shown_at(week_noon_of(epoch, zone, calendar) as int, zone, calendar),
    )
}

proof fn lemma_weekdays(day: int)
    ensures
        ({
            let back = ((day + 4) % 7 + 6) % 7;
            &&& 0 <= back < 7
            &&& (day - back + 4) % 7 == 1
        }),
{
    assert(((day + 4) % 7 + 6) % 7 == (day + 10) % 7);
}

/// A week starts on a Monday at midnight, at or before every instant of it, with
/// no other such midnight in between, also where the clock moves inside the
/// week. On the Monday itself it must not move between midnight and noon; where
/// it does not, the start is its own start.
pub proof fn law_a_week_starts_on_its_monday(
    epoch: int,
    zone: spec_fn(int) -> int,
    calendar: spec_fn(int) -> Date,
)
    requires
        in_range(epoch, zone(epoch)),
        keeps_midnights(zone),
        ({
            let noon = zone(week_noon_of(epoch, zone, calendar) as int);
            &&& -43_200 <= noon - zone(epoch) < 43_200
            &&& zone(week_start_of(epoch, zone, calendar) as int) == noon
        }),
    ensures
        ({
            let start = week_start_of(epoch, zone, calendar) as int;
            &&& start <= epoch
            &&& shown(start, zone, calendar).weekday == 1
            &&& elapsed(shown(start, zone, calendar)) == 0
            &&& forall|t: int|
                start < t <= epoch ==> !((#[trigger] shown(t, zone, calendar)).weekday == 1
                    && elapsed(shown(t, zone, calendar)) == 0)
            &&& zone(start + 43_200) == zone(start) ==> week_start_of(start, zone, calendar)
                == start
        }),
{
    reveal(shown);
    let today = local(epoch, zone) / 86_400;
    let back = days_since_monday(shown(epoch, zone, calendar));
    lemma_weekdays(today);
    lemma_days_back(epoch, zone, calendar, back);
    let day = today - back;
    let start = week_start_of(epoch, zone, calendar) as int;
    assert(local(start, zone) == day * 86_400);
    lemma_start_of_day(epoch, zone, calendar, start, day);
    assert forall|t: int| start < t <= epoch implies !((#[trigger] shown(
        t,
        zone,
        calendar,
    )).weekday == 1 && elapsed(shown(t, zone, calendar)) == 0) by {
        lemma_elapsed(t, zone, calendar);
        assert(local(t, zone) > day * 86_400);
        let other = local(t, zone) / 86_400;
        if shown(t, zone, calendar).weekday == 1 && elapsed(shown(t, zone, calendar)) == 0 {
            assert(local(t, zone) == other * 86_400);
            assert(other > day && (other + 4) % 7 == 1 && (day + 4) % 7 == 1);
            assert(other >= day + 7);
            assert(has_midnight(other, zone));
            let at = choose|at: int| #[trigger] is_midnight(at, other, zone);
            assert(is_midnight(at, other, zone));
            if epoch < at {
                assert(local(t, zone) < other * 86_400);
            } else if epoch > at {
                assert(local(epoch, zone) > other * 86_400);
            }
            assert(local(epoch, zone) < (today + 1) * 86_400);
        }
    }
    if zone(start + 43_200) == zone(start) {
        assert(days_since_monday(shown(start, zone, calendar)) == 0);
        lemma_own_start(start, zone, calendar, day);
    }
}

/// Whether a calendar numbers the days of a month from one upwards.
pub open spec fn counts_days(calendar: spec_fn(int) -> Date) -> bool {
    forall|n: int|
        1 <= (#[trigger] calendar(n)).day <= 31 && (calendar(n).day > 1 ==> calendar(n - 1) == (
        Date { day: calendar(n).day - 1, ..calendar(n) }))
}

proof fn lemma_first_of_month(calendar: spec_fn(int) -> Date, day: int, back: int)
    requires
        counts_days(calendar),
        0 <= back < calendar(day).day,
    ensures
        calendar(day - back) == (Date { day: calendar(day).day - back, ..calendar(day) }),
    decreases back,
{
    if back > 0 {
        lemma_first_of_month(calendar, day, back - 1);
        assert(calendar(day - (back - 1)).day > 1);
    }
}

pub open spec fn month_noon_of(
    epoch: int,
    zone: spec_fn(int) -> int,
    calendar: spec_fn(int) -> Date,
) -> i64 {
    noon_before(
        shown_at(epoch, zone, calendar),
        days_since_first(shown(epoch, zone, calendar)),
    )
}

/// The start of the month that an instant lies in, on such a clock.
pub open spec fn month_start_of(
    epoch: int,
    zone: spec_fn(int) -> int,
    calendar: spec_fn(int) -> Date,
) -> i64 {
    period_start(
        shown_at(epoch, zone, calendar),
        shown_at(month_noon_of(epoch, zone, calendar) as int, zone, calendar),
    )
}

/// A month starts on its first day at midnight, in the same month and year as
/// every instant of it and at or before it, also where the clock moves inside
/// the month. On the first day itself it must not move between midnight and
/// noon; where it does not, the start is its own start.
pub proof fn law_a_month_starts_on_its_first_day(
    epoch: int,
    zone: spec_fn(int) -> int,
    calendar: spec_fn(int) -> Date,
)
    requires
        in_range(epoch, zone(epoch)),
        keeps_midnights(zone),
        counts_days(calendar),
        ({
            let noon = zone(month_noon_of(epoch, zone, calendar) as int);
            &&& -43_200 <= noon - zone(epoch) < 43_200
            &&& zone(month_start_of(epoch, zone, calendar) as int) == noon
        }),
    ensures
        ({
            let start = month_start_of(epoch, zone, calendar) as int;
            let first = shown(start, zone, calendar);
            let now = shown(epoch, zone, calendar);
            &&& start <= epoch
            &&& first.day == 1
            &&& first.month == now.month
            &&& first.years_since_1900 == now.years_since_1900
            &&& elapsed(first) == 0
            &&& zone(start + 43_200) == zone(start) ==> month_start_of(start, zone, calendar)
                == start
        }),
{
    reveal(shown);
    let today = local(epoch, zone) / 86_400;
    assert(1 <= calendar(today).day <= 31);
    let back = calendar(today).day - 1;
    assert(days_since_first(shown(epoch, zone, calendar)) == back);
    lemma_first_of_month(calendar, today, back);
    lemma_days_back(epoch, zone, calendar, back);
    let day = today - back;
    let start = month_start_of(epoch, zone, calendar) as int;
    assert(local(start, zone) == day * 86_400);
    lemma_start_of_day(epoch, zone, calendar, start, day);
    if zone(start + 43_200) == zone(start) {
        assert(days_since_first(shown(start, zone, calendar)) == 0);
        lemma_own_start(start, zone, calendar, day);
    }
}

/// A stamp made where there is a local zone ends its zone with a signed offset.
pub proof fn law_a_stamp_names_its_offset(moment: Moment<Text>)
    requires
        moment.civil is Some,
    ensures
        strings::ends(
            stamped(moment).zone,
            offset_text(moment.civil->0.offset_seconds as int),
        ),
{
    let zone = stamped(moment).zone;
    let offset = offset_text(moment.civil->0.offset_seconds as int);
    assert(zone.skip(zone.len() - offset.len()) =~= offset);
}

proof fn lemma_few_digits(n: nat)
    ensures
        n < 100 ==> strings::decimal(n).len() <= 2,
        n < 10_000 ==> strings::decimal(n).len() <= 4,
{
    reveal_with_fuel(strings::decimal, 5);
}

/// A number is filled up with zeros in front of it, to its width and no further.
pub proof fn law_a_number_is_filled_up_with_zeros(n: nat, width: nat)
    ensures
        ({
            let (digits, told) = (strings::decimal(n), padded(n as int, width));
            &&& strings::ends(told, digits)
            &&& told.len() == (if digits.len() < width {
                width
            } else {
                digits.len()
            })
            &&& forall|i: int| 0 <= i < told.len() - digits.len() ==> #[trigger] told[i] == '0'
        }),
{
    let digits = strings::decimal(n);
    let told = padded(n as int, width);
    assert(told.skip(told.len() - digits.len()) =~= digits);
}

/// A local time is written in the order of its parts, year, month, day, hour and
/// minute, each at its place: months are counted from one, years from nothing.
pub proof fn law_a_local_time_is_written_in_order(civil: Civil<Text>)
    requires
        0 <= civil.years_since_1900 + 1900 < 10_000,
        0 <= civil.month < 12,
        1 <= civil.day <= 31,
        on_the_clock(civil),
    ensures
        ({
            let told = local_text(civil);
            &&& told.len() == 16
            &&& strings::unsigned_value(told.subrange(0, 4), 10_000) == Ok::<
                nat,
                strings::NumberError,
            >((civil.years_since_1900 + 1900) as nat)
            &&& told[4] == '-' && told[7] == '-' && told[10] == ' ' && told[13] == ':'
            &&& strings::unsigned_value(told.subrange(5, 7), 100) == Ok::<
                nat,
                strings::NumberError,
            >((civil.month + 1) as nat)
            &&& strings::unsigned_value(told.subrange(8, 10), 100) == Ok::<
                nat,
                strings::NumberError,
            >(civil.day as nat)
            &&& strings::unsigned_value(told.subrange(11, 13), 100) == Ok::<
                nat,
                strings::NumberError,
            >(civil.hour as nat)
            &&& strings::unsigned_value(told.subrange(14, 16), 100) == Ok::<
                nat,
                strings::NumberError,
            >(civil.minute as nat)
        }),
{
    reveal_strlit("-");
    reveal_strlit(" ");
    reveal_strlit(":");
    let (y, m, d) = (
        padded(civil.years_since_1900 + 1900, 4),
        padded(civil.month + 1, 2),
        padded(civil.day as int, 2),
    );
    let (h, n) = (padded(civil.hour as int, 2), padded(civil.minute as int, 2));
    lemma_filled_reads_back((civil.years_since_1900 + 1900) as nat, 4, 10_000);
    lemma_filled_reads_back((civil.month + 1) as nat, 2, 100);
    lemma_filled_reads_back(civil.day as nat, 2, 100);
    lemma_filled_reads_back(civil.hour as nat, 2, 100);
    lemma_filled_reads_back(civil.minute as nat, 2, 100);
    let told = local_text(civil);
    assert(y.len() == 4 && m.len() == 2 && d.len() == 2 && h.len() == 2 && n.len() == 2);
    assert(told.subrange(0, 4) =~= y);
    assert(told.subrange(5, 7) =~= m);
    assert(told.subrange(8, 10) =~= d);
    assert(told.subrange(11, 13) =~= h);
    assert(told.subrange(14, 16) =~= n);
}

proof fn lemma_filled_reads_back(n: nat, width: nat, max: nat)
    requires
        n < max,
        max == 100 && width == 2 || max == 10_000 && width == 4,
    ensures
        padded(n as int, width).len() == width,
        strings::unsigned_value(padded(n as int, width), max) == Ok::<nat, strings::NumberError>(n),
{
    lemma_few_digits(n);
    strings::lemma_decimal_digits(n);
    let digits = strings::decimal(n);
    let zeros = strings::repeated('0', (width - digits.len()) as nat);
    let told = padded(n as int, width);
    assert(told == zeros + digits);
    strings::law_zeros_in_front_change_nothing(n, (width - digits.len()) as nat, max);
}

/// An offset is written with its sign, its hours and its minutes.
pub proof fn law_an_offset_is_written_with_its_sign(hours: int, minutes: int)
    requires
        0 <= hours < 100,
        0 <= minutes < 60,
    ensures
        offset_text(hours * 3600 + minutes * 60) == "+"@ + padded(hours, 2) + padded(minutes, 2),
        hours + minutes > 0 ==> offset_text(-(hours * 3600 + minutes * 60)) == "-"@ + padded(
            hours,
            2,
        ) + padded(minutes, 2),
{
    let size = hours * 3600 + minutes * 60;
    assert(size / 3600 == hours && size % 3600 / 60 == minutes);
}

/// A stamp is of its own instant, with the offset that holds there; a zone with a
/// name is called by it. Without a local zone the instant itself is told.
pub proof fn law_a_stamp_is_of_its_instant(moment: Moment<Text>)
    ensures
        stamped(moment).epoch == moment.epoch,
        moment.civil is Some ==> stamped(moment).offset_seconds == Some(
            (moment.civil->0).offset_seconds,
        ) && stamped(moment).local == local_text(moment.civil->0),
        moment.civil is None ==> stamped(moment).offset_seconds is None && strings::ends(
            stamped(moment).local,
            strings::signed_decimal(moment.epoch as int),
        ),
        moment.civil is Some && (moment.civil->0).zone is Some && ((moment.civil->0).zone->0).len()
            > 0 ==> strings::begins(stamped(moment).zone, (moment.civil->0).zone->0),
{
    let number = strings::signed_decimal(moment.epoch as int);
    let told = "epoch "@ + number;
    assert(told.skip("epoch "@.len() as int) =~= number);
    if moment.civil is Some && (moment.civil->0).zone is Some {
        let name = (moment.civil->0).zone->0;
        let all = name + " "@ + offset_text((moment.civil->0).offset_seconds as int);
        assert(all.take(name.len() as int) =~= name);
    }
}

} // verus!
