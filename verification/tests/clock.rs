use standup::clock::{
    epoch_of, midnight, month_noon, month_start, now, stamp, week_noon, week_start, Civil, Moment,
};

/// A zone: its offset from UTC at an instant, and its name there.
type Zone = fn(i64) -> (i64, &'static str);

fn utc(_epoch: i64) -> (i64, &'static str) {
    (0, "UTC")
}

fn kolkata(_epoch: i64) -> (i64, &'static str) {
    (19_800, "IST")
}

fn newfoundland(_epoch: i64) -> (i64, &'static str) {
    (-12_600, "NST")
}

/// Central Europe, whose clocks go back at 01:00 UTC on 26 October 2025.
fn berlin(epoch: i64) -> (i64, &'static str) {
    if (1_743_296_400..1_761_440_400).contains(&epoch) {
        (7_200, "CEST")
    } else {
        (3_600, "CET")
    }
}

const ZONES: [Zone; 4] = [utc, kolkata, newfoundland, berlin];

fn civil(epoch: i64, zone: Zone) -> Civil {
    let (offset, name) = zone(epoch);
    let local = epoch + offset;
    let days = local.div_euclid(86_400);
    let second = local.rem_euclid(86_400);
    // Days to a civil date, with the year starting in March.
    let shifted = days + 719_468;
    let era = shifted.div_euclid(146_097);
    let day_of_era = shifted.rem_euclid(146_097);
    let year_of_era =
        (day_of_era - day_of_era / 1_460 + day_of_era / 36_524 - day_of_era / 146_096) / 365;
    let day_of_year = day_of_era - (365 * year_of_era + year_of_era / 4 - year_of_era / 100);
    let month_from_march = (5 * day_of_year + 2) / 153;
    let day = day_of_year - (153 * month_from_march + 2) / 5 + 1;
    let month = if month_from_march < 10 {
        month_from_march + 2
    } else {
        month_from_march - 10
    };
    let year = year_of_era + era * 400 + i64::from(month <= 1);
    Civil {
        years_since_1900: (year - 1900) as i32,
        month: month as i32,
        day: day as i32,
        hour: (second / 3_600) as i32,
        minute: (second / 60 % 60) as i32,
        second: (second % 60) as i32,
        weekday: (days + 4).rem_euclid(7) as i32,
        offset_seconds: offset,
        zone: Some(name.to_string()),
    }
}

fn moment(epoch: i64, zone: Zone) -> Moment {
    Moment {
        epoch,
        civil: Some(civil(epoch, zone)),
    }
}

fn week(epoch: i64, zone: Zone) -> i64 {
    let at = moment(epoch, zone);
    let noon = week_noon(&at).expect("a local zone");
    week_start(&at, &moment(noon, zone))
}

fn month(epoch: i64, zone: Zone) -> i64 {
    let at = moment(epoch, zone);
    let noon = month_noon(&at).expect("a local zone");
    month_start(&at, &moment(noon, zone))
}

/// Whatever the zone, midnight must be at or before the instant, no more than a
/// day earlier, and must itself land on a 00:00 local wall clock.
#[test]
fn midnight_is_the_start_of_the_local_day() {
    for zone in ZONES {
        for probe in [0_i64, 1_786_831_294, 1_600_000_000, 2_000_000_000] {
            let start = midnight(&moment(probe, zone));
            assert!(start <= probe, "midnight {start} after {probe}");
            assert!(probe - start < 86_400, "midnight {start} too far before");
            let stamp = stamp(&moment(start, zone));
            assert!(
                stamp.local.ends_with(" 00:00") || stamp.zone == "unknown zone",
                "midnight did not land on 00:00: {}",
                stamp.full()
            );
        }
    }
}

/// Whatever the zone, the week must start on a Monday at 00:00, at or before the
/// instant, and no more than seven days earlier.
#[test]
fn a_week_starts_on_the_monday_before_it() {
    for zone in ZONES {
        for probe in [
            0_i64,
            1_786_831_294,
            1_600_000_000,
            2_000_000_000,
            // Straddles a European DST transition, which is where naive
            // day-subtraction lands an hour into the wrong day.
            1_761_440_000,
        ] {
            let start = week(probe, zone);
            assert!(start <= probe, "week start {start} after {probe}");
            assert!(
                probe - start < 7 * 86_400,
                "week start {start} more than a week before {probe}"
            );
            let tm = civil(start, zone);
            assert_eq!(
                tm.weekday,
                1,
                "week started on weekday {} rather than Monday: {}",
                tm.weekday,
                stamp(&moment(start, zone)).full()
            );
            assert_eq!(
                (tm.hour, tm.minute, tm.second),
                (0, 0, 0),
                "week did not start at midnight: {}",
                stamp(&moment(start, zone)).full()
            );
        }
    }
}

#[test]
fn a_month_starts_on_its_first_day() {
    for zone in ZONES {
        for probe in [
            0_i64,
            1_786_831_294,
            1_600_000_000,
            2_000_000_000,
            1_761_440_000,
        ] {
            let start = month(probe, zone);
            assert!(start <= probe, "month start {start} after {probe}");
            assert!(
                probe - start < 31 * 86_400,
                "month start {start} more than a month before {probe}"
            );
            let tm = civil(start, zone);
            assert_eq!(
                tm.day,
                1,
                "month started on day {} rather than the 1st: {}",
                tm.day,
                stamp(&moment(start, zone)).full()
            );
            assert_eq!(
                (tm.hour, tm.minute, tm.second),
                (0, 0, 0),
                "month did not start at midnight: {}",
                stamp(&moment(start, zone)).full()
            );
        }
    }
}

/// A boundary is idempotent: asking for the start of the week containing a
/// week start gives the same instant back.
#[test]
fn the_boundaries_are_their_own_starts() {
    for zone in ZONES {
        for probe in [1_786_831_294_i64, 1_600_000_000, 1_761_440_000] {
            let at = week(probe, zone);
            assert_eq!(week(at, zone), at, "week start moved on the second ask");
            let at = month(probe, zone);
            assert_eq!(month(at, zone), at, "month start moved on the second ask");
        }
    }
}

#[test]
fn a_stamp_always_names_its_zone() {
    for zone in ZONES {
        let stamp = stamp(&moment(1_786_831_294, zone));
        assert!(stamp.full().starts_with(&stamp.local));
        assert!(!stamp.zone.is_empty());
        // The offset is always present, with a sign and four digits.
        let offset = stamp.zone.rsplit(' ').next().unwrap();
        assert_eq!(offset.len(), 5, "malformed offset in {:?}", stamp.zone);
        assert!(offset.starts_with('+') || offset.starts_with('-'));
    }
}

#[test]
fn now_is_plausible() {
    // After 2020 and before 2100: catches a units mix-up (millis for secs).
    let now = now();
    assert!(now > 1_577_836_800, "clock before 2020: {now}");
    assert!(now < 4_102_444_800, "clock after 2100: {now}");
}

#[test]
fn a_stamp_spells_out_the_wall_clock() {
    let at = stamp(&moment(1_786_835_716, utc));
    assert_eq!(at.epoch, 1_786_835_716);
    assert_eq!(at.local, "2026-08-15 23:15");
    assert_eq!(at.zone, "UTC +0000");
    assert_eq!(at.offset_seconds, Some(0));
    assert_eq!(at.full(), "2026-08-15 23:15 UTC +0000");

    let at = stamp(&moment(1_786_835_716, newfoundland));
    assert_eq!(at.local, "2026-08-15 19:45");
    assert_eq!(at.zone, "NST -0330");
    assert_eq!(at.offset_seconds, Some(-12_600));

    let mut unnamed = moment(1_786_835_716, kolkata);
    unnamed.civil.as_mut().unwrap().zone = None;
    assert_eq!(stamp(&unnamed).zone, "+0530");
}

#[test]
fn an_instant_without_a_zone_says_so() {
    let at = Moment {
        epoch: 1_786_835_716,
        civil: None,
    };
    let spelt = stamp(&at);
    assert_eq!(spelt.local, "epoch 1786835716");
    assert_eq!(spelt.zone, "unknown zone");
    assert_eq!(spelt.offset_seconds, None);
    assert_eq!(week_noon(&at), None);
    assert_eq!(month_noon(&at), None);
    // Every boundary then falls back to the start of the day in UTC.
    assert_eq!(midnight(&at), 1_786_752_000);
    assert_eq!(week_start(&at, &at), 1_786_752_000);
    assert_eq!(month_start(&at, &at), 1_786_752_000);
}

#[test]
fn midnight_is_an_exact_instant() {
    assert_eq!(midnight(&moment(1_786_835_716, utc)), 1_786_752_000);
    // 23:15 UTC is 04:45 on the next day in Kolkata, which began at 18:30 UTC.
    assert_eq!(midnight(&moment(1_786_835_716, kolkata)), 1_786_818_600);
    // 15 August 2026 is a Saturday; its week began on the 10th.
    assert_eq!(week(1_786_835_716, utc), 1_786_320_000);
    assert_eq!(month(1_786_835_716, utc), 1_785_542_400);
}

#[test]
fn a_clock_before_the_epoch_counts_backwards() {
    assert_eq!(epoch_of(Ok(17)), 17);
    assert_eq!(epoch_of(Err(17)), -17);
    assert_eq!(epoch_of(Ok(u64::MAX)), i64::MAX);
}
