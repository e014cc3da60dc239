use i3owm::level::Level;
use i3owm::props::format_string;
use i3owm::spot::find_current;
use i3owm::spot::find_upcoming;
use i3owm::spot::get_spots;
use i3owm::spot::new_properties;
use i3owm::spot::DayTime;
use i3owm::spot::Spot;

const NOW: i64 = 1600000000;

fn shown(spots: &Vec<Spot>, soon_mins: i64, level: Level, blink: bool) -> (Level, String) {
    let mut props = new_properties();
    let r = get_spots(&mut props, spots, soon_mins, true, None, blink, &level, NOW);
    (r, format_string("{iss_icon}{iss}{iss_space}", &props))
}

#[test]
fn occluded_sky_is_none() {
    // a window is open right now, but the sky is not visible
    let spots = vec![Spot { risetime: NOW - 5, duration: 60 }];
    let mut props = new_properties();
    let r = get_spots(&mut props, &spots, 15, false, None, false, &Level::FAR, NOW);
    assert_eq!(r, Level::NONE);
    assert_eq!(format_string("{iss_icon}{iss}{iss_space}", &props), "");
}

#[test]
fn current_window_is_watch() {
    // rise five seconds ago, sixty seconds long: elapsed text with the
    // leading zero groups stripped
    let spots = vec![Spot { risetime: NOW - 5, duration: 60 }];
    let (r, s) = shown(&spots, 15, Level::WATCH, false);
    assert_eq!(r, Level::WATCH);
    assert_eq!(s, "🛰+05 ");
}

#[test]
fn watch_icon_blinks() {
    let spots = vec![Spot { risetime: NOW - 65, duration: 120 }];
    let (r, s) = shown(&spots, 15, Level::WATCH, true);
    assert_eq!(r, Level::WATCH);
    assert_eq!(s, "👁+01:05 ");
}

#[test]
fn upcoming_soon_is_countdown() {
    // ten minutes away, threshold fifteen minutes
    let spots = vec![Spot { risetime: NOW + 600, duration: 60 }];
    let (r, s) = shown(&spots, 15, Level::SOON, false);
    assert_eq!(r, Level::SOON);
    assert!(s.starts_with("🛰-"));
    assert_eq!(s, "🛰-10:00 ");
}

#[test]
fn soon_window_not_promoted_past_max_level() {
    // the same window, but the maximum level forbids SOON: no downgrade
    let spots = vec![Spot { risetime: NOW + 600, duration: 60 }];
    let (r, s) = shown(&spots, 15, Level::WATCH, false);
    assert_eq!(r, Level::NONE);
    assert_eq!(s, "");
}

#[test]
fn upcoming_far_off_is_rise_time() {
    let spots = vec![Spot { risetime: NOW + 3600, duration: 60 }];
    let (r, s) = shown(&spots, 15, Level::RISE, false);
    assert_eq!(r, Level::RISE);
    // icon, HH:MM, spacer
    assert!(s.starts_with('🛰'));
    assert_eq!(s.chars().count(), 1 + 5 + 1);
    assert_eq!(s.chars().nth(3), Some(':'));
}

#[test]
fn rise_beyond_a_day_shows_a_date() {
    let spots = vec![Spot { risetime: NOW + 2 * 86400, duration: 60 }];
    let (r, s) = shown(&spots, 15, Level::RISE, false);
    assert_eq!(r, Level::RISE);
    assert!(s.chars().count() > 1 + 5 + 1);
}

#[test]
fn far_prediction_shows_days() {
    // the only window rises in two days but is excluded by daylight, so
    // nothing is upcoming; at level FAR the last window is still announced
    let spots = vec![Spot { risetime: NOW + 2 * 86400 + 3600, duration: 60 }];
    let daytime = DayTime::from_utc(NOW + 2 * 86400, NOW + 3 * 86400);
    let mut props = new_properties();
    let r = get_spots(&mut props, &spots, 15, true, Some(&daytime), false, &Level::FAR, NOW);
    assert_eq!(r, Level::FAR);
    assert_eq!(format_string("{iss_icon}{iss}{iss_space}", &props), "🛰>2 ");
}

#[test]
fn far_needs_max_level_far() {
    let spots = vec![Spot { risetime: NOW - 7200, duration: 60 }];
    let (r, s) = shown(&spots, 15, Level::RISE, false);
    assert_eq!(r, Level::NONE);
    assert_eq!(s, "");
}

#[test]
fn test_iss_levels() {
    // one window per level, driven only by the configured maximum level
    let watch = vec![Spot { risetime: NOW - 5, duration: 60 }];
    let soon = vec![Spot { risetime: NOW + 600, duration: 60 }];
    let past = vec![Spot { risetime: NOW - 90000, duration: 60 }];
    assert_eq!(shown(&watch, 15, Level::FAR, false).0, Level::WATCH);
    assert_eq!(shown(&soon, 15, Level::FAR, false).0, Level::SOON);
    assert_eq!(shown(&soon, 5, Level::FAR, false).0, Level::RISE);
    assert_eq!(shown(&past, 15, Level::FAR, false).0, Level::FAR);
    assert_eq!(shown(&past, 15, Level::RISE, false).0, Level::NONE);
    assert_eq!(shown(&soon, 15, Level::WATCH, false).0, Level::NONE);
}

#[test]
fn find_current_and_upcoming_respect_daylight() {
    let spots = vec![
        Spot { risetime: NOW - 10, duration: 60 },
        Spot { risetime: NOW + 100, duration: 60 },
    ];
    assert_eq!(find_current(&spots, None, NOW), Some(Spot { risetime: NOW - 10, duration: 60 }));
    assert_eq!(find_upcoming(&spots, None, NOW), Some(Spot { risetime: NOW + 100, duration: 60 }));
    // daylight spans both rise times: both are excluded
    let day = DayTime::from_utc(NOW - 3600, NOW + 3600);
    assert_eq!(find_current(&spots, Some(&day), NOW), None);
    assert_eq!(find_upcoming(&spots, Some(&day), NOW), None);
    // window boundaries: the end of a window is not inside it
    let edge = vec![Spot { risetime: NOW - 60, duration: 60 }];
    assert_eq!(find_current(&edge, None, NOW), None);
}

#[test]
fn far_counts_whole_days_rounded_down() {
    // all windows in the past: the day count is negative, rounded down
    let spots = vec![Spot { risetime: NOW - 100000, duration: 60 }];
    let (r, s) = shown(&spots, 15, Level::FAR, false);
    assert_eq!(r, Level::FAR);
    assert_eq!(s, "🛰>-2 ");
}

#[test]
fn level_order_and_names() {
    assert!(Level::FAR.admits(&Level::SOON));
    assert!(!Level::WATCH.admits(&Level::SOON));
    assert_eq!(Level::NONE.rank(), 0);
    assert_eq!(Level::FAR.rank(), 4);
    assert_eq!(Level::WATCH.name(), "watch");
    assert_eq!(Level::NONE.name(), "none");
}
