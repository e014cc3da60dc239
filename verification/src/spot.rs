use vstd::prelude::*;
use vstd::arithmetic::div_mod::lemma_fundamental_div_mod;
use vstd::arithmetic::div_mod::lemma_fundamental_div_mod_converse;
use crate::level::Level;
use crate::numfmt::pad2_spec;
use crate::numfmt::dec_signed_spec;
use crate::numfmt::push_pad2;
use crate::numfmt::push_dec_signed;
use crate::props::PropertySet;
use crate::strutil::string_from_chars;
use crate::timefmt::local_hm;
use crate::timefmt::local_date_hm;

verus! {

/// One predicted visibility window: when the tracked object rises and for
/// how long it stays visible, both in seconds (rise time on the Unix epoch).
#[derive(Clone, Copy, PartialEq, Eq, Structural, Debug)]
pub struct Spot {
    pub risetime: i64,
    pub duration: i64,
}

/// A day's sunrise and sunset, in epoch seconds, used to exclude windows
/// that rise in daylight.
#[derive(Clone, Copy, PartialEq, Eq, Structural, Debug)]
pub struct DayTime {
    pub sunrise: i64,
    pub sunset: i64,
}

impl DayTime {
    /// Build from the epoch-second sunrise and sunset of a weather report.
    pub fn from_utc(sunrise_utc: i64, sunset_utc: i64) -> (r: DayTime)
        ensures
            r.sunrise == sunrise_utc,
            r.sunset == sunset_utc,
    {
        DayTime { sunrise: sunrise_utc, sunset: sunset_utc }
    }
}

/// The daylight span an optional borrowed filter stands for.
pub open spec fn deref_dt(daytime: Option<&DayTime>) -> Option<DayTime> {
    match daytime {
        Some(d) => Some(*d),
        None => None,
    }
}

/// A window is excluded when its rise time falls strictly between sunrise
/// and sunset: the object would rise in daylight and stay invisible.
pub open spec fn excluded(s: Spot, daytime: Option<DayTime>) -> bool {
    match daytime {
        Some(d) => d.sunrise < s.risetime < d.sunset,
        None => false,
    }
}

/// `now` lies within the window `[risetime, risetime + duration)`.
pub open spec fn is_current(s: Spot, now: i64) -> bool {
    s.risetime <= now < s.risetime + s.duration
}

/// First window, in list order, that is open at `now` and not excluded.
pub open spec fn first_current(spots: Seq<Spot>, daytime: Option<DayTime>, now: i64) -> Option<
    Spot,
>
    decreases spots.len(),
{
    if spots.len() == 0 {
        None
    } else if !excluded(spots[0], daytime) && is_current(spots[0], now) {
        Some(spots[0])
    } else {
        first_current(spots.skip(1), daytime, now)
    }
}

/// First window, in list order, that rises after `now` and is not excluded.
/// With the list ordered ascending by rise time this is the earliest
/// upcoming window.
pub open spec fn first_upcoming(spots: Seq<Spot>, daytime: Option<DayTime>, now: i64) -> Option<
    Spot,
>
    decreases spots.len(),
{
    if spots.len() == 0 {
        None
    } else if !excluded(spots[0], daytime) && spots[0].risetime > now {
        Some(spots[0])
    } else {
        first_upcoming(spots.skip(1), daytime, now)
    }
}

proof fn lemma_first_current_skip(spots: Seq<Spot>, daytime: Option<DayTime>, now: i64, m: int)
    requires
        0 <= m <= spots.len(),
        forall|j: int|
            0 <= j < m ==> !(!excluded(#[trigger] spots[j], daytime) && is_current(
                spots[j],
                now,
            )),
    ensures
        first_current(spots, daytime, now) == first_current(spots.skip(m), daytime, now),
    decreases m,
{
    if m == 0 {
        assert(spots.skip(0) =~= spots);
    } else {
        assert forall|j: int|
            0 <= j < m - 1 implies !(!excluded(#[trigger] spots.skip(1)[j], daytime) && is_current(
            spots.skip(1)[j],
            now,
        )) by {
            assert(spots.skip(1)[j] == spots[j + 1]);
        }
        lemma_first_current_skip(spots.skip(1), daytime, now, m - 1);
        assert(spots.skip(1).skip(m - 1) =~= spots.skip(m));
    }
}

proof fn lemma_first_upcoming_skip(spots: Seq<Spot>, daytime: Option<DayTime>, now: i64, m: int)
    requires
        0 <= m <= spots.len(),
        forall|j: int|
            0 <= j < m ==> !(!excluded(#[trigger] spots[j], daytime) && spots[j].risetime > now),
    ensures
        first_upcoming(spots, daytime, now) == first_upcoming(spots.skip(m), daytime, now),
    decreases m,
{
    if m == 0 {
        assert(spots.skip(0) =~= spots);
    } else {
        assert forall|j: int|
            0 <= j < m - 1 implies !(!excluded(#[trigger] spots.skip(1)[j], daytime) && spots.skip(
            1,
        )[j].risetime > now) by {
            assert(spots.skip(1)[j] == spots[j + 1]);
        }
        lemma_first_upcoming_skip(spots.skip(1), daytime, now, m - 1);
        assert(spots.skip(1).skip(m - 1) =~= spots.skip(m));
    }
}

/// All windows hold representable times: non-negative rise and duration,
/// with the window's end still on the clock.
pub open spec fn spots_bounded(spots: Seq<Spot>) -> bool {
    forall|i: int|
        0 <= i < spots.len() ==> {
            &&& 0 <= (#[trigger] spots[i]).risetime
            &&& 0 <= spots[i].duration
            &&& spots[i].risetime + spots[i].duration <= i64::MAX
        }
}

/// The window open at `now`, if any, among those not excluded by daylight.
pub fn find_current(spots: &Vec<Spot>, daytime: Option<&DayTime>, now: i64) -> (r: Option<Spot>)
    requires
        spots_bounded(spots@),
    ensures
        r == first_current(spots@, deref_dt(daytime), now),
{
    let ghost dt = deref_dt(daytime);
    let n = spots.len();
    let mut i: usize = 0;
    while i < n
        invariant
            n == spots@.len(),
            spots_bounded(spots@),
            dt == deref_dt(daytime),
            i <= n,
            forall|j: int|
                0 <= j < i ==> !(!excluded(#[trigger] spots@[j], dt) && is_current(
                    spots@[j],
                    now,
                )),
        decreases n - i,
    {
        let s = spots[i];
        let shut_out = match daytime {
            Some(d) => d.sunrise < s.risetime && s.risetime < d.sunset,
            None => false,
        };
        if !shut_out && s.risetime <= now && now - s.risetime < s.duration {
            proof {
                lemma_first_current_skip(spots@, dt, now, i as int);
                assert(spots@.skip(i as int)[0] == spots@[i as int]);
            }
            return Some(s);
        }
        i = i + 1;
    }
    proof {
        lemma_first_current_skip(spots@, dt, now, n as int);
        assert(spots@.skip(n as int).len() == 0);
    }
    None
}

/// The next window rising after `now`, if any, among those not excluded.
pub fn find_upcoming(spots: &Vec<Spot>, daytime: Option<&DayTime>, now: i64) -> (r: Option<Spot>)
    ensures
        r == first_upcoming(spots@, deref_dt(daytime), now),
{
    let ghost dt = deref_dt(daytime);
    let n = spots.len();
    let mut i: usize = 0;
    while i < n
        invariant
            n == spots@.len(),
            dt == deref_dt(daytime),
            i <= n,
            forall|j: int|
                0 <= j < i ==> !(!excluded(#[trigger] spots@[j], dt) && spots@[j].risetime > now),
        decreases n - i,
    {
        let s = spots[i];
        let shut_out = match daytime {
            Some(d) => d.sunrise < s.risetime && s.risetime < d.sunset,
            None => false,
        };
        if !shut_out && s.risetime > now {
            proof {
                lemma_first_upcoming_skip(spots@, dt, now, i as int);
                assert(spots@.skip(i as int)[0] == spots@[i as int]);
            }
            return Some(s);
        }
        i = i + 1;
    }
    proof {
        lemma_first_upcoming_skip(spots@, dt, now, n as int);
        assert(spots@.skip(n as int).len() == 0);
    }
    None
}

/// The `HH:MM:SS` groups of a duration of `d` seconds, with leading all-zero
/// groups dropped: hours are omitted when zero, then minutes when also zero;
/// the seconds group always stays.  Kept groups are padded to two digits.
pub open spec fn dur_groups(d: nat) -> Seq<char> {
    let h = d / 3600;
    let m = (d / 60) % 60;
    let s = d % 60;
    if h > 0 {
        pad2_spec(h) + seq![':'] + pad2_spec(m) + seq![':'] + pad2_spec(s)
    } else if m > 0 {
        pad2_spec(m) + seq![':'] + pad2_spec(s)
    } else {
        pad2_spec(s)
    }
}

/// Elapsed-duration text for a window open since `d` seconds: `+` and the
/// stripped duration groups.
pub open spec fn elapsed_text(d: nat) -> Seq<char> {
    seq!['+'] + dur_groups(d)
}

/// Countdown text for a window rising in `d` seconds: `-` and the stripped
/// duration groups.
pub open spec fn countdown_text(d: nat) -> Seq<char> {
    seq!['-'] + dur_groups(d)
}

/// Far-future text: `>` and the whole days (rounded down) until the last
/// known window.
pub open spec fn far_text(days: int) -> Seq<char> {
    seq!['>'] + dec_signed_spec(days)
}

/// Build `sign` followed by the stripped duration groups of `d` seconds.
fn dur_chars(sign: char, d: u64) -> (r: Vec<char>)
    ensures
        r@ == seq![sign] + dur_groups(d as nat),
{
    let mut out: Vec<char> = Vec::new();
    out.push(sign);
    let h = d / 3600;
    let m = (d / 60) % 60;
    let s = d % 60;
    if h > 0 {
        push_pad2(&mut out, h);
        out.push(':');
        push_pad2(&mut out, m);
        out.push(':');
        push_pad2(&mut out, s);
    } else if m > 0 {
        push_pad2(&mut out, m);
        out.push(':');
        push_pad2(&mut out, s);
    } else {
        push_pad2(&mut out, s);
    }
    proof {
        assert(out@ =~= seq![sign] + dur_groups(d as nat));
    }
    out
}

/// Whole days, rounded towards minus infinity, in `diff` seconds.
fn floor_div_days(diff: i64) -> (q: i64)
    requires
        diff > i64::MIN,
    ensures
        q as int == diff as int / 86400,
{
    if diff >= 0 {
        let qe = (diff as u64) / 86400;
        proof {
            lemma_fundamental_div_mod(diff as int, 86400);
        }
        (qe as i64)
    } else {
        let nd = (-diff) as u64;
        let q0 = (nd + 86399) / 86400;
        proof {
            let a = diff as int;
            let n = nd as int;
            lemma_fundamental_div_mod(n + 86399, 86400);
            let qq = (n + 86399) / 86400;
            let rr = (n + 86399) % 86400;
            assert(a == 86400 * (-qq) + (86399 - rr));
            lemma_fundamental_div_mod_converse(a, 86400, -qq, 86399 - rr);
        }
        -(q0 as i64)
    }
}

/// The level the engine announces for the given inputs: nothing while the
/// sky is not visible; `WATCH` for an open window; `SOON` or `RISE` for an
/// upcoming one, depending on how near it is and on the configured maximum
/// level; `FAR` when only far-off predictions exist and the maximum level
/// allows them; `NONE` otherwise.  An upcoming window inside the soon
/// threshold is never degraded to `RISE` when the maximum level forbids
/// `SOON`: it falls back to `NONE`.
pub open spec fn level_for(
    spots: Seq<Spot>,
    now: i64,
    visible: bool,
    daytime: Option<DayTime>,
    soon_mins: i64,
    max_level: Level,
) -> Level {
    if !visible {
        Level::NONE
    } else if first_current(spots, daytime, now) is Some {
        Level::WATCH
    } else {
        match first_upcoming(spots, daytime, now) {
            Some(u) => if u.risetime - now < soon_mins * 60 && max_level.rank_spec() >= 2 {
                Level::SOON
            } else if max_level.rank_spec() >= 3 {
                Level::RISE
            } else {
                Level::NONE
            },
            None => if max_level == Level::FAR && spots.len() > 0 {
                Level::FAR
            } else {
                Level::NONE
            },
        }
    }
}

/// The icon shown at each level: nothing at `NONE`, the satellite
/// otherwise, except that an open window alternates satellite and eye with
/// the caller's blink phase.
pub open spec fn iss_icon_spec(lv: Level, blink: bool) -> Seq<char> {
    match lv {
        Level::NONE => ""@,
        Level::WATCH => if blink {
            "👁"@
        } else {
            "🛰"@
        },
        _ => "🛰"@,
    }
}

/// The text shown at each level other than `RISE` (whose text is a local
/// clock time that depends on the machine's time zone).
pub open spec fn iss_text_spec(
    spots: Seq<Spot>,
    now: i64,
    daytime: Option<DayTime>,
    lv: Level,
) -> Seq<char> {
    match lv {
        Level::WATCH => match first_current(spots, daytime, now) {
            Some(c) => elapsed_text((now - c.risetime) as nat),
            None => ""@,
        },
        Level::SOON => match first_upcoming(spots, daytime, now) {
            Some(u) => countdown_text((u.risetime - now) as nat),
            None => ""@,
        },
        Level::FAR => if spots.len() > 0 {
            far_text((spots.last().risetime - now) as int / 86400)
        } else {
            ""@
        },
        _ => ""@,
    }
}

/// Evaluate the visibility level and update the store's `{iss_icon}` and
/// `{iss}` keys accordingly.  The keys are overwritten on every call, so no
/// stale value survives an evaluation that yields a lower level.
///
/// For every level but `RISE` the text is pinned exactly; the `RISE` text is
/// the local clock time of the rise (date-prefixed when more than a day
/// away), which depends on the machine's time zone, so only its shape is
/// stated.
pub fn get_spots(
    props: &mut PropertySet,
    spots: &Vec<Spot>,
    soon_mins: i64,
    visible: bool,
    daytime: Option<&DayTime>,
    blink: bool,
    level: &Level,
    now: i64,
) -> (r: Level)
    requires
        old(props).wf(),
        spots_bounded(spots@),
        0 <= now,
        0 <= soon_mins <= i64::MAX / 60,
    ensures
        final(props).wf(),
        r == level_for(spots@, now, visible, deref_dt(daytime), soon_mins, *level),
        r != Level::RISE ==> final(props).as_map() == old(props).as_map().insert(
            "{iss_icon}"@,
            iss_icon_spec(r, blink),
        ).insert("{iss}"@, iss_text_spec(spots@, now, deref_dt(daytime), r)),
        r == Level::RISE ==> exists|v: Seq<char>|
            {
                &&& final(props).as_map() == old(props).as_map().insert(
                    "{iss_icon}"@,
                    iss_icon_spec(r, blink),
                ).insert("{iss}"@, v)
                &&& v.len() >= 5
                &&& (match first_upcoming(spots@, deref_dt(daytime), now) {
                    Some(u) => u.risetime - now <= 86400 ==> v.len() == 5,
                    None => true,
                })
            },
{
    let ghost dt = deref_dt(daytime);
    let current = find_current(spots, daytime, now);
    let upcoming = find_upcoming(spots, daytime, now);
    if visible {
        match current {
            Some(c) => {
                proof {
                    assert(exists|i: int|
                        0 <= i < spots@.len() && spots@[i] == c && is_current(c, now)) by {
                        lemma_first_current_in(spots@, dt, now);
                    }
                }
                if blink {
                    props.set("{iss_icon}", "👁");
                } else {
                    props.set("{iss_icon}", "🛰");
                }
                let text_chars = dur_chars('+', (now - c.risetime) as u64);
                let text = string_from_chars(&text_chars);
                props.set("{iss}", text.as_str());
                return Level::WATCH;
            },
            None => {
                match upcoming {
                    Some(u) => {
                        proof {
                            assert(exists|i: int|
                                0 <= i < spots@.len() && spots@[i] == u && u.risetime > now) by {
                                lemma_first_upcoming_in(spots@, dt, now);
                            }
                        }
                        let remaining = u.risetime - now;
                        if remaining < soon_mins * 60 && level.rank() >= 2 {
                            props.set("{iss_icon}", "🛰");
                            let text_chars = dur_chars('-', remaining as u64);
                            let text = string_from_chars(&text_chars);
                            props.set("{iss}", text.as_str());
                            return Level::SOON;
                        } else if level.rank() >= 3 {
                            props.set("{iss_icon}", "🛰");
                            let text = if remaining > 86400 {
                                local_date_hm(u.risetime)
                            } else {
                                local_hm(u.risetime)
                            };
                            props.set("{iss}", text.as_str());
                            proof {
                                let lvr = Level::RISE;
                                assert(props.as_map() == old(props).as_map().insert(
                                    "{iss_icon}"@,
                                    iss_icon_spec(lvr, blink),
                                ).insert("{iss}"@, text@) && text@.len() >= 5 && (
                                match first_upcoming(spots@, dt, now) {
                                    Some(u2) => u2.risetime - now <= 86400 ==> text@.len() == 5,
                                    None => true,
                                }));
                            }
                            return Level::RISE;
                        }
                    },
                    None => {
                        if level.rank() == 4 && spots.len() > 0 {
                            proof {
                                assert(spots@.last().risetime >= 0);
                            }
                            let last = spots[spots.len() - 1];
                            props.set("{iss_icon}", "🛰");
                            let days = floor_div_days(last.risetime - now);
                            let mut text_chars: Vec<char> = Vec::new();
                            text_chars.push('>');
                            push_dec_signed(&mut text_chars, days);
                            let text = string_from_chars(&text_chars);
                            props.set("{iss}", text.as_str());
                            proof {
                                assert(text@ =~= far_text(
                                    (spots@.last().risetime - now) as int / 86400,
                                ));
                            }
                            return Level::FAR;
                        }
                    },
                }
            },
        }
    }
    props.set("{iss_icon}", "");
    props.set("{iss}", "");
    Level::NONE
}

/// A found current window is a member of the list and open at `now`.
proof fn lemma_first_current_in(spots: Seq<Spot>, daytime: Option<DayTime>, now: i64)
    ensures
        match first_current(spots, daytime, now) {
            Some(c) => is_current(c, now) && exists|i: int| 0 <= i < spots.len() && spots[i] == c,
            None => true,
        },
    decreases spots.len(),
{
    if spots.len() > 0 {
        if !(!excluded(spots[0], daytime) && is_current(spots[0], now)) {
            lemma_first_current_in(spots.skip(1), daytime, now);
            match first_current(spots.skip(1), daytime, now) {
                Some(c) => {
                    let i = choose|i: int| 0 <= i < spots.skip(1).len() && spots.skip(1)[i] == c;
                    assert(spots[i + 1] == c);
                },
                None => {},
            }
        }
    }
}

/// A found upcoming window is a member of the list and rises after `now`.
proof fn lemma_first_upcoming_in(spots: Seq<Spot>, daytime: Option<DayTime>, now: i64)
    ensures
        match first_upcoming(spots, daytime, now) {
            Some(u) => u.risetime > now && exists|i: int| 0 <= i < spots.len() && spots[i] == u,
            None => true,
        },
    decreases spots.len(),
{
    if spots.len() > 0 {
        if !(!excluded(spots[0], daytime) && spots[0].risetime > now) {
            lemma_first_upcoming_in(spots.skip(1), daytime, now);
            match first_upcoming(spots.skip(1), daytime, now) {
                Some(u) => {
                    let i = choose|i: int| 0 <= i < spots.skip(1).len() && spots.skip(1)[i] == u;
                    assert(spots[i + 1] == u);
                },
                None => {},
            }
        }
    }
}

/// A property store pre-populated with the visibility keys, so the renderer
/// never meets a missing key.
pub fn new_properties() -> (r: PropertySet)
    ensures
        r.wf(),
        r.as_map() == Map::<Seq<char>, Seq<char>>::empty().insert("{iss_icon}"@, ""@).insert(
            "{iss}"@,
            ""@,
        ),
{
    let mut props = PropertySet::new();
    let spots: Vec<Spot> = Vec::new();
    get_spots(&mut props, &spots, 0, true, None, false, &Level::RISE, 0);
    props
}

/// Law: while the sky is not visible, the engine yields `NONE`, whatever
/// the window list holds.
pub proof fn lemma_occluded_sky_is_none(
    spots: Seq<Spot>,
    now: i64,
    daytime: Option<DayTime>,
    soon_mins: i64,
    max_level: Level,
)
    ensures
        level_for(spots, now, false, daytime, soon_mins, max_level) == Level::NONE,
{
}

/// Law: an open window is announced as `WATCH` whenever the sky is
/// visible, whatever the configured maximum level.
pub proof fn lemma_current_window_watched(
    spots: Seq<Spot>,
    now: i64,
    daytime: Option<DayTime>,
    soon_mins: i64,
    max_level: Level,
)
    requires
        first_current(spots, daytime, now) is Some,
    ensures
        level_for(spots, now, true, daytime, soon_mins, max_level) == Level::WATCH,
{
}

/// Law: with no open window, an upcoming window inside the soon threshold
/// is announced as `SOON` whenever the maximum level admits it.
pub proof fn lemma_soon_window_announced(
    spots: Seq<Spot>,
    now: i64,
    daytime: Option<DayTime>,
    soon_mins: i64,
    max_level: Level,
)
    requires
        first_current(spots, daytime, now) is None,
        first_upcoming(spots, daytime, now) matches Some(u) && u.risetime - now < soon_mins * 60,
        max_level.rank_spec() >= Level::SOON.rank_spec(),
    ensures
        level_for(spots, now, true, daytime, soon_mins, max_level) == Level::SOON,
{
}

/// Law: an upcoming window inside the soon threshold is never announced
/// below `SOON`.  When the maximum level forbids `SOON`, the engine yields
/// `NONE` for it, not `RISE`.
pub proof fn lemma_no_downgrade_promotion(
    spots: Seq<Spot>,
    now: i64,
    daytime: Option<DayTime>,
    soon_mins: i64,
    max_level: Level,
)
    requires
        first_current(spots, daytime, now) is None,
        first_upcoming(spots, daytime, now) matches Some(u) && u.risetime - now < soon_mins * 60,
        max_level.rank_spec() < Level::SOON.rank_spec(),
    ensures
        level_for(spots, now, true, daytime, soon_mins, max_level) == Level::NONE,
{
}

} // verus!
