use vstd::prelude::*;
use crate::numfmt::dec_spec;
use crate::props::PropertySet;
use crate::strutil::str_eq;
use crate::strutil::string_from_chars;
use crate::timefmt::local_hm;

verus! {

/// The facts of one weather report that the property store shows, already
/// reduced to plain values: numbers the logic computes with stay numeric,
/// values that are only displayed arrive as their display strings.
pub struct WeatherFacts {
    /// observation time, epoch seconds
    pub dt: i64,
    pub city: String,
    /// group of weather parameters (Rain, Snow, ...)
    pub main: String,
    pub description: String,
    /// provider icon code, such as "01d"
    pub icon: String,
    pub pressure: String,
    pub humidity: String,
    /// wind direction in meteorological degrees
    pub wind_deg: u64,
    /// wind direction as the provider reported it
    pub wind_deg_text: String,
    pub wind_speed: String,
    /// visibility in meters
    pub visibility: u64,
    pub rain_1h: Option<String>,
    pub rain_3h: Option<String>,
    pub snow_1h: Option<String>,
    pub snow_3h: Option<String>,
    pub temp_min: String,
    pub temp_max: String,
    pub feels_like: String,
    pub temp: String,
}

/// The eight compass labels, by 45-degree sector.
pub open spec fn wind_dir_label(deg: u64) -> Seq<char> {
    let d = (deg % 360) / 45;
    if d == 0 {
        "N"@
    } else if d == 1 {
        "NO"@
    } else if d == 2 {
        "O"@
    } else if d == 3 {
        "SO"@
    } else if d == 4 {
        "S"@
    } else if d == 5 {
        "SW"@
    } else if d == 6 {
        "W"@
    } else {
        "NW"@
    }
}

/// The eight arrow icons, by 45-degree sector.
pub open spec fn wind_dir_icon(deg: u64) -> Seq<char> {
    let d = (deg % 360) / 45;
    if d == 0 {
        "↓"@
    } else if d == 1 {
        "↙"@
    } else if d == 2 {
        "←"@
    } else if d == 3 {
        "↖"@
    } else if d == 4 {
        "↑"@
    } else if d == 5 {
        "↗"@
    } else if d == 6 {
        "→"@
    } else {
        "↘"@
    }
}

/// The glyph for a provider icon code; unknown codes get a marker.
pub open spec fn icon_glyph(code: Seq<char>) -> Seq<char> {
    if code == "01d"@ {
        "🌞"@
    } else if code == "01n"@ {
        "🌛"@
    } else if code == "02d"@ || code == "02n"@ {
        "🌤"@
    } else if code == "03d"@ || code == "03n"@ || code == "04d"@ || code == "04n"@ {
        "⛅"@
    } else if code == "09d"@ || code == "09n"@ {
        "🌧"@
    } else if code == "10d"@ || code == "10n"@ {
        "🌦"@
    } else if code == "11d"@ || code == "11n"@ {
        "🌩"@
    } else if code == "13d"@ || code == "13n"@ {
        "❄"@
    } else if code == "50d"@ || code == "50n"@ {
        "🌫"@
    } else {
        "🚫"@
    }
}

/// The temperature unit label for a unit-system name.
pub open spec fn temp_unit_label(units: Seq<char>) -> Seq<char> {
    if units == "standard"@ {
        "K"@
    } else if units == "metric"@ {
        "°C"@
    } else if units == "imperial"@ {
        "°F"@
    } else {
        ""@
    }
}

/// The wind speed unit label for a unit-system name.
pub open spec fn speed_unit_label(units: Seq<char>) -> Seq<char> {
    if units == "standard"@ || units == "metric"@ {
        "m/s"@
    } else if units == "imperial"@ {
        "mi/h"@
    } else {
        ""@
    }
}

/// A volume value, or a dash when the report carries none.
pub open spec fn volume_text(v: Option<Seq<char>>) -> Seq<char> {
    match v {
        Some(s) => s,
        None => "-"@,
    }
}

/// The optional volume string a facts field stands for.
pub open spec fn vol_view(v: Option<String>) -> Option<Seq<char>> {
    match v {
        Some(s) => Some(s@),
        None => None,
    }
}

/// Executable counterpart of [`wind_dir_label`].
fn wind_dir_label_exec(deg: u64) -> (r: &'static str)
    ensures
        r@ == wind_dir_label(deg),
{
    let d = (deg % 360) / 45;
    if d == 0 {
        "N"
    } else if d == 1 {
        "NO"
    } else if d == 2 {
        "O"
    } else if d == 3 {
        "SO"
    } else if d == 4 {
        "S"
    } else if d == 5 {
        "SW"
    } else if d == 6 {
        "W"
    } else {
        "NW"
    }
}

/// Executable counterpart of [`wind_dir_icon`].
fn wind_dir_icon_exec(deg: u64) -> (r: &'static str)
    ensures
        r@ == wind_dir_icon(deg),
{
    let d = (deg % 360) / 45;
    if d == 0 {
        "↓"
    } else if d == 1 {
        "↙"
    } else if d == 2 {
        "←"
    } else if d == 3 {
        "↖"
    } else if d == 4 {
        "↑"
    } else if d == 5 {
        "↗"
    } else if d == 6 {
        "→"
    } else {
        "↘"
    }
}

/// Executable counterpart of [`icon_glyph`].
fn icon_glyph_exec(code: &str) -> (r: &'static str)
    ensures
        r@ == icon_glyph(code@),
{
    if str_eq(code, "01d") {
        "🌞"
    } else if str_eq(code, "01n") {
        "🌛"
    } else if str_eq(code, "02d") || str_eq(code, "02n") {
        "🌤"
    } else if str_eq(code, "03d") || str_eq(code, "03n") || str_eq(code, "04d") || str_eq(
        code,
        "04n",
    ) {
        "⛅"
    } else if str_eq(code, "09d") || str_eq(code, "09n") {
        "🌧"
    } else if str_eq(code, "10d") || str_eq(code, "10n") {
        "🌦"
    } else if str_eq(code, "11d") || str_eq(code, "11n") {
        "🌩"
    } else if str_eq(code, "13d") || str_eq(code, "13n") {
        "❄"
    } else if str_eq(code, "50d") || str_eq(code, "50n") {
        "🌫"
    } else {
        "🚫"
    }
}

/// A volume field as shown: the value, or a dash when absent.
fn volume_text_exec(v: &Option<String>) -> (r: &str)
    ensures
        r@ == volume_text(vol_view(*v)),
{
    match v {
        Some(s) => s.as_str(),
        None => "-",
    }
}

/// Fill the store with the keys derived from one weather report.  Every
/// weather key is overwritten; the visibility keys are untouched.  The
/// `{update}` key holds the observation time as local wall-clock `HH:MM`,
/// which depends on the machine's time zone, so only its shape is stated.
pub fn get_weather(props: &mut PropertySet, current: &WeatherFacts, units: &str)
    requires
        old(props).wf(),
    ensures
        final(props).wf(),
        exists|u: Seq<char>|
            u.len() == 5 && final(props).as_map() == old(props).as_map().insert("{update}"@, u)
                .insert("{city}"@, current.city@).insert("{main}"@, current.main@).insert(
                "{description}"@,
                current.description@,
            ).insert("{icon}"@, icon_glyph(current.icon@)).insert("{pressure}"@, current.pressure@)
                .insert("{humidity}"@, current.humidity@).insert("{wind_deg}"@, current.wind_deg_text@)
                .insert("{wind}"@, wind_dir_label(current.wind_deg)).insert(
                "{wind_icon}"@,
                wind_dir_icon(current.wind_deg),
            ).insert("{deg_unit}"@, "°"@).insert("{wind_speed}"@, current.wind_speed@).insert(
                "{visibility}"@,
                dec_spec(current.visibility as nat),
            ).insert("{visibility_km}"@, dec_spec((current.visibility / 1000) as nat)).insert(
                "{rain.1h}"@,
                volume_text(vol_view(current.rain_1h)),
            ).insert("{rain.3h}"@, volume_text(vol_view(current.rain_3h))).insert(
                "{snow.1h}"@,
                volume_text(vol_view(current.snow_1h)),
            ).insert("{snow.3h}"@, volume_text(vol_view(current.snow_3h))).insert(
                "{temp_min}"@,
                current.temp_min@,
            ).insert("{temp_max}"@, current.temp_max@).insert("{feels_like}"@, current.feels_like@)
                .insert("{temp}"@, current.temp@).insert("{temp_unit}"@, temp_unit_label(units@))
                .insert("{speed_unit}"@, speed_unit_label(units@)),
{
    let update_text = local_hm(current.dt);
    props.set("{update}", update_text.as_str());
    props.set("{city}", current.city.as_str());
    props.set("{main}", current.main.as_str());
    props.set("{description}", current.description.as_str());
    props.set("{icon}", icon_glyph_exec(current.icon.as_str()));
    props.set("{pressure}", current.pressure.as_str());
    props.set("{humidity}", current.humidity.as_str());
    props.set("{wind_deg}", current.wind_deg_text.as_str());
    props.set("{wind}", wind_dir_label_exec(current.wind_deg));
    props.set("{wind_icon}", wind_dir_icon_exec(current.wind_deg));
    props.set("{deg_unit}", "°");
    props.set("{wind_speed}", current.wind_speed.as_str());
    let mut vis_chars: Vec<char> = Vec::new();
    crate::numfmt::push_dec(&mut vis_chars, current.visibility);
    let vis = string_from_chars(&vis_chars);
    props.set("{visibility}", vis.as_str());
    let mut km_chars: Vec<char> = Vec::new();
    crate::numfmt::push_dec(&mut km_chars, current.visibility / 1000);
    let km = string_from_chars(&km_chars);
    props.set("{visibility_km}", km.as_str());
    props.set("{rain.1h}", volume_text_exec(&current.rain_1h));
    props.set("{rain.3h}", volume_text_exec(&current.rain_3h));
    props.set("{snow.1h}", volume_text_exec(&current.snow_1h));
    props.set("{snow.3h}", volume_text_exec(&current.snow_3h));
    props.set("{temp_min}", current.temp_min.as_str());
    props.set("{temp_max}", current.temp_max.as_str());
    props.set("{feels_like}", current.feels_like.as_str());
    props.set("{temp}", current.temp.as_str());
    let tu = if str_eq(units, "standard") {
        "K"
    } else if str_eq(units, "metric") {
        "°C"
    } else if str_eq(units, "imperial") {
        "°F"
    } else {
        ""
    };
    props.set("{temp_unit}", tu);
    let su = if str_eq(units, "standard") || str_eq(units, "metric") {
        "m/s"
    } else if str_eq(units, "imperial") {
        "mi/h"
    } else {
        ""
    };
    props.set("{speed_unit}", su);
}

} // verus!
