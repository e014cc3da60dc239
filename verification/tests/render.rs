use i3owm::level::Level;
use i3owm::props::format_string;
use i3owm::spot::get_spots;
use i3owm::spot::new_properties;
use i3owm::spot::Spot;
use i3owm::weather::get_weather;
use i3owm::weather::WeatherFacts;

fn sample_weather() -> WeatherFacts {
    WeatherFacts {
        dt: 1600000000,
        city: "Berlin".to_string(),
        main: "Clouds".to_string(),
        description: "scattered clouds".to_string(),
        icon: "03d".to_string(),
        pressure: "1013".to_string(),
        humidity: "61".to_string(),
        wind_deg: 230,
        wind_deg_text: "230".to_string(),
        wind_speed: "4".to_string(),
        visibility: 10000,
        rain_1h: None,
        rain_3h: None,
        snow_1h: Some("0.4".to_string()),
        snow_3h: Some("1.2".to_string()),
        temp_min: "16".to_string(),
        temp_max: "21".to_string(),
        feels_like: "18".to_string(),
        temp: "19".to_string(),
    }
}

const ALL_KEYS: &str = "{update} {city} {main} {description} {icon} {pressure} {humidity} \
{wind} {wind_icon} {wind_speed} {wind_deg} {deg_unit} {visibility} {visibility_km} \
{rain.1h} {rain.3h} {snow.1h} {snow.3h} {temp_min} {temp_max} {feels_like} {temp} \
{temp_unit} {speed_unit} {iss}{iss_icon}{iss_space}";

#[test]
fn test_allkeys() {
    let mut props = new_properties();
    get_weather(&mut props, &sample_weather(), "metric");
    let spots: Vec<Spot> = Vec::new();
    get_spots(&mut props, &spots, 30, true, None, false, &Level::RISE, 1600000000);
    let s = format_string(ALL_KEYS, &props);
    assert!(s.find('{').is_none());
    assert!(s.find('}').is_none());
}

#[test]
fn test_keydoublette() {
    let mut props = new_properties();
    get_weather(&mut props, &sample_weather(), "metric");
    let s = format_string("{update}{update}", &props);
    assert!(s.find('{').is_none());
    assert!(s.find('}').is_none());
    // both occurrences are replaced by the same five-character time
    assert_eq!(s.chars().count(), 10);
}

#[test]
fn render_is_deterministic() {
    let mut props = new_properties();
    get_weather(&mut props, &sample_weather(), "metric");
    let first = format_string(ALL_KEYS, &props);
    let second = format_string(ALL_KEYS, &props);
    assert_eq!(first, second);
}

#[test]
fn render_substitutes_values() {
    let mut props = new_properties();
    get_weather(&mut props, &sample_weather(), "metric");
    assert_eq!(format_string("{city}", &props), "Berlin");
    assert_eq!(format_string("{temp}{temp_unit}", &props), "19°C");
    assert_eq!(format_string("{wind}", &props), "SW");
    assert_eq!(format_string("{icon}", &props), "⛅");
    assert_eq!(format_string("no keys at all", &props), "no keys at all");
}

#[test]
fn render_spacer_follows_visibility_info() {
    let mut props = new_properties();
    // nothing visible: the spacer renders empty
    assert_eq!(format_string("a{iss_space}b", &props), "ab");
    // a current window: the icon is non-empty, so the spacer is one space
    let spots = vec![Spot { risetime: 995, duration: 60 }];
    get_spots(&mut props, &spots, 30, true, None, false, &Level::RISE, 1000);
    assert_eq!(format_string("{iss_icon}{iss}{iss_space}b", &props), "🛰+05 b");
}

#[test]
fn render_unknown_key_is_left_alone() {
    let props = new_properties();
    assert_eq!(format_string("{nosuchkey}", &props), "{nosuchkey}");
}

#[test]
fn update_key_is_wall_clock_shaped() {
    let mut props = new_properties();
    get_weather(&mut props, &sample_weather(), "metric");
    let shown = format_string("{update}", &props);
    assert_eq!(shown.chars().count(), 5);
    assert_eq!(shown.chars().nth(2), Some(':'));
}
