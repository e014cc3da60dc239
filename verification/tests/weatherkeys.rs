use i3owm::props::format_string;
use i3owm::spot::new_properties;
use i3owm::weather::get_weather;
use i3owm::weather::WeatherFacts;

fn facts(wind_deg: u64, icon: &str) -> WeatherFacts {
    WeatherFacts {
        dt: 1600000000,
        city: "Berlin".to_string(),
        main: "Clear".to_string(),
        description: "clear sky".to_string(),
        icon: icon.to_string(),
        pressure: "1013".to_string(),
        humidity: "61".to_string(),
        wind_deg,
        wind_deg_text: wind_deg.to_string(),
        wind_speed: "4".to_string(),
        visibility: 9876,
        rain_1h: None,
        rain_3h: Some("2.5".to_string()),
        snow_1h: None,
        snow_3h: None,
        temp_min: "16".to_string(),
        temp_max: "21".to_string(),
        feels_like: "18".to_string(),
        temp: "19".to_string(),
    }
}

fn one(key: &str, w: &WeatherFacts, units: &str) -> String {
    let mut props = new_properties();
    get_weather(&mut props, w, units);
    format_string(key, &props)
}

#[test]
fn wind_direction_buckets() {
    assert_eq!(one("{wind}{wind_icon}", &facts(0, "01d"), "metric"), "N↓");
    assert_eq!(one("{wind}{wind_icon}", &facts(90, "01d"), "metric"), "O←");
    assert_eq!(one("{wind}{wind_icon}", &facts(230, "01d"), "metric"), "SW↗");
    assert_eq!(one("{wind}{wind_icon}", &facts(315, "01d"), "metric"), "NW↘");
    // degrees wrap around the circle
    assert_eq!(one("{wind}", &facts(360, "01d"), "metric"), "N");
    assert_eq!(one("{wind}", &facts(725, "01d"), "metric"), "N");
}

#[test]
fn icon_lookup() {
    assert_eq!(one("{icon}", &facts(0, "01d"), "metric"), "🌞");
    assert_eq!(one("{icon}", &facts(0, "01n"), "metric"), "🌛");
    assert_eq!(one("{icon}", &facts(0, "10n"), "metric"), "🌦");
    assert_eq!(one("{icon}", &facts(0, "13d"), "metric"), "❄");
    assert_eq!(one("{icon}", &facts(0, "99x"), "metric"), "🚫");
}

#[test]
fn unit_labels() {
    assert_eq!(one("{temp_unit} {speed_unit}", &facts(0, "01d"), "standard"), "K m/s");
    assert_eq!(one("{temp_unit} {speed_unit}", &facts(0, "01d"), "metric"), "°C m/s");
    assert_eq!(one("{temp_unit} {speed_unit}", &facts(0, "01d"), "imperial"), "°F mi/h");
    assert_eq!(one("{temp_unit} {speed_unit}", &facts(0, "01d"), "odd"), " ");
}

#[test]
fn visibility_is_rendered_in_meters_and_kilometers() {
    assert_eq!(one("{visibility} {visibility_km}", &facts(0, "01d"), "metric"), "9876 9");
}

#[test]
fn missing_volumes_show_a_dash() {
    assert_eq!(one("{rain.1h} {rain.3h} {snow.1h}", &facts(0, "01d"), "metric"), "- 2.5 -");
}

#[test]
fn store_reads_back_what_was_set() {
    let mut props = new_properties();
    get_weather(&mut props, &facts(0, "01d"), "metric");
    assert_eq!(props.get("{city}").map(|s| s.as_str()), Some("Berlin"));
    assert_eq!(props.get("{nosuchkey}"), None);
    props.set("{city}", "Bonn");
    assert_eq!(props.get("{city}").map(|s| s.as_str()), Some("Bonn"));
}
