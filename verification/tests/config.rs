use laundry_machine_mqtt::config::{
    Config, Coord, Marker, MarkerType, MqttConfig, WebcamConfig, DEFAULT_THRESHOLD, MAX_DIGITS,
};
use laundry_machine_mqtt::units::{FULL_SCALE, UNIT};

#[test]
fn new_marker_has_no_name() {
    let shape = MarkerType::Point { pos: Coord { x: UNIT / 2, y: UNIT / 2 }, size: UNIT / 100 };
    let marker = Marker::new(shape);
    assert_eq!(marker.name, "");
    assert_eq!(marker.ty, shape);
}

#[test]
fn fresh_configuration() {
    let config = Config::default();
    assert!(config.markers.is_empty());
    assert_eq!(config.luminance_threshold, DEFAULT_THRESHOLD);
    assert_eq!(config.luminance_threshold * 10, FULL_SCALE * 4);
    assert_eq!(config.mqtt.host, "");
    assert_eq!(config.mqtt.port, 0);
    assert_eq!(config.mqtt.username, None);
    assert_eq!(config.mqtt.password, None);
    assert_eq!(config.webcam.url, "");
    assert_eq!(config.webcam.username, None);
    assert_eq!(config.webcam.password, None);
}

#[test]
fn fresh_parts_of_the_configuration() {
    let mqtt = MqttConfig::default();
    assert_eq!((mqtt.host.as_str(), mqtt.port), ("", 0));
    assert!(mqtt.username.is_none() && mqtt.password.is_none());
    let webcam = WebcamConfig::default();
    assert_eq!(webcam.url, "");
    assert!(webcam.username.is_none() && webcam.password.is_none());
}

#[test]
fn eighteen_digits_fit_in_sixty_four_bits() {
    assert_eq!(MAX_DIGITS, 18);
    assert!(10i128.pow(MAX_DIGITS as u32) - 1 <= i64::MAX as i128);
    assert!(10i128.pow(MAX_DIGITS as u32 + 1) - 1 > i64::MAX as i128);
}
