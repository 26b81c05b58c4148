use home_monitor_node::display::{format_humidity_line, format_temperature_line};
use home_monitor_node::environment_sensor::EnvironmentReading;
use home_monitor_node::http::{build_publish_request, build_request_head, server_ip_octets, SERVER_PORT};
use home_monitor_node::json::{format_body, parse_reading};

#[test]
fn reading_23_50_45_20_serializes_to_expected_body() {
    // Reading {temperature: 23.5, humidity: 45.2} at two decimal places.
    let r = EnvironmentReading::new(2350, 4520);
    let body = format_body(&r);
    assert_eq!(body, b"{\"temperature\":23.50,\"humidity\":45.20}".to_vec());
    assert_eq!(body.len(), 38);
    let req = build_publish_request(&r);
    let head = String::from_utf8(req.head).unwrap();
    assert!(head.contains("Content-Length: 38\r\n"));
}

#[test]
fn request_head_is_the_exact_wire_request() {
    let head = build_request_head(38);
    assert_eq!(
        String::from_utf8(head).unwrap(),
        "POST /reading HTTP/1.1\r\nHost: local\r\nContent-Type: application/json\r\nContent-Length: 38\r\nConnection: keep-alive\r\n\r\n"
    );
}

#[test]
fn content_length_always_matches_body_length() {
    for (t, h) in [(0, 0), (-5, 10000), (12345678, -12345678), (2147483647, -2147483648)] {
        let req = build_publish_request(&EnvironmentReading::new(t, h));
        let head = String::from_utf8(req.head).unwrap();
        let needle = format!("Content-Length: {}\r\n", req.body.len());
        assert!(head.contains(&needle), "head {:?} lacks {:?}", head, needle);
    }
}

#[test]
fn negative_and_small_values_format_with_two_decimals() {
    assert_eq!(
        format_body(&EnvironmentReading::new(-50, 5)),
        b"{\"temperature\":-0.50,\"humidity\":0.05}".to_vec()
    );
    assert_eq!(
        format_body(&EnvironmentReading::new(0, 9)),
        b"{\"temperature\":0.00,\"humidity\":0.09}".to_vec()
    );
    assert_eq!(
        format_body(&EnvironmentReading::new(-4000, 12500)),
        b"{\"temperature\":-40.00,\"humidity\":125.00}".to_vec()
    );
}

#[test]
fn parse_inverts_format() {
    for (t, h) in [
        (2350, 4520),
        (0, 0),
        (-1, 1),
        (-9999, 99),
        (2147483647, -2147483648),
        (-2147483648, 2147483647),
    ] {
        let r = EnvironmentReading::new(t, h);
        let body = format_body(&r);
        assert_eq!(parse_reading(&body), Some(r), "round trip failed for {t} {h}");
    }
}

#[test]
fn parse_accepts_only_the_canonical_form() {
    assert_eq!(
        parse_reading(b"{\"temperature\":23.50,\"humidity\":45.20}"),
        Some(EnvironmentReading::new(2350, 4520))
    );
    // Leading zero.
    assert_eq!(parse_reading(b"{\"temperature\":023.50,\"humidity\":45.20}"), None);
    // One fraction digit.
    assert_eq!(parse_reading(b"{\"temperature\":23.5,\"humidity\":45.20}"), None);
    // Three fraction digits.
    assert_eq!(parse_reading(b"{\"temperature\":23.500,\"humidity\":45.20}"), None);
    // Negative zero.
    assert_eq!(parse_reading(b"{\"temperature\":-0.00,\"humidity\":45.20}"), None);
    // Missing key quote.
    assert_eq!(parse_reading(b"{temperature:23.50,\"humidity\":45.20}"), None);
    // Trailing bytes.
    assert_eq!(parse_reading(b"{\"temperature\":23.50,\"humidity\":45.20} "), None);
    // Truncated.
    assert_eq!(parse_reading(b"{\"temperature\":23.50,\"humidity\":"), None);
    // Empty.
    assert_eq!(parse_reading(b""), None);
}

#[test]
fn parse_rejects_out_of_range_values() {
    // One hundredth above the largest representable value.
    assert_eq!(parse_reading(b"{\"temperature\":21474836.48,\"humidity\":0.00}"), None);
    // One hundredth below the smallest.
    assert_eq!(parse_reading(b"{\"temperature\":-21474836.49,\"humidity\":0.00}"), None);
    // Far out of range on the humidity side.
    assert_eq!(parse_reading(b"{\"temperature\":0.00,\"humidity\":99999999999999999999.00}"), None);
    // The extremes themselves are accepted.
    assert_eq!(
        parse_reading(b"{\"temperature\":21474836.47,\"humidity\":-21474836.48}"),
        Some(EnvironmentReading::new(2147483647, -2147483648))
    );
}

#[test]
fn display_lines_use_two_decimals() {
    let r = EnvironmentReading::new(2350, 4520);
    assert_eq!(format_temperature_line(&r), b"23.50 C".to_vec());
    assert_eq!(format_humidity_line(&r), b"45.20 %".to_vec());
    let cold = EnvironmentReading::new(-125, 0);
    assert_eq!(format_temperature_line(&cold), b"-1.25 C".to_vec());
    assert_eq!(format_humidity_line(&cold), b"0.00 %".to_vec());
}

#[test]
fn collector_endpoint_is_fixed_at_build_time() {
    assert_eq!(server_ip_octets(), (192, 168, 100, 14));
    assert_eq!(SERVER_PORT, 8080);
}
