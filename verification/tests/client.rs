use alvr_stream::battery::BatteryPoll;
use alvr_stream::hud::{set_hud_message, HudMessage};
use alvr_stream::negotiation::{read_session, NegotiatedConfig, NegotiationError};
use serde_json::Value;
use std::collections::HashMap;

#[test]
fn a_message_is_shown_below_the_client() {
    assert_eq!(
        set_hud_message("20.1.0", "1234.client", "10.0.0.7", "hello"),
        "ALVR v20.1.0\nhostname: 1234.client\nIP: 10.0.0.7\n\nhello"
    );
}

#[test]
fn the_words_of_the_messages() {
    assert_eq!(
        HudMessage::Initial.text(),
        "Searching for streamer...\nOpen ALVR on your PC then click \"Trust\"\nnext to the client entry"
    );
    assert_eq!(
        HudMessage::NetworkUnreachable.text(),
        "Cannot connect to the internet"
    );
    assert_eq!(
        HudMessage::ConnectionError("x".to_string()).text(),
        "Connection error:\nx\nCheck the PC for more details"
    );
}

#[test]
fn the_battery_is_looked_at_once_a_minute() {
    let mut poll = BatteryPoll::new(100);
    assert!(!poll.is_due(100));
    assert!(poll.is_due(101));
    poll.on_polled(false, true);
    assert_eq!(poll.deadline(), 60_000_000_100);
    assert!(!poll.is_due(60_000_000_100));
    assert!(poll.is_due(60_000_000_101));
}

#[test]
fn a_change_of_charge_is_reported_to_whoever_listens() {
    let mut poll = BatteryPoll::new(0);
    assert!(poll.on_polled(true, true));
    assert!(!poll.on_polled(true, false));
    assert!(!poll.on_polled(false, true));
    assert!(!poll.on_polled(false, false));
}

fn config(text: &str) -> NegotiatedConfig {
    match NegotiatedConfig::parse(text) {
        Ok((config, fields)) => {
            assert_eq!(config, NegotiatedConfig::from_fields(&fields));
            config
        }
        Err(NegotiationError::Malformed(error)) => panic!("{}", error),
    }
}

#[test]
fn what_was_agreed_on() {
    let text = r#"{
        "view_resolution": [1832, 1920],
        "refresh_rate_hint": 72.0,
        "game_audio_sample_rate": 48000
    }"#;
    let agreed = config(text);
    assert_eq!(agreed.view_resolution, (1832, 1920));
    assert_eq!(agreed.game_audio_sample_rate, 48000);
}

#[test]
fn what_is_taken_where_nothing_was_agreed_on() {
    for text in [
        "{}",
        r#"{"view_resolution": null, "game_audio_sample_rate": null}"#,
        r#"{"view_resolution": [1], "game_audio_sample_rate": -1}"#,
        r#"{"view_resolution": [1, 2, 3], "game_audio_sample_rate": 48000.5}"#,
        r#"{"view_resolution": [-1, 2], "game_audio_sample_rate": "48000"}"#,
        r#"{"view_resolution": {"x": 1, "y": 2}}"#,
    ] {
        let agreed = config(text);
        assert_eq!(agreed.view_resolution, (0, 0));
        assert_eq!(agreed.game_audio_sample_rate, 44100);
    }
}

#[test]
fn a_sample_rate_keeps_its_lower_half() {
    let agreed = config(r#"{"game_audio_sample_rate": 4294967297}"#);
    assert_eq!(agreed.game_audio_sample_rate, 1);
}

#[test]
fn the_fields_are_handed_back() {
    let (_, fields) = NegotiatedConfig::parse(r#"{"refresh_rate_hint": 90.0}"#).ok().unwrap();
    assert_eq!(fields.len(), 1);
    assert_eq!(fields.get("refresh_rate_hint").and_then(Value::as_f64), Some(90.0));
}

#[test]
fn an_agreement_is_an_object() {
    for text in ["", "[]", "3", "{", "{} x"] {
        assert!(matches!(
            NegotiatedConfig::parse(text),
            Err(NegotiationError::Malformed(_))
        ));
    }
}

#[test]
fn fields_are_read_by_name() {
    let mut fields = HashMap::new();
    fields.insert(
        "view_resolution".to_string(),
        Value::Array(vec![Value::from(7u32), Value::from(8u32)]),
    );
    fields.insert("game_audio_sample_rate".to_string(), Value::from(22050u32));
    let agreed = NegotiatedConfig::from_fields(&fields);
    assert_eq!(agreed.view_resolution, (7, 8));
    assert_eq!(agreed.game_audio_sample_rate, 22050);
}

#[test]
fn a_session_is_any_json() {
    let value = read_session(r#"{"a": [1, true]}"#).ok().unwrap();
    assert_eq!(value.get("a"), Some(&Value::Array(vec![Value::from(1u32), Value::Bool(true)])));
    assert_eq!(read_session("7").ok().unwrap(), Value::from(7u32));
    for text in ["", "{", "1e999"] {
        assert!(matches!(read_session(text), Err(NegotiationError::Malformed(_))));
    }
}
