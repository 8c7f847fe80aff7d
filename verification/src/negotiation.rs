//! What the two ends of a connection agreed on, as the streamer writes it down in JSON.
//!
//! What is stated here of the `serde_json` crate is believed, not proved: each item says which
//! function of that crate it speaks of.
use serde_json::Value;
use std::collections::HashMap;
use vstd::prelude::*;

verus! {

/// `serde_json::Value`, seen only through [`value_as_u64`] and [`value_as_pair`].
#[verifier::external_type_specification]
#[verifier::external_body]
pub struct ExValue(serde_json::Value);

/// `serde_json::Error`, which is handed on as it is.
#[verifier::external_type_specification]
#[verifier::external_body]
pub struct ExJsonError(serde_json::Error);

/// What `serde_json::from_str` makes of a text, asked for an object: the values of the object by
/// their names. `None` where it fails.
pub uninterp spec fn json_fields(text: Seq<char>) -> Option<Map<Seq<char>, Value>>;

/// What `serde_json::from_str` makes of a text, asked for any value. `None` where it fails.
pub uninterp spec fn json_value(text: Seq<char>) -> Option<Value>;

/// What `serde_json::Value::as_u64` makes of a value.
pub uninterp spec fn value_as_u64(value: Value) -> Option<u64>;

/// What `serde_json::from_value` makes of a value that a pair of `u32` is asked of. `None` where
/// it fails.
pub uninterp spec fn value_as_pair(value: Value) -> Option<(u32, u32)>;

/// The values of a table by their names.
pub open spec fn by_name(fields: Map<String, Value>) -> Map<Seq<char>, Value> {
    Map::new(
        |name: Seq<char>| exists|key: String| #[trigger] fields.contains_key(key) && key@ == name,
        |name: Seq<char>|
            fields[choose|key: String| #[trigger] fields.contains_key(key) && key@ == name],
    )
}

/// `serde_json::from_str`, asked for an object: whether it fails, and what it gives back
/// otherwise, depends on the text alone.
#[verifier::external_body]
fn parse_fields(text: &str) -> (fields: Result<HashMap<String, Value>, serde_json::Error>)
    ensures
        json_fields(text@) == (match fields {
            Ok(fields) => Some(by_name(fields@)),
            Err(_) => None,
        }),
{
    serde_json::from_str(text)
}

/// `serde_json::from_str`, asked for any value: whether it fails, and what it gives back
/// otherwise, depends on the text alone.
#[verifier::external_body]
fn parse_value(text: &str) -> (value: Result<Value, serde_json::Error>)
    ensures
        json_value(text@) == (match value {
            Ok(value) => Some(value),
            Err(_) => None,
        }),
{
    serde_json::from_str(text)
}

/// `HashMap::get`: the value under a name, if there is one.
#[verifier::external_body]
fn field<'a>(fields: &'a HashMap<String, Value>, name: &str) -> (value: Option<&'a Value>)
    ensures
        match value {
            Some(value) => by_name(fields@).contains_key(name@) && by_name(fields@)[name@]
                == *value,
            None => !by_name(fields@).contains_key(name@),
        },
{
    fields.get(name)
}

/// `serde_json::Value::as_u64`: the value depends on its argument alone.
pub assume_specification[ serde_json::Value::as_u64 ](value: &Value) -> (number: Option<u64>)
    ensures
        number == value_as_u64(*value),
;

/// `serde_json::from_value`, asked for a pair of `u32`: whether it fails, and what it gives back
/// otherwise, depends on its argument alone.
#[verifier::external_body]
fn parse_pair(value: &Value) -> (pair: Result<(u32, u32), serde_json::Error>)
    ensures
        value_as_pair(*value) == (match pair {
            Ok(pair) => Some(pair),
            Err(_) => None,
        }),
{
    serde_json::from_value(value.clone())
}

/// What was agreed on.
#[derive(Clone, Copy, Debug, PartialEq, Eq)]
pub struct NegotiatedConfig {
    /// The width and the height of the picture for one eye.
    pub view_resolution: (u32, u32),
    pub game_audio_sample_rate: u32,
}

/// Why a text of the streamer could not be read.
pub enum NegotiationError {
    /// The text is not the JSON that it should be.
    Malformed(serde_json::Error),
}

/// Reads the settings that the streamer sends for a session.
pub fn read_session(text: &str) -> (value: Result<Value, NegotiationError>)
    ensures
        match value {
            Ok(value) => json_value(text@) == Some(value),
            Err(_) => json_value(text@) is None,
        },
{
    match parse_value(text) {
        Ok(value) => Ok(value),
        Err(error) => Err(NegotiationError::Malformed(error)),
    }
}

/// The resolution that was agreed on: nothing by nothing where there is none.
pub open spec fn view_resolution_of(fields: Map<Seq<char>, Value>) -> (u32, u32) {
    if fields.contains_key("view_resolution"@) {
        match value_as_pair(fields["view_resolution"@]) {
            Some(resolution) => resolution,
            None => (0, 0),
        }
    } else {
        (0, 0)
    }
}

/// The sample rate that was agreed on, of which the lower 32 bits count: 44100 where there is
/// none.
pub open spec fn game_audio_sample_rate_of(fields: Map<Seq<char>, Value>) -> u32 {
    if fields.contains_key("game_audio_sample_rate"@) {
        match value_as_u64(fields["game_audio_sample_rate"@]) {
            Some(rate) => (rate % 0x1_0000_0000) as u32,
            None => 44100,
        }
    } else {
        44100
    }
}

/// What was agreed on, by the fields of the agreement.
pub open spec fn config_of(fields: Map<Seq<char>, Value>) -> NegotiatedConfig {
    NegotiatedConfig {
        view_resolution: view_resolution_of(fields),
        game_audio_sample_rate: game_audio_sample_rate_of(fields),
    }
}

impl NegotiatedConfig {
    /// Reads the fields of an agreement.
    pub fn from_fields(fields: &HashMap<String, Value>) -> (config: Self)
        ensures
            config == config_of(by_name(fields@)),
    {
        let view_resolution = match field(fields, "view_resolution") {
            Some(value) => match parse_pair(value) {
                Ok(resolution) => resolution,
                Err(_) => (0, 0),
            },
            None => (0, 0),
        };
        let game_audio_sample_rate: u64 = match field(fields, "game_audio_sample_rate") {
            Some(value) => match value.as_u64() {
                Some(rate) => rate,
                None => 44100,
            },
            None => 44100,
        };
        assert(game_audio_sample_rate as u32 == game_audio_sample_rate % 0x1_0000_0000)
            by (bit_vector);
        NegotiatedConfig {
            view_resolution,
            game_audio_sample_rate: game_audio_sample_rate as u32,
        }
    }

    /// Reads the text of an agreement. The fields are handed back with what was read of them.
    pub fn parse(text: &str) -> (config: Result<
        (NegotiatedConfig, HashMap<String, Value>),
        NegotiationError,
    >)
        ensures
            match config {
                Ok((config, fields)) => json_fields(text@) == Some(by_name(fields@)) && config
                    == config_of(by_name(fields@)),
                Err(_) => json_fields(text@) is None,
            },
    {
        match parse_fields(text) {
            Ok(fields) => {
                let config = NegotiatedConfig::from_fields(&fields);
                Ok((config, fields))
            },
            Err(error) => Err(NegotiationError::Malformed(error)),
        }
    }
}

/// What is read of an agreement is what its fields say. A sample rate that fits in 32 bits is
/// read as it is, a greater one differs from what is read by a multiple of their range, and a
/// resolution is read as it is. Where a field is not there or says something else, the default
/// is taken, and the one field does not matter for the other.
pub proof fn law_fields_are_read_as_they_are(fields: Map<Seq<char>, Value>)
    ensures
        ({
            let rate_name = "game_audio_sample_rate"@;
            let rate = config_of(fields).game_audio_sample_rate;
            if fields.contains_key(rate_name) && value_as_u64(fields[rate_name]) is Some {
                let number = value_as_u64(fields[rate_name])->0;
                &&& number <= u32::MAX ==> rate == number
                &&& (number - rate) % 0x1_0000_0000 == 0
            } else {
                rate == 44100
            }
        }),
        ({
            let resolution_name = "view_resolution"@;
            let resolution = config_of(fields).view_resolution;
            if fields.contains_key(resolution_name) && value_as_pair(fields[resolution_name])
                is Some {
                resolution == value_as_pair(fields[resolution_name])->0
            } else {
                resolution.0 == 0 && resolution.1 == 0
            }
        }),
{
}

} // verus!
