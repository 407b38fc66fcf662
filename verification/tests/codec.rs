//! Outbound encoding and re-encoding round trips.

use effectserver2_rs::client::{encode_message, LightParam};
use effectserver2_rs::parser::{Command, CommandParser};

#[test]
fn light_param_new_keeps_fields() {
    let p = LightParam::new(5, 10, 20, 30);
    assert_eq!(p.0, 5);
    assert_eq!(p.1, 10);
    assert_eq!(p.2, 20);
    assert_eq!(p.3, 30);
}

#[test]
fn encode_exact_bytes() {
    let data = encode_message(&[97, 98], &[LightParam::new(5, 1, 2, 3)]);
    assert_eq!(data, vec![1, 0, 97, 98, 0, 1, 5, 0, 1, 2, 3]);
}

#[test]
fn encode_no_lights_is_header_and_nick() {
    let data = encode_message(&[120], &[]);
    assert_eq!(data, vec![1, 0, 120, 0]);
}

fn rgb_tuples_of(parser: &CommandParser) -> Vec<(u8, u8, u8, u8)> {
    let mut out = vec![];
    for cmd in &parser.cmds {
        if let Command::RgbLight { id, red, green, blue, .. } = cmd {
            out.push((*id, *red, *green, *blue));
        }
    }
    out
}

#[test]
fn decode_then_encode_round_trips_rgb_values() {
    // A well-formed inbound message: a nick and three light frames.
    let inbound = vec![
        1, 0, 110, 105, 99, 107, 0, 1, 1, 0, 10, 20, 30, 1, 2, 0, 40, 50, 60, 1, 9, 0, 0, 255, 7,
    ];
    let mut parser = CommandParser::new();
    assert!(parser.read_from(&inbound).is_ok());
    let tuples = rgb_tuples_of(&parser);
    assert_eq!(tuples, vec![(1, 10, 20, 30), (2, 40, 50, 60), (9, 0, 255, 7)]);

    // Re-encode the extracted tuples under a fixed nick and decode again.
    let params: Vec<LightParam> = tuples
        .iter()
        .map(|t| LightParam::new(t.0, t.1, t.2, t.3))
        .collect();
    let reencoded = encode_message(&[114, 101], &params);
    let mut parser2 = CommandParser::new();
    assert!(parser2.read_from(&reencoded).is_ok());
    assert_eq!(rgb_tuples_of(&parser2), tuples);

    // Encoding is idempotent from here on: one more round trip changes
    // nothing.
    let reencoded2 = encode_message(&[114, 101], &params);
    assert_eq!(reencoded, reencoded2);
}
