//! Routing, state, dispatch and status broadcast tests.

use effectserver2_rs::client::{encode_message, LightParam};
use effectserver2_rs::config::{Host, Light, Mapping, Root, Server};
use effectserver2_rs::mapper::{Mapper, MapperError};
use effectserver2_rs::parser::ParserError;

fn make_server() -> Server {
    Server {
        udp_addr: "127.0.0.1:9909".to_string(),
        web_addr: "127.0.0.1:8080".to_string(),
        websocket_addr: "127.0.0.1:8081".to_string(),
    }
}

/// Two hosts: a DMX bus (index 0) and a relay (index 1).  Three lights:
/// an RGB light at bus address 0, a UV light at bus address 10, and an RGB
/// light forwarded through the relay.
fn make_root(with_sink: bool) -> Root {
    let path = if with_sink { Some("/dev/ttyUSB0".to_string()) } else { None };
    Root {
        server: make_server(),
        hosts: vec![
            ("dmx".to_string(), Host::Enttec { path }),
            ("relay".to_string(), Host::Proxy { addr: "127.0.0.1:9910".to_string() }),
        ],
        mapping: Mapping {
            lights: vec![
                (1, Light::Rgb { host: "dmx".to_string(), address: 0, name: None }),
                (
                    2,
                    Light::Uv {
                        host: "dmx".to_string(),
                        address: 10,
                        name: Some("blacklight".to_string()),
                    },
                ),
                (3, Light::Rgb { host: "relay".to_string(), address: 0, name: None }),
            ],
        },
    }
}

fn one_light_msg(id: u8, r: u8, g: u8, b: u8) -> Vec<u8> {
    encode_message(&[116, 122], &[LightParam::new(id, r, g, b)])
}

#[test]
fn construction_rejects_unknown_host() {
    let mut root = make_root(false);
    root.mapping.lights.push((
        9,
        Light::Rgb { host: "nosuch".to_string(), address: 0, name: None },
    ));
    match Mapper::from_config(&root) {
        Err(MapperError::UnknownHost(name)) => assert_eq!(name, "nosuch"),
        _ => panic!("expected an unknown-host construction error"),
    }
}

#[test]
fn construction_rejects_out_of_range_bus_address() {
    let mut root = make_root(false);
    root.mapping.lights.push((
        9,
        Light::Rgb { host: "dmx".to_string(), address: 508, name: None },
    ));
    assert!(matches!(Mapper::from_config(&root), Err(MapperError::InvalidAddress(9))));

    // 507 is the last address where five slots still fit.
    let mut root = make_root(false);
    root.mapping.lights.push((
        9,
        Light::Rgb { host: "dmx".to_string(), address: 507, name: None },
    ));
    assert!(Mapper::from_config(&root).is_ok());
}

#[test]
fn uv_addresses_fit_with_two_slots() {
    let mut root = make_root(false);
    root.mapping.lights.push((
        9,
        Light::Uv { host: "dmx".to_string(), address: 510, name: None },
    ));
    assert!(Mapper::from_config(&root).is_ok());

    let mut root = make_root(false);
    root.mapping.lights.push((
        9,
        Light::Uv { host: "dmx".to_string(), address: 511, name: None },
    ));
    assert!(matches!(Mapper::from_config(&root), Err(MapperError::InvalidAddress(9))));
}

#[test]
fn relay_lights_have_no_address_bound() {
    let mut root = make_root(false);
    root.mapping.lights.push((
        9,
        Light::Rgb { host: "relay".to_string(), address: 65535, name: None },
    ));
    assert!(Mapper::from_config(&root).is_ok());
}

#[test]
fn duplicate_light_ids_keep_the_last_declaration() {
    let mut root = make_root(false);
    root.mapping.lights.push((
        1,
        Light::Uv { host: "dmx".to_string(), address: 20, name: Some("late".to_string()) },
    ));
    let (mapper, _rx) = Mapper::from_config(&root).unwrap();
    assert_eq!(mapper.effects.len(), 3);
    assert_eq!(mapper.effects[0].id, 1);
    assert_eq!(mapper.effects[0].name, "late");
}

#[test]
fn check_config_matches_host_resolution() {
    let root = make_root(false);
    assert!(effectserver2_rs::config::check_config(&root));

    let mut root = make_root(false);
    root.mapping.lights.push((
        9,
        Light::Rgb { host: "nosuch".to_string(), address: 0, name: None },
    ));
    assert!(!effectserver2_rs::config::check_config(&root));

    let empty = Root {
        server: make_server(),
        hosts: vec![],
        mapping: Mapping { lights: vec![] },
    };
    assert!(effectserver2_rs::config::check_config(&empty));
}

#[test]
fn construction_primes_the_broadcast_with_the_zero_snapshot() {
    let (_mapper, receiver) = Mapper::from_config(&make_root(false)).unwrap();
    let status = receiver.borrow();
    assert_eq!(status.lights.len(), 3);
    for (i, expected_id) in [1u8, 2, 3].iter().enumerate() {
        assert_eq!(status.lights[i].id, *expected_id);
        assert_eq!(status.lights[i].r, 0);
        assert_eq!(status.lights[i].g, 0);
        assert_eq!(status.lights[i].b, 0);
        assert!(status.lights[i].tag.is_none());
        assert!(status.lights[i].ip.is_none());
    }
}

#[test]
fn light_names_come_from_config_or_default() {
    let (mapper, _rx) = Mapper::from_config(&make_root(false)).unwrap();
    assert_eq!(mapper.effects[0].name, "dmx-1");
    assert_eq!(mapper.effects[1].name, "blacklight");
    assert_eq!(mapper.effects[2].name, "relay-3");
}

#[test]
fn rgb_update_lands_in_status_with_tag_and_origin() {
    let (mut mapper, _rx) = Mapper::from_config(&make_root(false)).unwrap();
    let r = mapper.take_msg(&one_light_msg(1, 9, 8, 7), Some("10.0.0.1".to_string()));
    assert!(r.is_ok());
    let status = mapper.get_status_message();
    assert_eq!(status.lights[0].id, 1);
    assert_eq!(status.lights[0].r, 9);
    assert_eq!(status.lights[0].g, 8);
    assert_eq!(status.lights[0].b, 7);
    assert_eq!(status.lights[0].tag.as_deref(), Some("tz"));
    assert_eq!(status.lights[0].ip.as_deref(), Some("10.0.0.1"));
}

#[test]
fn nick_is_scoped_to_a_single_message() {
    let (mut mapper, _rx) = Mapper::from_config(&make_root(false)).unwrap();
    assert!(mapper.take_msg(&one_light_msg(1, 1, 1, 1), None).is_ok());
    assert_eq!(mapper.get_status_message().lights[0].tag.as_deref(), Some("tz"));
    // A message without any nick frame resets the tag for the lights it sets.
    assert!(mapper.take_msg(&[1, 1, 1, 0, 2, 2, 2], None).is_ok());
    assert!(mapper.get_status_message().lights[0].tag.is_none());
}

#[test]
fn uv_intensity_uses_the_fixed_weighting() {
    let (mut mapper, _rx) = Mapper::from_config(&make_root(false)).unwrap();

    assert!(mapper.take_msg(&one_light_msg(2, 255, 0, 0), None).is_ok());
    assert_eq!(mapper.get_status_message().lights[1].r, 51);

    assert!(mapper.take_msg(&one_light_msg(2, 0, 255, 0), None).is_ok());
    assert_eq!(mapper.get_status_message().lights[1].g, 178);

    assert!(mapper.take_msg(&one_light_msg(2, 0, 0, 255), None).is_ok());
    let s = mapper.get_status_message();
    // A UV light reports its intensity on all three channels.
    assert_eq!(s.lights[1].r, 25);
    assert_eq!(s.lights[1].g, 25);
    assert_eq!(s.lights[1].b, 25);
}

#[test]
fn unknown_id_is_skipped_without_error_or_dispatch() {
    let (mut mapper, _rx) = Mapper::from_config(&make_root(true)).unwrap();
    let before = mapper.get_status_message();
    let outs = mapper.take_msg(&one_light_msg(77, 1, 2, 3), None).unwrap();

    // No light's state moved.
    let after = mapper.get_status_message();
    assert_eq!(after.lights.len(), before.lights.len());
    for (a, b) in after.lights.iter().zip(before.lights.iter()) {
        assert_eq!(a.id, b.id);
        assert_eq!((a.r, a.g, a.b), (b.r, b.g, b.b));
        assert_eq!(a.tag, b.tag);
    }

    // The bus buffer stayed all zero and the relay forwarded no tuples.
    let frame = outs[0].as_ref().expect("bus flush");
    assert!(frame[4..516].iter().all(|b| *b == 0));
    let datagram = outs[1].as_ref().expect("relay flush");
    assert_eq!(datagram.len(), 13, "nick frame only, no light frames");
}

#[test]
fn status_stays_sorted_and_full_after_each_message() {
    let (mut mapper, rx) = Mapper::from_config(&make_root(false)).unwrap();
    for (id, level) in [(3u8, 30u8), (1, 10), (2, 20)] {
        assert!(mapper.take_msg(&one_light_msg(id, level, level, level), None).is_ok());
        let published = rx.borrow();
        assert_eq!(published.lights.len(), 3);
        for w in published.lights.windows(2) {
            assert!(w[0].id < w[1].id);
        }
    }
    let final_status = rx.borrow();
    assert_eq!(final_status.lights[0].r, 10);
    assert_eq!(final_status.lights[2].r, 30);
}

#[test]
fn bus_lights_at_disjoint_addresses_do_not_disturb_each_other() {
    let (mut mapper, _rx) = Mapper::from_config(&make_root(true)).unwrap();

    // Set the RGB light at bus address 0.
    let outs = mapper.take_msg(&one_light_msg(1, 9, 8, 7), None).unwrap();
    let frame = outs[0].as_ref().expect("bus flush");
    assert_eq!(&frame[0..4], &[0x7e, 6, 0, 2]);
    assert_eq!(*frame.last().unwrap(), 0xe7);
    assert_eq!(&frame[4..9], &[9, 8, 7, 255, 0]);
    assert_eq!(&frame[14..16], &[0, 0], "the UV light's slots are untouched");

    // Set the UV light at bus address 10: green 255 gives intensity 178.
    let outs = mapper.take_msg(&one_light_msg(2, 0, 255, 0), None).unwrap();
    let frame = outs[0].as_ref().expect("bus flush");
    assert_eq!(&frame[14..16], &[178, 0]);
    assert_eq!(&frame[4..9], &[9, 8, 7, 255, 0], "the RGB light's slots are untouched");
}

#[test]
fn dry_bus_flushes_to_nothing() {
    let (mut mapper, _rx) = Mapper::from_config(&make_root(false)).unwrap();
    let outs = mapper.take_msg(&one_light_msg(1, 1, 2, 3), None).unwrap();
    assert!(outs[0].is_none(), "no sink configured, flush is a no-op");
}

#[test]
fn relay_buffer_is_cleared_by_every_flush() {
    let (mut mapper, _rx) = Mapper::from_config(&make_root(false)).unwrap();

    // One message through the relay light: the datagram carries one tuple.
    // The library hands the datagram out; whether its transmission later
    // succeeds or fails is outside the flush, so the buffer clears either
    // way.
    let outs = mapper.take_msg(&one_light_msg(3, 5, 6, 7), None).unwrap();
    let datagram = outs[1].as_ref().expect("relay flush");
    assert_eq!(datagram.len(), 13 + 6);
    assert_eq!(&datagram[13..19], &[1, 3, 0, 5, 6, 7]);
    assert_eq!(&datagram[0..13], &[1, 0, 101, 115, 114, 115, 32, 112, 114, 111, 120, 121, 0]);

    // An empty message still flushes every host: the relay datagram now
    // carries no tuples, because the buffer was cleared by the last flush.
    let outs = mapper.take_msg(&[1], None).unwrap();
    let datagram = outs[1].as_ref().expect("relay flush");
    assert_eq!(datagram.len(), 13, "buffered tuples are gone");
}

#[test]
fn uv_lights_forwarded_through_a_relay_turn_gray() {
    let mut root = make_root(false);
    root.mapping.lights.push((
        4,
        Light::Uv { host: "relay".to_string(), address: 0, name: None },
    ));
    let (mut mapper, _rx) = Mapper::from_config(&root).unwrap();
    let outs = mapper.take_msg(&one_light_msg(4, 0, 255, 0), None).unwrap();
    let datagram = outs[1].as_ref().expect("relay flush");
    assert_eq!(&datagram[13..19], &[1, 4, 0, 178, 178, 178]);
}

#[test]
fn decode_error_rejects_the_whole_message_and_mutates_nothing() {
    let (mut mapper, _rx) = Mapper::from_config(&make_root(false)).unwrap();
    assert!(mapper.take_msg(&one_light_msg(1, 9, 9, 9), None).is_ok());

    let r = mapper.take_msg(&[2, 1, 1, 0, 1, 1, 1], None);
    assert!(matches!(
        r,
        Err(MapperError::ParserError(ParserError::InvalidProtocolVersion(2)))
    ));
    let status = mapper.get_status_message();
    assert_eq!(status.lights[0].r, 9, "the earlier state survives unchanged");

    // A message that truncates mid-frame is also rejected whole, even if
    // a valid frame preceded the break.
    let r = mapper.take_msg(&[1, 1, 1, 0, 3, 3, 3, 1, 2], None);
    assert!(matches!(r, Err(MapperError::ParserError(ParserError::Truncated))));
    assert_eq!(mapper.get_status_message().lights[0].r, 9);
}
