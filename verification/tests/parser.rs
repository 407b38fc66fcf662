//! Wire-format decoding tests.

use effectserver2_rs::parser::{Command, CommandParser, ParserError};

fn decode(bytes: &[u8]) -> (CommandParser, Result<(), ParserError>) {
    let mut parser = CommandParser::new();
    let r = parser.read_from(bytes);
    (parser, r)
}

#[test]
fn nick_frame_decodes() {
    let (parser, r) = decode(&[1, 0, 97, 98, 0]);
    assert!(r.is_ok());
    assert_eq!(parser.cmds.len(), 1);
    match &parser.cmds[0] {
        Command::Nick { nick } => assert_eq!(nick, "ab"),
        _ => panic!("expected a nick command"),
    }
}

#[test]
fn rgb_frame_decodes() {
    let (parser, r) = decode(&[1, 1, 5, 0, 10, 20, 30]);
    assert!(r.is_ok());
    assert_eq!(parser.cmds.len(), 1);
    match &parser.cmds[0] {
        Command::RgbLight { id, light_type, red, green, blue } => {
            assert_eq!(*id, 5);
            assert_eq!(*light_type, 0);
            assert_eq!(*red, 10);
            assert_eq!(*green, 20);
            assert_eq!(*blue, 30);
        },
        _ => panic!("expected a light command"),
    }
}

#[test]
fn truncated_rgb_frame_is_fatal() {
    let (parser, r) = decode(&[1, 1, 5, 0, 10, 20]);
    assert_eq!(r, Err(ParserError::Truncated));
    assert_eq!(parser.cmds.len(), 0);
}

#[test]
fn bad_version_is_fatal_regardless_of_rest() {
    let (_, r) = decode(&[2]);
    assert_eq!(r, Err(ParserError::InvalidProtocolVersion(2)));
    let (_, r) = decode(&[2, 1, 5, 0, 10, 20, 30]);
    assert_eq!(r, Err(ParserError::InvalidProtocolVersion(2)));
    let (_, r) = decode(&[2, 0, 97, 0]);
    assert_eq!(r, Err(ParserError::InvalidProtocolVersion(2)));
    let (_, r) = decode(&[0]);
    assert_eq!(r, Err(ParserError::InvalidProtocolVersion(0)));
}

#[test]
fn empty_buffer_is_truncated() {
    let (parser, r) = decode(&[]);
    assert_eq!(r, Err(ParserError::Truncated));
    assert_eq!(parser.cmds.len(), 0);
}

#[test]
fn version_only_is_an_empty_message() {
    let (parser, r) = decode(&[1]);
    assert!(r.is_ok());
    assert_eq!(parser.cmds.len(), 0);
}

#[test]
fn unknown_tag_is_fatal() {
    let (parser, r) = decode(&[1, 9, 1, 2, 3]);
    assert_eq!(r, Err(ParserError::UnknownCommand(9)));
    assert_eq!(parser.cmds.len(), 0);
}

#[test]
fn nonzero_light_type_is_fatal() {
    let (parser, r) = decode(&[1, 1, 5, 7, 1, 2, 3]);
    assert_eq!(r, Err(ParserError::UnsupportedLightType(7)));
    assert_eq!(parser.cmds.len(), 0);
}

#[test]
fn unterminated_nick_is_truncated() {
    let (parser, r) = decode(&[1, 0, 65, 66]);
    assert_eq!(r, Err(ParserError::Truncated));
    assert_eq!(parser.cmds.len(), 0);
}

#[test]
fn frames_before_an_error_remain() {
    let (parser, r) = decode(&[1, 1, 5, 0, 1, 2, 3, 9]);
    assert_eq!(r, Err(ParserError::UnknownCommand(9)));
    assert_eq!(parser.cmds.len(), 1);
    assert!(matches!(parser.cmds[0], Command::RgbLight { id: 5, .. }));
}

#[test]
fn empty_nick_decodes() {
    let (parser, r) = decode(&[1, 0, 0]);
    assert!(r.is_ok());
    match &parser.cmds[0] {
        Command::Nick { nick } => assert_eq!(nick, ""),
        _ => panic!("expected a nick command"),
    }
}

#[test]
fn invalid_utf8_nick_is_replaced_not_rejected() {
    let (parser, r) = decode(&[1, 0, 0xff, 0]);
    assert!(r.is_ok());
    match &parser.cmds[0] {
        Command::Nick { nick } => assert_eq!(nick, "\u{FFFD}"),
        _ => panic!("expected a nick command"),
    }
}

#[test]
fn mixed_frames_decode_in_order() {
    let (parser, r) = decode(&[1, 0, 120, 0, 1, 7, 0, 9, 8, 7, 1, 3, 0, 1, 1, 1]);
    assert!(r.is_ok());
    assert_eq!(parser.cmds.len(), 3);
    assert!(matches!(&parser.cmds[0], Command::Nick { nick } if nick == "x"));
    assert!(matches!(parser.cmds[1], Command::RgbLight { id: 7, red: 9, green: 8, blue: 7, .. }));
    assert!(matches!(parser.cmds[2], Command::RgbLight { id: 3, .. }));
}

#[test]
fn reparse_replaces_previous_commands() {
    let mut parser = CommandParser::new();
    assert!(parser.read_from(&[1, 1, 5, 0, 1, 2, 3]).is_ok());
    assert_eq!(parser.cmds.len(), 1);
    assert!(parser.read_from(&[1]).is_ok());
    assert_eq!(parser.cmds.len(), 0);
}
