use mcproto::error::ProtocolError;
use mcproto::query::{handshake_request, parse_challenge, parse_full_stat, read_signed, read_unsigned, stat_request};

fn stat_answer(pairs: &[(&str, &str)], players: &[&str]) -> Vec<u8> {
    let mut v = vec![0u8; 16];
    for (k, val) in pairs {
        v.extend_from_slice(k.as_bytes());
        v.push(0);
        v.extend_from_slice(val.as_bytes());
        v.push(0);
    }
    v.extend_from_slice(b"\x00\x00\x01player_\x00\x00");
    for p in players {
        v.extend_from_slice(p.as_bytes());
        v.push(0);
    }
    v.push(0);
    v
}

#[test]
fn query_requests() {
    assert_eq!(handshake_request(), vec![0xFE, 0xFD, 0x09, 0, 0, 0, 2]);
    assert_eq!(stat_request(9513307), vec![0xFE, 0xFD, 0x00, 0, 0, 0, 2, 0x00, 0x91, 0x29, 0x5B, 0, 0, 0, 0]);
    assert_eq!(stat_request(-1)[7..11], [0xff, 0xff, 0xff, 0xff]);
}

#[test]
fn challenge_token_parsing() {
    let mut resp = vec![0x09, 0, 0, 0, 2];
    resp.extend_from_slice(b"9513307\0");
    assert_eq!(parse_challenge(&resp), Ok(9513307));
    let mut resp = vec![0x09, 0, 0, 0, 2];
    resp.extend_from_slice(b"-1234 x\0junk");
    assert_eq!(parse_challenge(&resp), Ok(-1234));
    assert_eq!(parse_challenge(&[0x09, 0, 0, 0, 2]), Err(ProtocolError::InvalidEncoding));
    assert_eq!(parse_challenge(&[0x08, 0, 0, 0, 2, b'1']), Err(ProtocolError::InvalidEncoding));
    assert_eq!(parse_challenge(&[0x09, 0, 0]), Err(ProtocolError::InvalidEncoding));
    let mut resp = vec![0x09, 0, 0, 0, 2];
    resp.extend_from_slice(b"99999999999\0");
    assert_eq!(parse_challenge(&resp), Err(ProtocolError::InvalidEncoding));
}

#[test]
fn decimal_parsing_matches_std() {
    for s in ["0", "42", "+7", "4294967295", "4294967296", "", "+", "1a", "-3"] {
        assert_eq!(read_unsigned(s.as_bytes(), u32::MAX as u64), s.parse::<u32>().ok().map(|v| v as u64), "{}", s);
    }
    for s in ["0", "-0", "2147483647", "-2147483648", "2147483648", "-2147483649", "-", "", "12-3"] {
        assert_eq!(read_signed(s.as_bytes()), s.parse::<i32>().ok(), "{}", s);
    }
}

#[test]
fn full_stat_parsing() {
    let data = stat_answer(
        &[
            ("hostname", "A Server"),
            ("GameType", "SMP"),
            ("map", "world"),
            ("numplayers", "2"),
            ("maxplayers", "20"),
            ("hostport", "25565"),
            ("hostip", "127.0.0.1"),
            ("plugins", "CraftBukkit: WorldEdit 5.3; Essentials ;"),
        ],
        &["alice", "bob"],
    );
    let q = parse_full_stat(&data).unwrap();
    assert_eq!(q.motd, "A Server");
    assert_eq!(q.game_type, "SMP");
    assert_eq!(q.map, "world");
    assert_eq!(q.online_players, 2);
    assert_eq!(q.max_players, 20);
    assert_eq!(q.host_ip, "127.0.0.1");
    assert_eq!(q.host_port, 25565);
    assert_eq!(q.plugins.as_deref(), Some("CraftBukkit: WorldEdit 5.3; Essentials ;"));
    assert_eq!(q.plugin_list, Some(vec!["WorldEdit 5.3".to_string(), "Essentials".to_string()]));
    assert_eq!(q.players, vec!["alice".to_string(), "bob".to_string()]);
}

#[test]
fn full_stat_defaults() {
    let data = stat_answer(&[("numplayers", "many"), ("plugins", "")], &[]);
    let q = parse_full_stat(&data).unwrap();
    assert_eq!(q.motd, "");
    assert_eq!(q.online_players, 0);
    assert_eq!(q.host_port, 0);
    assert_eq!(q.plugins, None);
    assert_eq!(q.plugin_list, None);
    assert!(q.players.is_empty());
}

#[test]
fn full_stat_errors() {
    assert!(matches!(parse_full_stat(&[0u8; 10]), Err(ProtocolError::UnexpectedEnd)));
    assert!(matches!(parse_full_stat(&[0u8; 40]), Err(ProtocolError::InvalidEncoding)));
}
