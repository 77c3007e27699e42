use cipher::{KeyIvInit, StreamCipher};
use tg_unblock::relay::{
    continues_after_send, opening_message, relay_step, relay_step_while, RelayAction, RelayEvent,
};
use tg_unblock::socks5::{
    choose_tunnel_dc, direct_target, on_greeting, on_init, on_request, parse_dest, DestError, Outcome,
    Phase, SessionError,
};
use tg_unblock::telegram::{dc_from_decrypted, extract_dc_from_init};

/// An init packet whose decryption names `dc_id` (little-endian i32 at 60..64).
fn init_packet_for(dc_id: i32) -> [u8; 64] {
    let mut init = [0u8; 64];
    for (i, b) in init.iter_mut().enumerate() {
        *b = (i as u8).wrapping_mul(37).wrapping_add(11);
    }
    let mut keystream = [0u8; 64];
    let mut c = ctr::Ctr128BE::<aes::Aes256>::new(init[8..40].into(), init[40..56].into());
    c.apply_keystream(&mut keystream);
    let want = dc_id.to_le_bytes();
    for k in 0..4 {
        init[60 + k] = want[k] ^ keystream[60 + k];
    }
    init
}

#[test]
fn dc_from_decrypted_reads_the_magnitude() {
    let mut dec = [0u8; 64];
    dec[60..64].copy_from_slice(&2i32.to_le_bytes());
    assert_eq!(dc_from_decrypted(&dec), Some(2));
    dec[60..64].copy_from_slice(&(-4i32).to_le_bytes());
    assert_eq!(dc_from_decrypted(&dec), Some(4));
    dec[60..64].copy_from_slice(&257i32.to_le_bytes());
    assert_eq!(dc_from_decrypted(&dec), Some(1));
    dec[60..64].copy_from_slice(&6i32.to_le_bytes());
    assert_eq!(dc_from_decrypted(&dec), None);
    dec[60..64].copy_from_slice(&0i32.to_le_bytes());
    assert_eq!(dc_from_decrypted(&dec), None);
    dec[60..64].copy_from_slice(&i32::MIN.to_le_bytes());
    assert_eq!(dc_from_decrypted(&dec), None);
    dec[60..64].copy_from_slice(&(-10003i32).to_le_bytes());
    assert_eq!(dc_from_decrypted(&dec), None);
}

#[test]
fn extract_dc_from_init_decrypts_the_packet() {
    assert_eq!(extract_dc_from_init(&init_packet_for(3)), Some(3));
    assert_eq!(extract_dc_from_init(&init_packet_for(-5)), Some(5));
    assert_eq!(extract_dc_from_init(&init_packet_for(9)), None);
    // The packet as sent is not the packet decrypted.
    let p = init_packet_for(1);
    assert_ne!(dc_from_decrypted(&p), extract_dc_from_init(&p));
}

#[test]
fn parse_dest_reads_each_address_type() {
    assert_eq!(parse_dest(&[1, 149, 154, 167, 51, 1, 187]).unwrap(), ("149.154.167.51".to_string(), 443));
    assert_eq!(parse_dest(&[3, 5, b'h', b'e', b'l', b'l', b'o', 0, 80]).unwrap(), ("hello".to_string(), 80));
    let mut v6 = vec![4u8, 0x20, 0x01, 0x0d, 0xb8];
    v6.extend_from_slice(&[0; 10]);
    v6.extend_from_slice(&[0, 1, 0x1f, 0x90]);
    assert_eq!(parse_dest(&v6).unwrap(), ("2001:db8::1".to_string(), 8080));
}

#[test]
fn parse_dest_reports_errors() {
    assert_eq!(parse_dest(&[1, 1, 2, 3]), Err(DestError::Short));
    assert_eq!(parse_dest(&[3, 5, b'a', b'b']), Err(DestError::Short));
    assert_eq!(parse_dest(&[3, 1, 0xff, 0, 80]), Err(DestError::InvalidUtf8));
    assert_eq!(parse_dest(&[4, 0, 0]), Err(DestError::Short));
    assert_eq!(parse_dest(&[2, 0, 0, 0]), Err(DestError::UnknownAddrType));
}

#[test]
fn greeting_is_answered_or_refused() {
    let s = on_greeting(&[5, 1, 0]);
    assert_eq!(s.reply, Some(vec![5, 0]));
    assert!(matches!(s.outcome, Outcome::Continue(Phase::Request)));
    let s = on_greeting(&[4, 1]);
    assert_eq!(s.reply, None);
    assert!(matches!(s.outcome, Outcome::Fail(SessionError::NotSocks5)));
    let s = on_greeting(&[5]);
    assert!(matches!(s.outcome, Outcome::Fail(SessionError::NotSocks5)));
}

#[test]
fn request_routes_telegram_through_the_tunnel() {
    let s = on_request(&[5, 1, 0, 1, 149, 154, 167, 51, 1, 187]);
    assert_eq!(s.reply, Some(vec![5, 0, 0, 1, 127, 0, 0, 1, 4, 0x38]));
    match s.outcome {
        Outcome::Continue(Phase::Init { dest }) => assert_eq!(dest, "149.154.167.51"),
        _ => panic!("expected to wait for the init packet"),
    }
}

#[test]
fn request_routes_others_directly() {
    let s = on_request(&[5, 1, 0, 1, 8, 8, 8, 8, 0, 53]);
    assert_eq!(s.reply, Some(vec![5, 0, 0, 1, 127, 0, 0, 1, 4, 0x38]));
    match s.outcome {
        Outcome::Direct { target } => assert_eq!(target, "8.8.8.8:53"),
        _ => panic!("expected a direct connection"),
    }
    let s = on_request(&[5, 1, 0, 3, 3, b'a', b'.', b'b', 1, 0]);
    match s.outcome {
        Outcome::Direct { target } => assert_eq!(target, "a.b:256"),
        _ => panic!("expected a direct connection"),
    }
}

#[test]
fn ipv6_requests_go_direct() {
    let mut m = vec![5u8, 1, 0, 4];
    m.extend_from_slice(&[0x20, 0x01, 0x06, 0x7c, 0x04, 0xe8, 0xf0, 0x04, 0, 0, 0, 0, 0, 0, 0, 0x0a]);
    m.extend_from_slice(&[1, 187]);
    let s = on_request(&m);
    assert_eq!(s.reply, Some(vec![5, 0, 0, 1, 127, 0, 0, 1, 4, 0x38]));
    match s.outcome {
        Outcome::Direct { target } => assert_eq!(target, "2001:67c:4e8:f004::a:443"),
        _ => panic!("IPv6 destinations are not tunnelled"),
    }
}

#[test]
fn request_refusals() {
    let s = on_request(&[5, 2, 0, 1, 1, 2, 3, 4, 0, 80]);
    assert_eq!(s.reply, Some(vec![5, 7, 0, 1, 0, 0, 0, 0, 0, 0]));
    assert!(matches!(s.outcome, Outcome::Fail(SessionError::BadConnect)));
    let s = on_request(&[5, 1, 0, 1]);
    assert!(matches!(s.outcome, Outcome::Fail(SessionError::BadConnect)));
    let s = on_request(&[5, 1, 0, 9, 0, 0, 0]);
    assert_eq!(s.reply, None);
    assert!(matches!(s.outcome, Outcome::Fail(SessionError::Dest(DestError::UnknownAddrType))));
    let s = on_request(&[5, 1, 0, 1, 1, 2, 3]);
    assert!(matches!(s.outcome, Outcome::Fail(SessionError::Dest(DestError::Short))));
}

#[test]
fn destination_picks_the_tunnel_dc() {
    let s = on_init(&init_packet_for(4), "149.154.167.51");
    assert_eq!(s.reply, None);
    assert!(matches!(s.outcome, Outcome::Tunnel { dc: 2 }));
    let s = on_init(&init_packet_for(77), "91.108.56.100");
    assert!(matches!(s.outcome, Outcome::Tunnel { dc: 5 }));
    let s = on_init(&init_packet_for(4), "example.org");
    assert!(matches!(s.outcome, Outcome::Tunnel { dc: 4 }));
    let s = on_init(&init_packet_for(77), "example.org");
    assert!(matches!(s.outcome, Outcome::Tunnel { dc: 2 }));
    assert_eq!(choose_tunnel_dc(None, "example.org"), 2);
    assert_eq!(choose_tunnel_dc(Some(3), "91.108.56.100"), 5);
    assert_eq!(choose_tunnel_dc(Some(1), "149.154.167.51"), 2);
    assert_eq!(choose_tunnel_dc(Some(3), "::1"), 3);
}

#[test]
fn direct_target_joins_host_and_port() {
    assert_eq!(direct_target("example.org", 443), "example.org:443");
    assert_eq!(direct_target("::1", 0), "::1:0");
}

#[test]
fn relay_moves_data_and_answers_pings() {
    match relay_step(RelayEvent::WsBinary(vec![1, 2, 3])) {
        RelayAction::WriteTcp(d) => assert_eq!(d, vec![1, 2, 3]),
        _ => panic!("binary data goes to the client"),
    }
    match relay_step(RelayEvent::TcpData(vec![9, 8])) {
        RelayAction::SendBinary(d) => assert_eq!(d, vec![9, 8]),
        _ => panic!("client data goes to the WebSocket"),
    }
    match relay_step(RelayEvent::WsPing(vec![7])) {
        RelayAction::SendPong(p) => assert_eq!(p, vec![7]),
        _ => panic!("pings are answered"),
    }
    assert!(matches!(relay_step(RelayEvent::WsOther), RelayAction::Ignore));
    assert!(matches!(relay_step(RelayEvent::WsClosed), RelayAction::Stop));
    assert!(matches!(relay_step(RelayEvent::TcpClosed), RelayAction::Stop));
    assert!(matches!(relay_step(RelayEvent::Tick), RelayAction::Ignore));
}

#[test]
fn stopped_proxy_ends_every_tunnel() {
    assert!(matches!(relay_step_while(false, RelayEvent::Tick), RelayAction::Stop));
    assert!(matches!(relay_step_while(false, RelayEvent::TcpData(vec![1])), RelayAction::Stop));
    assert!(matches!(relay_step_while(false, RelayEvent::WsPing(vec![1])), RelayAction::Stop));
    assert!(matches!(relay_step_while(true, RelayEvent::Tick), RelayAction::Ignore));
    match relay_step_while(true, RelayEvent::WsBinary(vec![4, 5])) {
        RelayAction::WriteTcp(d) => assert_eq!(d, vec![4, 5]),
        _ => panic!("a running tunnel carries data"),
    }
}

#[test]
fn relay_stops_on_failed_data_but_not_on_failed_pong() {
    assert!(!continues_after_send(&RelayAction::WriteTcp(vec![1]), false));
    assert!(continues_after_send(&RelayAction::WriteTcp(vec![1]), true));
    assert!(!continues_after_send(&RelayAction::SendBinary(vec![1]), false));
    assert!(continues_after_send(&RelayAction::SendPong(vec![1]), false));
    assert!(!continues_after_send(&RelayAction::Stop, true));
    let init = init_packet_for(2);
    assert_eq!(opening_message(&init), init.to_vec());
}
