use tea_torrent::content::Content;
use tea_torrent::event::{ContentEvents, Event, HashCheck};
use tea_torrent::http::{get_lines, parse_lines};
use tea_torrent::peer::{format_peer_id, Peer, PeerStatus, RequestAction};
use tea_torrent::swarm::Swarm;
use tea_torrent::tf::{File, Info, InfoHash, TorrentFile};
use tea_torrent::tracker::{announce_url, parse_compact_peers, progress_totals};
use tea_torrent::wire::{
    big_endian_to_u32, encode_message, encode_piece_requests, parse_message, reply_peer_id,
    Handshake, PeerMessage, ProtocolError,
};
use sha1::{Digest, Sha1};
use std::cell::RefCell;

#[test]
fn big_endian_numbers() {
    assert_eq!(big_endian_to_u32(&[0, 0, 0, 0]), 0);
    assert_eq!(big_endian_to_u32(&[0, 0, 64, 0]), 16384);
    assert_eq!(big_endian_to_u32(&[1, 2, 3, 4]), 0x01020304);
    assert_eq!(big_endian_to_u32(&[255, 255, 255, 255]), u32::MAX);
}

#[test]
fn parse_each_message() {
    assert!(matches!(parse_message(&[]), Ok(PeerMessage::KeepAlive)));
    assert!(matches!(parse_message(&[0]), Ok(PeerMessage::Choke)));
    assert!(matches!(parse_message(&[1]), Ok(PeerMessage::Unchoke)));
    assert!(matches!(parse_message(&[2]), Ok(PeerMessage::Interested)));
    assert!(matches!(parse_message(&[3]), Ok(PeerMessage::NotInterested)));
    assert!(matches!(parse_message(&[4, 0, 0, 1, 2]), Ok(PeerMessage::Have(258))));
    match parse_message(&[5, 0xff, 0x80]) {
        Ok(PeerMessage::Bitfield(f)) => assert_eq!(f, vec![0xff, 0x80]),
        _ => panic!("bitfield"),
    }
    assert!(matches!(
        parse_message(&[6, 0, 0, 0, 1, 0, 0, 0x40, 0, 0, 0, 0x40, 0]),
        Ok(PeerMessage::Request(1, 16384, 16384))
    ));
    match parse_message(&[7, 0, 0, 0, 2, 0, 0, 0, 4, 9, 8, 7]) {
        Ok(PeerMessage::Piece(2, 4, b)) => assert_eq!(b, vec![9, 8, 7]),
        _ => panic!("piece"),
    }
    assert!(matches!(
        parse_message(&[8, 0, 0, 0, 1, 0, 0, 0, 2, 0, 0, 0, 3]),
        Ok(PeerMessage::Cancel(1, 2, 3))
    ));
    assert!(matches!(parse_message(&[9, 0x1a, 0xe1]), Ok(PeerMessage::Port(6881))));
}

#[test]
fn parse_errors() {
    assert!(matches!(parse_message(&[10]), Err(ProtocolError::UnknownId(10))));
    assert!(matches!(parse_message(&[0, 0]), Err(ProtocolError::BadLength)));
    assert!(matches!(parse_message(&[4, 0, 0]), Err(ProtocolError::BadLength)));
    assert!(matches!(parse_message(&[6, 0, 0, 0, 1]), Err(ProtocolError::BadLength)));
    assert!(matches!(parse_message(&[7, 0, 0, 0, 1, 0, 0, 0]), Err(ProtocolError::BadLength)));
    assert!(matches!(parse_message(&[9, 0, 0, 0, 0]), Err(ProtocolError::BadLength)));
}

#[test]
fn encode_then_parse() {
    let msgs = vec![
        PeerMessage::KeepAlive,
        PeerMessage::Unchoke,
        PeerMessage::Have(77),
        PeerMessage::Bitfield(vec![1, 2]),
        PeerMessage::Request(3, 16384, 4096),
        PeerMessage::Piece(1, 0, vec![5, 6, 7]),
        PeerMessage::Port(6881),
    ];
    for m in msgs {
        let bytes = encode_message(&m);
        let len = big_endian_to_u32(&[bytes[0], bytes[1], bytes[2], bytes[3]]) as usize;
        assert_eq!(len, bytes.len() - 4);
        let back = parse_message(&bytes[4..]).unwrap();
        assert_eq!(encode_message(&back), bytes);
    }
    assert_eq!(encode_message(&PeerMessage::KeepAlive), vec![0, 0, 0, 0]);
    assert_eq!(encode_message(&PeerMessage::Interested), vec![0, 0, 0, 1, 2]);
}

#[test]
fn request_burst_for_short_piece() {
    let bytes = encode_piece_requests(2, 7232);
    assert_eq!(bytes.len(), 4 * 17);
    let mut expected = vec![];
    for (begin, len) in [(0u32, 4096u32), (4096, 2048), (6144, 1024), (7168, 64)] {
        expected.extend_from_slice(&[0, 0, 0, 13, 6, 0, 0, 0, 2]);
        expected.extend_from_slice(&begin.to_be_bytes());
        expected.extend_from_slice(&len.to_be_bytes());
    }
    assert_eq!(bytes, expected);
}

#[test]
fn request_burst_for_whole_blocks() {
    let bytes = encode_piece_requests(0, 32768 + 3);
    // two whole blocks, then 2 and 1.
    assert_eq!(bytes.len(), 4 * 17);
    assert_eq!(&bytes[13..17], &16384u32.to_be_bytes());
    assert_eq!(&bytes[17 + 9..17 + 13], &16384u32.to_be_bytes());
    assert_eq!(&bytes[34 + 13..34 + 17], &2u32.to_be_bytes());
    assert_eq!(&bytes[51 + 9..51 + 13], &32770u32.to_be_bytes());
    assert_eq!(&bytes[51 + 13..51 + 17], &1u32.to_be_bytes());
    assert!(encode_piece_requests(0, 0).is_empty());
}

#[test]
fn handshake_layout() {
    let hash = [7u8; 20];
    let id = *b"-XX0001-123456789012";
    let h = Handshake::with_peer_id(&hash, &id);
    assert_eq!(h.raw.len(), 68);
    assert_eq!(h.raw[0], 19);
    assert_eq!(&h.raw[1..20], b"BitTorrent protocol");
    assert_eq!(&h.raw[20..28], &[0u8; 8]);
    assert_eq!(&h.raw[28..48], &hash);
    assert_eq!(&h.raw[48..68], &id);
    assert!(h.matches_reply(&h.raw));
    let mut other = h.raw.clone();
    other[30] = 0;
    assert!(!h.matches_reply(&other));
    assert!(!h.matches_reply(&h.raw[..67]));
    assert_eq!(reply_peer_id(&h.raw), id);
}

#[test]
fn fresh_handshake_has_client_id() {
    let h = Handshake::new(&[1u8; 20]);
    assert_eq!(&h.raw[48..56], b"-tT0030-");
    assert!(h.raw[56..68].iter().all(|d| (b'0'..=b'9').contains(d)));
}

fn peer(pieces: &[usize], n: usize) -> Peer {
    let mut p = Peer::new([0u8; 20], n);
    for i in pieces {
        p.add_piece_to_bitfield(*i as u32);
    }
    p
}

#[test]
fn peer_bitfield() {
    let mut p = Peer::new([0u8; 20], 2);
    assert!(!p.has_piece(0));
    p.add_piece_to_bitfield(9);
    assert!(p.has_piece(9));
    assert!(!p.has_piece(8));
    assert_eq!(p.bitfield, vec![0, 0b0100_0000]);
    p.add_piece_to_bitfield(16);
    assert_eq!(p.bitfield, vec![0, 0b0100_0000]);
    assert!(!p.has_piece(1000));
}

#[test]
fn peer_messages_change_state() {
    let mut p = Peer::new([0u8; 20], 1);
    p.busy = true;
    p.receive(&PeerMessage::Unchoke);
    assert!(!p.status.peer_choking && !p.busy);
    p.receive(&PeerMessage::Choke);
    assert!(p.status.peer_choking);
    p.receive(&PeerMessage::Interested);
    assert!(p.status.peer_interested);
    p.receive(&PeerMessage::NotInterested);
    assert!(!p.status.peer_interested);
    p.receive(&PeerMessage::Have(3));
    assert!(p.has_piece(3));
    p.receive(&PeerMessage::Bitfield(vec![0x80, 0x01]));
    assert_eq!(p.bitfield, vec![0x80, 0x01]);
    assert!(p.has_piece(0) && p.has_piece(15) && !p.has_piece(3));
    p.receive(&PeerMessage::Port(1));
    assert_eq!(p.bitfield, vec![0x80, 0x01]);
}

#[test]
fn request_waits_for_unchoke() {
    let mut p = Peer::new([0u8; 20], 1);
    match p.request(0, 100) {
        RequestAction::SendUnchokeInterested(b) => {
            assert_eq!(b, vec![0, 0, 0, 1, 1, 0, 0, 0, 1, 2])
        }
        _ => panic!("expected unchoke and interested"),
    }
    assert_eq!(
        p.status,
        PeerStatus { am_choking: false, am_interested: true, peer_choking: true, peer_interested: false }
    );
    assert!(p.busy);
    assert!(matches!(p.request(0, 100), RequestAction::WaitForUnchoke));
    p.receive(&PeerMessage::Unchoke);
    match p.request(5, 100) {
        RequestAction::SendRequests(b) => assert_eq!(b, encode_piece_requests(5, 100)),
        _ => panic!("expected requests"),
    }
    assert!(p.busy);
}

#[test]
fn client_names_and_ids() {
    let mut p = Peer::new(*b"-qB4250-abcdefghijkl", 1);
    assert_eq!(p.try_parse_client(), "qBittorrent");
    p.id = *b"-ZZ0000-abcdefghijkl";
    assert_eq!(p.try_parse_client(), "unknown client");
    p.id = *b"-UT3500-\x00\x01\x02\x03\x04\x05\x06\x07\x08\x09\xff\x0b";
    assert_eq!(p.id_string(), "-UT3500-:0.1.2.3.4.5.6.7.8.9.255.11");
    assert_eq!(p.try_parse_client(), "µTorrent");
    assert_eq!(format_peer_id("x", &[0u8; 20]), "x:0.0.0.0.0.0.0.0.0.0.0.0");
}

fn sha1(data: &[u8]) -> [u8; 20] {
    Sha1::digest(data).into()
}

/// Three pieces of one byte each: 0, 1 and 2.
fn tiny_store() -> Content {
    let mut hashes = vec![];
    for b in 0..3u8 {
        hashes.extend_from_slice(&sha1(&[b]));
    }
    let info = Info::from_fields(Some(3), String::from("t"), 1, hashes, Vec::<File>::new()).unwrap();
    let tf = TorrentFile {
        announce: String::new(),
        announce_list: None,
        info,
        info_hash: InfoHash::new(b"x"),
        creation_date: None,
        comment: None,
        created: None,
        encoding: None,
    };
    Content::new(&tf, String::from("/dl"))
}

#[test]
fn assignment_picks_first_missing_and_first_free_peer() {
    let mut store = tiny_store();
    let mut swarm = Swarm::new(vec![peer(&[1], 1), peer(&[0, 1], 1), peer(&[0], 1)]);
    assert_eq!(swarm.next_assignment(&store), Some((0, 1)));
    swarm.requested(&mut store, 0, 1);
    swarm.peers[1].busy = true;
    assert_eq!(swarm.next_assignment(&store), Some((1, 0)));
    swarm.requested(&mut store, 1, 0);
    swarm.peers[0].busy = true;
    // piece 2 is missing, but nobody has it.
    assert_eq!(swarm.next_assignment(&store), None);
    swarm.piece_done(1);
    assert!(!swarm.peers[1].busy);
    assert_eq!(swarm.in_flight[1], None);
}

#[test]
fn failed_peer_piece_goes_to_another() {
    let mut store = tiny_store();
    let mut swarm = Swarm::new(vec![peer(&[0], 1), peer(&[0], 1)]);
    assert_eq!(swarm.next_assignment(&store), Some((0, 0)));
    swarm.requested(&mut store, 0, 0);
    swarm.peers[0].busy = true;
    assert!(!store.pieces[0].is_missing_now());
    // piece 1 is missing too, but nobody has it.
    assert_eq!(swarm.next_assignment(&store), None);
    // the busy peer's connection is reset.
    swarm.peer_failed(&mut store, 0);
    assert_eq!(swarm.peers.len(), 1);
    assert!(store.pieces[0].is_missing_now());
    assert_eq!(swarm.next_assignment(&store), Some((0, 0)));
}

#[test]
fn http_lines() {
    let resp = b"HTTP/1.1 200 OK\r\nA: 1\r\nB: 2\r\n\r\nd5:peers0:e".to_vec();
    let lines = get_lines(&resp);
    assert_eq!(lines.len(), 5);
    assert_eq!(lines[0], b"HTTP/1.1 200 OK");
    assert_eq!(lines[3], b"");
    let (status, headers, body) = parse_lines(lines).unwrap();
    assert_eq!(status, 0);
    assert_eq!(headers, vec![String::from("A: 1"), String::from("B: 2")]);
    assert_eq!(body, b"d5:peers0:e".to_vec());
    let one = b"no line break".to_vec();
    assert_eq!(get_lines(&one), vec![&b"no line break"[..]]);
    let bad = b"S\r\n\xff\xfe\r\n\r\nbody".to_vec();
    assert!(parse_lines(get_lines(&bad)).is_none());
}

#[test]
fn compact_peers() {
    let bytes = [10, 0, 0, 1, 0x1a, 0xe1, 192, 168, 1, 2, 0, 80, 9];
    let peers = parse_compact_peers(&bytes);
    assert_eq!(peers, vec![([10, 0, 0, 1], 6881), ([192, 168, 1, 2], 80)]);
    assert!(parse_compact_peers(&[1, 2, 3]).is_empty());
}

#[test]
fn announce_urls() {
    let u = announce_url("http://t.example/a", "%AB", 16384, 7);
    assert_eq!(
        u,
        "http://t.example/a?info_hash=%AB&port=50658&uploaded=0&downloaded=16384&left=7&corrupt=0&key=CFA4D362&event=started&numwant=200&compact=1&no_peer_id=1"
    );
    let u = announce_url("http://t.example/a?k=1", "", 0, 0);
    assert!(u.starts_with("http://t.example/a?k=1&info_hash=&port=50658&uploaded=0&downloaded=0&left=0&"));
}

#[test]
fn progress_counts_bytes() {
    let mut store = tiny_store();
    assert_eq!(progress_totals(&store), (0, 3));
    assert_eq!(store.check_piece_hash(0, &[1u8]), Ok(false));
    assert_eq!(progress_totals(&store), (0, 3));
    assert_eq!(store.check_piece_hash(1, &[1u8]), Ok(true));
    assert_eq!(progress_totals(&store), (1, 2));
}

#[test]
fn events_reach_subscribers() {
    let seen = RefCell::new(vec![]);
    let mut e: Event<u32, Box<dyn Fn(u32) + '_>> = Event::new();
    e.subscribe(Box::new(|x: u32| seen.borrow_mut().push(x)));
    e.subscribe(Box::new(|x: u32| seen.borrow_mut().push(x + 100)));
    e.emit(5);
    assert_eq!(*seen.borrow(), vec![5, 105]);
    let mut ce: ContentEvents<Box<dyn Fn(u32)>, Box<dyn Fn(HashCheck)>> = ContentEvents::new();
    let got = std::rc::Rc::new(RefCell::new(None));
    let g = got.clone();
    ce.hash_checked.subscribe(Box::new(move |h: HashCheck| *g.borrow_mut() = Some(h)));
    ce.hash_checked.emit(HashCheck { available: 2, total: 3 });
    assert_eq!(*got.borrow(), Some(HashCheck { available: 2, total: 3 }));
}
