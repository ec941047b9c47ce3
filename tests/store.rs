use sha1::{Digest, Sha1};
use tea_torrent::blocks::block_count_goal;
use tea_torrent::content::{BlockError, BlockOutcome, Content, Piece};
use tea_torrent::tf::{File, Info, InfoError, InfoHash, TorrentFile};

fn sha1(data: &[u8]) -> [u8; 20] {
    Sha1::digest(data).into()
}

fn torrent(length: Option<usize>, piece_length: u32, pieces: Vec<u8>, files: Vec<File>) -> TorrentFile {
    let info = Info::from_fields(length, String::from("t"), piece_length, pieces, files).unwrap();
    TorrentFile {
        announce: String::from("http://tracker.example/announce"),
        announce_list: None,
        info,
        info_hash: InfoHash::new(b"d4:name1:te"),
        creation_date: None,
        comment: None,
        created: None,
        encoding: None,
    }
}

fn file(path: &str, length: usize) -> File {
    File { length, path: String::from(path) }
}

fn table(lens: &[usize]) -> Vec<(String, usize)> {
    lens.iter().enumerate().map(|(i, l)| (format!("f{}", i), *l)).collect()
}

#[test]
fn single_file_exact_multiple() {
    let tf = torrent(Some(32768), 16384, vec![0u8; 40], vec![]);
    assert_eq!(tf.info.piece_count, 2);
    assert_eq!(tf.info.get_last_piece_size(), 16384);
    let c = Content::new(&tf, String::from("/dl"));
    assert_eq!(c.pieces.len(), 2);
    for p in &c.pieces {
        assert_eq!(p.size(), 16384);
    }
    assert_eq!(block_count_goal(16384), 1);
    assert_eq!(c.files, vec![(String::from("/dl/t"), 32768)]);
}

#[test]
fn trailing_short_piece() {
    let tf = torrent(Some(40000), 16384, vec![0u8; 60], vec![]);
    assert_eq!(tf.info.piece_count, 3);
    assert_eq!(tf.info.get_last_piece_size(), 7232);
    let c = Content::new(&tf, String::from("/dl"));
    assert_eq!(c.pieces[2].size(), 7232);
    // 7232 = 4096 + 2048 + 1024 + 64: four one bits, no whole block.
    assert_eq!(block_count_goal(7232), 4);
    assert_eq!(block_count_goal(16384 + 7232), 5);
    assert_eq!(block_count_goal(0), 0);
}

#[test]
fn multi_file_paths_under_torrent_name() {
    let tf = torrent(None, 4, vec![0u8; 60], vec![file("a/x", 5), file("y", 5)]);
    assert_eq!(tf.info.length, 10);
    assert_eq!(tf.info.piece_count, 3);
    let c = Content::new(&tf, String::from("/dl"));
    assert_eq!(c.files, vec![(String::from("/dl/t/a/x"), 5), (String::from("/dl/t/y"), 5)]);
}

#[test]
fn info_from_fields_errors() {
    let e = |l: Option<usize>, pl: u32, pieces: usize, files: Vec<File>| {
        Info::from_fields(l, String::from("n"), pl, vec![0u8; pieces], files).err()
    };
    assert_eq!(e(None, 4, 20, vec![]), Some(InfoError::MissingLength));
    assert_eq!(e(Some(0), 4, 0, vec![]), Some(InfoError::EmptyContent));
    assert_eq!(e(Some(8), 0, 20, vec![]), Some(InfoError::ZeroPieceLength));
    assert_eq!(e(Some(8), 4, 20, vec![]), Some(InfoError::PieceHashCount));
    assert_eq!(e(Some(9), 4, 40, vec![file("a", 4)]), Some(InfoError::PieceHashCount));
    assert_eq!(e(Some(8), 4, 40, vec![file("a", 3)]), Some(InfoError::LengthMismatch));
    assert_eq!(e(None, 1, 0, vec![file("a", usize::MAX), file("b", 1)]), Some(InfoError::LengthOverflow));
    assert!(e(Some(8), 4, 40, vec![]).is_none());
}

#[test]
fn piece_hash_slices() {
    let mut pieces = vec![0u8; 40];
    pieces[20] = 7;
    pieces[39] = 9;
    let tf = torrent(Some(8), 4, pieces, vec![]);
    let h = tf.info.get_piece_hash(1);
    assert_eq!(h.len(), 20);
    assert_eq!(h[0], 7);
    assert_eq!(h[19], 9);
    assert_eq!(tf.info.get_piece_hash(0), &[0u8; 20][..]);
}

#[test]
fn layout_single_file() {
    let files = table(&[100]);
    let (off, segs) = Content::get_piece_files(2, &files, 16, 100);
    assert_eq!(off, 32);
    assert_eq!(segs, files);
    let (off, segs) = Content::get_piece_files(6, &files, 16, 100);
    assert_eq!(off, 96);
    assert_eq!(segs.len(), 1);
}

#[test]
fn layout_many_small_files() {
    // files of 3 bytes each, pieces of 8: piece 1 covers bytes 8..16.
    let files = table(&[3, 3, 3, 3, 3, 3]);
    let (off, segs) = Content::get_piece_files(1, &files, 8, 18);
    assert_eq!(off, 2);
    assert_eq!(segs, files[2..6].to_vec());
    // the last piece, 16..18, lies in the last file.
    let (off, segs) = Content::get_piece_files(2, &files, 8, 18);
    assert_eq!(off, 1);
    assert_eq!(segs, files[5..6].to_vec());
}

#[test]
fn layout_boundary_on_piece_boundary() {
    // the first file ends exactly where piece 1 starts.
    let files = table(&[8, 8]);
    let (off, segs) = Content::get_piece_files(0, &files, 8, 16);
    assert_eq!(off, 0);
    assert_eq!(segs, files[0..1].to_vec());
    let (off, segs) = Content::get_piece_files(1, &files, 8, 16);
    // the first file's end reaches the piece's start: an empty segment at its end.
    assert_eq!(off, 8);
    assert_eq!(segs, files.clone());
}

#[test]
fn segments_cover_the_piece() {
    let files = table(&[3, 3, 3, 3, 3, 3]);
    let (off, segs) = Content::get_piece_files(1, &files, 8, 18);
    let p = Piece::new(1, 8, off, segs, [0u8; 20]);
    let s = p.segments();
    let lens: Vec<usize> = s.iter().map(|x| x.length).collect();
    assert_eq!(lens, vec![1, 3, 3, 1]);
    assert_eq!(lens.iter().sum::<usize>(), 8);
    let offs: Vec<usize> = s.iter().map(|x| x.file_offset).collect();
    assert_eq!(offs, vec![2, 0, 0, 0]);
    assert_eq!(s[0].path, "f2");
}

fn one_piece(data: &[u8], hash: [u8; 20]) -> Piece {
    Piece::new(0, data.len() as u32, 0, vec![(String::from("f"), data.len())], hash)
}

#[test]
fn blocks_assemble_and_verify() {
    let data: Vec<u8> = (0..7232u32).map(|i| (i % 251) as u8).collect();
    let mut p = one_piece(&data, sha1(&data));
    // blocks of 4096, 2048, 1024 and 64 bytes, in a shuffled order.
    assert!(matches!(p.add_block(7168, &data[7168..]), Ok(BlockOutcome::Pending)));
    assert!(matches!(p.add_block(0, &data[..4096]), Ok(BlockOutcome::Pending)));
    assert!(matches!(p.add_block(6144, &data[6144..7168]), Ok(BlockOutcome::Pending)));
    match p.add_block(4096, &data[4096..6144]) {
        Ok(BlockOutcome::Verified(bytes)) => assert_eq!(bytes, data),
        _ => panic!("piece not verified"),
    }
    assert!(p.is_available_now());
    assert_eq!(p.add_block(0, &data[..4]).err(), Some(BlockError::AlreadyAvailable));
}

#[test]
fn corrupt_piece_is_missing_again() {
    let data = vec![1u8; 16384];
    let mut p = one_piece(&data, sha1(b"something else"));
    p.make_awaiting();
    assert!(!p.is_missing_now());
    match p.add_block(0, &data) {
        Ok(BlockOutcome::Corrupt) => {}
        _ => panic!("corrupt piece accepted"),
    }
    assert!(p.is_missing_now());
    // it can be asked for again from scratch.
    assert!(matches!(p.add_block(0, &data), Ok(BlockOutcome::Corrupt)));
}

#[test]
fn block_past_end_is_refused() {
    let data = vec![0u8; 100];
    let mut p = one_piece(&data, sha1(&data));
    assert_eq!(p.add_block(90, &[0u8; 11]).err(), Some(BlockError::OutOfRange));
    assert!(p.is_missing_now());
    assert_eq!(p.add_block(101, &[]).err(), Some(BlockError::OutOfRange));
}

#[test]
fn arrival_order_does_not_matter() {
    let data: Vec<u8> = (0..(16384 * 3)).map(|i| (i * 7 % 256) as u8).collect();
    let orders = [[0usize, 1, 2], [2, 1, 0], [1, 2, 0]];
    for order in orders {
        let mut p = Piece::new(0, data.len() as u32, 0, vec![(String::from("f"), data.len())], sha1(&data));
        let mut out = None;
        for k in order {
            if let Ok(BlockOutcome::Verified(b)) = p.add_block(k * 16384, &data[k * 16384..(k + 1) * 16384]) {
                out = Some(b);
            }
        }
        assert_eq!(out, Some(data.clone()));
    }
}

fn store_of(chunks: &[&[u8]], piece_length: u32) -> (Content, Vec<Vec<u8>>) {
    let mut pieces = vec![];
    let mut all = vec![];
    for c in chunks {
        pieces.extend_from_slice(&sha1(c));
        all.extend_from_slice(c);
    }
    let tf = torrent(Some(all.len()), piece_length, pieces, vec![]);
    (Content::new(&tf, String::from("/dl")), chunks.iter().map(|c| c.to_vec()).collect())
}

#[test]
fn content_add_block_and_bitfield() {
    let a = [1u8; 4];
    let b = [2u8; 4];
    let c = [3u8; 2];
    let (mut store, _) = store_of(&[&a, &b, &c], 4);
    assert_eq!(store.get_bitfield(), vec![0]);
    assert!(matches!(store.add_block(1, 0, &b), Ok(BlockOutcome::Verified(_))));
    assert_eq!(store.get_bitfield(), vec![0b0100_0000]);
    assert!(matches!(store.add_block(2, 0, &c), Ok(BlockOutcome::Verified(_))));
    assert_eq!(store.get_bitfield(), vec![0b0110_0000]);
    assert_eq!(store.count_available(), 2);
    assert_eq!(store.add_block(3, 0, &c).err(), Some(BlockError::NoSuchPiece));
}

#[test]
fn bitfield_spans_bytes() {
    let chunks: Vec<[u8; 1]> = (0..10u8).map(|i| [i]).collect();
    let refs: Vec<&[u8]> = chunks.iter().map(|c| &c[..]).collect();
    let (mut store, data) = store_of(&refs, 1);
    for i in [0usize, 7, 8, 9] {
        assert_eq!(store.check_piece_hash(i, &data[i]), Ok(true));
    }
    let field = store.get_bitfield();
    assert_eq!(field, vec![0b1000_0001, 0b1100_0000]);
    for i in 0..10 {
        let bit = field[i / 8] & (0x80 >> (i % 8)) != 0;
        assert_eq!(bit, store.pieces[i].is_available_now());
    }
}

#[test]
fn recheck_is_idempotent() {
    let a = [5u8; 4];
    let b = [6u8; 4];
    let (mut store, data) = store_of(&[&a, &b], 4);
    for _round in 0..2 {
        for i in 0..2 {
            assert_eq!(store.check_piece_hash(i, &data[i]), Ok(true));
        }
        assert_eq!(store.get_bitfield(), vec![0b1100_0000]);
    }
    assert_eq!(store.check_piece_hash(0, &[0u8; 4]), Ok(false));
    assert!(store.pieces[0].is_missing_now());
    assert_eq!(store.check_piece_hash(2, &a), Err(BlockError::NoSuchPiece));
}

#[test]
fn info_hash_strings() {
    let h = InfoHash::new(b"abc");
    assert_eq!(h.raw(), &sha1(b"abc")[..]);
    assert_eq!(h.as_string(), "A9993E364706816ABA3E25717850C26C9CD0D89D");
    assert_eq!(
        h.as_string_url_encoded(),
        "%A9%99%3E%36%47%06%81%6A%BA%3E%25%71%78%50%C2%6C%9C%D0%D8%9D"
    );
}
