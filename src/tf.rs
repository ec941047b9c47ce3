//! What a torrent file describes: the files, the piece length, one SHA-1
//! digest per piece, and the info hash that names the swarm.
use vstd::prelude::*;

use crate::digest::{sha1_digest, sha1_of};

verus! {

/// One file of a torrent: its path inside the torrent, and its length.
#[derive(Debug, Clone)]
pub struct File {
    pub length: usize,
    pub path: String,
}

/// The info dictionary of a torrent.
#[derive(Debug, Clone)]
pub struct Info {
    pub length: usize,
    pub name: String,
    pub piece_length: u32,
    pub piece_count: u32,
    pub pieces: Vec<u8>,
    pub files: Vec<File>,
}

/// The lengths of a list of files.
pub open spec fn lens_of(files: Seq<File>) -> Seq<nat> {
    files.map_values(|f: File| f.length as nat)
}

/// The sum of the lengths of a list of files.
pub open spec fn files_total(files: Seq<File>) -> nat
    decreases files.len(),
{
    if files.len() == 0 {
        0
    } else {
        files_total(files.drop_last()) + files.last().length as nat
    }
}

/// The number of pieces of `piece_length` bytes that `length` bytes need.
pub open spec fn pieces_for(length: nat, piece_length: nat) -> nat {
    if piece_length == 0 {
        0
    } else {
        (length / piece_length + if length % piece_length == 0 {
            0nat
        } else {
            1nat
        }) as nat
    }
}

/// Why the fields of an info dictionary do not make one.
#[derive(Debug, PartialEq, Eq, Structural)]
pub enum InfoError {
    /// Neither a length nor a list of files was given.
    MissingLength,
    /// The file lengths add up to more than a `usize` holds.
    LengthOverflow,
    /// The total length is zero.
    EmptyContent,
    /// The piece length is zero.
    ZeroPieceLength,
    /// The content needs more pieces than a `u32` counts.
    TooManyPieces,
    /// The piece digests are not 20 bytes for each piece.
    PieceHashCount,
    /// The given length differs from the sum of the file lengths.
    LengthMismatch,
}

/// The total length that the fields give: the sum of the file lengths when no
/// length is given, else the given length.
pub open spec fn given_length(length: Option<usize>, files: Seq<File>) -> Option<nat> {
    match length {
        Some(l) => Some(l as nat),
        None => if files.len() > 0 {
            Some(files_total(files))
        } else {
            None
        },
    }
}

/// The error that the fields of an info dictionary give, checked in this
/// order, or `None` when they make a well-formed descriptor.
pub open spec fn fields_error(
    length: Option<usize>,
    piece_length: u32,
    pieces_len: nat,
    files: Seq<File>,
) -> Option<InfoError> {
    match given_length(length, files) {
        None => Some(InfoError::MissingLength),
        Some(l) => if l > usize::MAX {
            Some(InfoError::LengthOverflow)
        } else if l == 0 {
            Some(InfoError::EmptyContent)
        } else if piece_length == 0 {
            Some(InfoError::ZeroPieceLength)
        } else if pieces_for(l, piece_length as nat) > u32::MAX {
            Some(InfoError::TooManyPieces)
        } else if pieces_len != 20 * pieces_for(l, piece_length as nat) {
            Some(InfoError::PieceHashCount)
        } else if files.len() > 0 && files_total(files) != l {
            Some(InfoError::LengthMismatch)
        } else {
            None
        },
    }
}

impl Info {
    /// A well-formed descriptor: content of some bytes, cut into
    /// `piece_count` pieces of `piece_length` (the last one maybe shorter),
    /// one 20-byte digest per piece, and files whose lengths add up to the
    /// total.
    pub open spec fn wf(&self) -> bool {
        &&& self.length > 0
        &&& self.piece_length > 0
        &&& self.piece_count == pieces_for(self.length as nat, self.piece_length as nat)
        &&& self.piece_hashes().len() == 20 * self.piece_count
        &&& self.files@.len() >= 1
        &&& files_total(self.files@) == self.length
    }

    /// The piece digests, 20 bytes each, laid end to end.
    pub open spec fn piece_hashes(&self) -> Seq<u8> {
        self.pieces@
    }

    /// The info dictionary made of its decoded fields. Without a length the
    /// total is the sum of the file lengths; without files the content is one
    /// file named after the torrent. It is refused unless the result is
    /// well formed.
    pub fn from_fields(
        length: Option<usize>,
        name: String,
        piece_length: u32,
        pieces: Vec<u8>,
        files: Vec<File>,
    ) -> (r: Result<Info, InfoError>)
        ensures
            r is Ok <==> fields_error(length, piece_length, pieces@.len(), files@) is None,
            r matches Err(e) ==> fields_error(length, piece_length, pieces@.len(), files@) == Some(e),
            r matches Ok(info) ==> {
                &&& info.wf()
                &&& given_length(length, files@) == Some(info.length as nat)
                &&& info.name == name
                &&& info.piece_length == piece_length
                &&& info.piece_hashes() == pieces@
                &&& files@.len() > 0 ==> info.files@ == files@
                &&& files@.len() == 0 ==> info.files@ == seq![
                    File { length: info.length, path: name },
                ]
            },
    {
        let mut sum: usize = 0;
        let mut overflow = false;
        let mut k: usize = 0;
        while k < files.len()
            invariant
                k <= files@.len(),
                !overflow ==> sum == files_total(files@.subrange(0, k as int)),
                overflow ==> files_total(files@) > usize::MAX,
            decreases files.len() - k,
        {
            proof {
                assert(files@.subrange(0, k + 1).drop_last() =~= files@.subrange(0, k as int));
                lemma_files_total_prefix_mono(files@, k + 1);
            }
            if !overflow {
                if sum > usize::MAX - files[k].length {
                    overflow = true;
                } else {
                    sum = sum + files[k].length;
                }
            }
            k = k + 1;
        }
        proof {
            assert(files@.subrange(0, files@.len() as int) =~= files@);
        }
        let total = match length {
            Some(l) => l,
            None => {
                if files.len() == 0 {
                    return Err(InfoError::MissingLength);
                }
                if overflow {
                    return Err(InfoError::LengthOverflow);
                }
                sum
            },
        };
        if total == 0 {
            return Err(InfoError::EmptyContent);
        }
        if piece_length == 0 {
            return Err(InfoError::ZeroPieceLength);
        }
        proof {
            let pl = piece_length as usize;
            if total % pl != 0 {
                assert(total / pl < total) by (nonlinear_arith)
                    requires
                        pl >= 2 || total % pl == 0,
                        total % pl != 0,
                        total > 0,
                        pl > 0,
                ;
            }
        }
        let count = total / (piece_length as usize) + if total % (piece_length as usize) == 0 {
            0
        } else {
            1
        };
        if count > u32::MAX as usize {
            return Err(InfoError::TooManyPieces);
        }
        if pieces.len() / 20 != count || pieces.len() % 20 != 0 {
            proof {
                if pieces@.len() == 20 * count {
                    assert(pieces@.len() / 20 == count && pieces@.len() % 20 == 0) by (nonlinear_arith)
                        requires
                            pieces@.len() == 20 * count,
                    ;
                }
            }
            return Err(InfoError::PieceHashCount);
        }
        proof {
            assert(pieces@.len() == 20 * count) by (nonlinear_arith)
                requires
                    pieces@.len() / 20 == count,
                    pieces@.len() % 20 == 0,
            ;
        }
        let files = if files.len() == 0 {
            let only = File { length: total, path: name.clone() };
            let mut v: Vec<File> = Vec::new();
            v.push(only);
            proof {
                assert(v@.drop_last() =~= Seq::<File>::empty());
                assert(files_total(v@.drop_last()) == 0);
                assert(files_total(v@) == total);
            }
            v
        } else {
            if overflow || sum != total {
                return Err(InfoError::LengthMismatch);
            }
            assert(files_total(files@) == total);
            files
        };
        Ok(Info { length: total, name, piece_length, piece_count: count as u32, pieces, files })
    }

    /// The expected digest of piece `piece`.
    pub fn get_piece_hash(&self, piece: usize) -> (r: &[u8])
        requires
            self.wf(),
            piece < self.piece_count,
        ensures
            r@ == self.piece_hashes().subrange(20 * piece, 20 * piece + 20),
    {
        let n = self.pieces.len();
        proof {
            assert((piece + 1) * 20 <= 20 * self.piece_count) by (nonlinear_arith)
                requires
                    piece < self.piece_count,
            ;
        }
        &self.pieces[piece * 20..(piece + 1) * 20]
    }

    /// The size of the last piece: what the whole pieces before it leave of
    /// the total.
    pub fn get_last_piece_size(&self) -> (r: u32)
        requires
            self.wf(),
        ensures
            r == self.length - self.piece_length * (self.piece_count - 1),
            0 < r <= self.piece_length,
    {
        proof {
            lemma_last_piece(self.length as nat, self.piece_length as nat);
        }
        let before = self.piece_count - 1;
        assert((self.piece_length as usize) * (before as usize) < self.length);
        let whole = (self.piece_length as usize) * (before as usize);
        (self.length - whole) as u32
    }
}

proof fn lemma_files_total_prefix_mono(files: Seq<File>, k: int)
    requires
        0 <= k <= files.len(),
    ensures
        files_total(files.subrange(0, k)) <= files_total(files),
    decreases files.len() - k,
{
    if k < files.len() {
        lemma_files_total_prefix_mono(files, k + 1);
        assert(files.subrange(0, k + 1).drop_last() =~= files.subrange(0, k));
    } else {
        assert(files.subrange(0, k) =~= files);
    }
}

/// The whole pieces before the last one fall short of the total, and the last
/// piece is at most one piece length.
pub proof fn lemma_last_piece(length: nat, piece_length: nat)
    requires
        length > 0,
        piece_length > 0,
    ensures
        pieces_for(length, piece_length) >= 1,
        piece_length * (pieces_for(length, piece_length) - 1) < length,
        length - piece_length * (pieces_for(length, piece_length) - 1) <= piece_length,
        forall|i: nat|
            i < pieces_for(length, piece_length) ==> #[trigger] (i * piece_length) < length,
{
    let n = pieces_for(length, piece_length);
    let q = length / piece_length;
    let r = length % piece_length;
    assert(length == piece_length * q + r) by (nonlinear_arith)
        requires
            piece_length > 0,
            q == length / piece_length,
            r == length % piece_length,
    ;
    if r == 0 {
        assert(q >= 1) by (nonlinear_arith)
            requires
                length == piece_length * q,
                length > 0,
                piece_length > 0,
        ;
        assert(piece_length * (q - 1) == length - piece_length) by (nonlinear_arith)
            requires
                length == piece_length * q,
        ;
    } else {
        assert(piece_length * (n - 1) == piece_length * q);
    }
    assert(piece_length * (n - 1) < length);
    assert forall|i: nat| i < n implies #[trigger] (i * piece_length) < length by {
        assert(i * piece_length < length) by (nonlinear_arith)
            requires
                i <= n - 1,
                piece_length > 0,
                piece_length * (n - 1) < length,
        ;
    }
}

/// The info hash: the SHA-1 digest of the bencoded info dictionary.
#[derive(Debug, Clone)]
pub struct InfoHash {
    hash: [u8; 20],
}

/// The upper-case hexadecimal digit for `d`.
pub open spec fn hex_char(d: nat) -> char {
    if d == 0 {
        '0'
    } else if d == 1 {
        '1'
    } else if d == 2 {
        '2'
    } else if d == 3 {
        '3'
    } else if d == 4 {
        '4'
    } else if d == 5 {
        '5'
    } else if d == 6 {
        '6'
    } else if d == 7 {
        '7'
    } else if d == 8 {
        '8'
    } else if d == 9 {
        '9'
    } else if d == 10 {
        'A'
    } else if d == 11 {
        'B'
    } else if d == 12 {
        'C'
    } else if d == 13 {
        'D'
    } else if d == 14 {
        'E'
    } else {
        'F'
    }
}

/// Each byte as two upper-case hexadecimal digits, each preceded by `sep`.
pub open spec fn hex_of(b: Seq<u8>, sep: Seq<char>) -> Seq<char>
    decreases b.len(),
{
    if b.len() == 0 {
        seq![]
    } else {
        hex_of(b.drop_last(), sep) + sep + seq![
            hex_char((b.last() / 16) as nat),
            hex_char((b.last() % 16) as nat),
        ]
    }
}

fn hex_digit(d: u8) -> (r: &'static str)
    requires
        d < 16,
    ensures
        r@ == seq![hex_char(d as nat)],
{
    let digits = "0123456789ABCDEF";
    proof {
        reveal_strlit("0123456789ABCDEF");
    }
    digits.substring_ascii(d as usize, d as usize + 1)
}

fn hex_string(b: &[u8], sep: &str) -> (r: String)
    ensures
        r@ == hex_of(b@, sep@),
{
    let mut s = String::new();
    let mut i: usize = 0;
    while i < b.len()
        invariant
            i <= b@.len(),
            s@ == hex_of(b@.subrange(0, i as int), sep@),
        decreases b.len() - i,
    {
        s.append(sep);
        s.append(hex_digit(b[i] / 16));
        s.append(hex_digit(b[i] % 16));
        proof {
            assert(b@.subrange(0, i + 1).drop_last() =~= b@.subrange(0, i as int));
        }
        i = i + 1;
    }
    proof {
        assert(b@.subrange(0, b@.len() as int) =~= b@);
    }
    s
}

impl InfoHash {
    /// The info hash of the bencoded info dictionary `bencode`.
    pub fn new(bencode: &[u8]) -> (r: InfoHash)
        ensures
            r.view() == sha1_of(bencode@),
    {
        InfoHash { hash: sha1_digest(bencode) }
    }

    /// The 20 bytes of the hash.
    pub closed spec fn view(&self) -> Seq<u8> {
        self.hash@
    }

    pub fn raw(&self) -> (r: &[u8])
        ensures
            r@ == self.view(),
    {
        self.hash.as_slice()
    }

    /// The hash as 40 upper-case hexadecimal digits.
    pub fn as_string(&self) -> (r: String)
        ensures
            r@ == hex_of(self.view(), seq![]),
    {
        let none = "";
        proof {
            reveal_strlit("");
            assert(none@ =~= seq![]);
        }
        hex_string(self.hash.as_slice(), none)
    }

    /// The hash percent-encoded byte by byte, as a tracker query takes it.
    pub fn as_string_url_encoded(&self) -> (r: String)
        ensures
            r@ == hex_of(self.view(), seq!['%']),
    {
        let pct = "%";
        proof {
            reveal_strlit("%");
            assert(pct@ =~= seq!['%']);
        }
        hex_string(self.hash.as_slice(), pct)
    }
}

/// A decoded torrent file.
#[derive(Debug, Clone)]
pub struct TorrentFile {
    pub announce: String,
    pub announce_list: Option<Vec<Vec<String>>>,
    pub info: Info,
    pub info_hash: InfoHash,
    pub creation_date: Option<u32>,
    pub comment: Option<String>,
    pub created: Option<String>,
    pub encoding: Option<String>,
}

} // verus!
