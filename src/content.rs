//! The piece store: every piece of the download, its expected digest, where
//! it lies in the files, and how far its assembly has come.
use vstd::prelude::*;

use crate::blocks::{block_count_goal, block_goal, lemma_popcount_le};
use crate::digest::{sha1_digest, sha1_of};
use crate::bitfield::{bytes_for, empty_field, has_bit, set_bit};
use crate::tf::{files_total, lemma_last_piece, pieces_for, File, Info, TorrentFile};
use crate::layout::{
    cum, file_lens, lemma_cum_mono, lemma_cum_step, piece_end, piece_layout, piece_start,
    reaches_first, seg_lens, total,
};

verus! {

/// The total length of the first `k` files.
fn cum_to(files: &Vec<(String, usize)>, k: usize) -> (r: usize)
    requires
        k <= files@.len(),
        total(files@) <= usize::MAX,
    ensures
        r == cum(file_lens(files@), k as int),
{
    let ghost lens = file_lens(files@);
    assert(lens.len() == files@.len());
    let mut s: usize = 0;
    let mut j: usize = 0;
    while j < k
        invariant
            lens == file_lens(files@),
            lens.len() == files@.len(),
            j <= k <= files@.len(),
            s == cum(lens, j as int),
            total(files@) <= usize::MAX,
        decreases k - j,
    {
        proof {
            lemma_cum_step(lens, j as int);
            lemma_cum_mono(lens, j + 1, files@.len() as int);
            assert(lens[j as int] == files@[j as int].1 as nat);
        }
        s = s + files[j].1;
        j = j + 1;
    }
    s
}

/// The first file whose end, in the flat run, reaches `x`.
fn find_reaching(files: &Vec<(String, usize)>, x: usize) -> (f: usize)
    requires
        x <= total(files@) <= usize::MAX,
        files@.len() > 0,
    ensures
        reaches_first(files@, f as int, x as nat),
{
    let ghost lens = file_lens(files@);
    assert(lens.len() == files@.len());
    let n = files.len();
    let mut f: usize = 0;
    let mut end: usize = files[0].1;
    proof {
        lemma_cum_step(lens, 0);
    }
    while end < x
        invariant
            lens == file_lens(files@),
            lens.len() == files@.len(),
            n == files@.len(),
            f < files@.len(),
            end == cum(lens, f + 1),
            f == 0 || cum(lens, f as int) < x,
            x <= total(files@) <= usize::MAX,
        decreases files@.len() - f,
    {
        proof {
            if f + 1 == files@.len() {
                assert(false);
            }
            assert(lens[f + 1] == files@[f + 1].1 as nat);
            lemma_cum_step(lens, f + 1);
            lemma_cum_mono(lens, f + 2, files@.len() as int);
            assert(cum(lens, files@.len() as int) == total(files@));
            assert(end + files@[f + 1].1 <= usize::MAX);
        }
        f = f + 1;
        end = end + files[f].1;
    }
    f
}

/// The state of a piece.
pub enum PieceStatus {
    /// Not here, and not asked for.
    Missing,
    /// Here, its digest checked.
    Available,
    /// Asked for; the blocks received so far, in place, the rest zero.
    Awaiting(Vec<u8>),
}

/// What one block did to its piece.
pub enum BlockOutcome {
    /// The piece still waits for blocks.
    Pending,
    /// The piece is complete and matches its digest; these are its bytes, to
    /// be written to its files.
    Verified(Vec<u8>),
    /// The piece is complete but does not match its digest: it is missing
    /// again, to be asked for anew.
    Corrupt,
}

/// Why a block was not taken.
#[derive(Debug, PartialEq, Eq, Structural)]
pub enum BlockError {
    /// There is no piece of that number.
    NoSuchPiece,
    /// The piece is already here.
    AlreadyAvailable,
    /// The block reaches past the end of the piece.
    OutOfRange,
}

/// The buffer `buf` with `block` written over it from `offset`.
pub open spec fn splice(buf: Seq<u8>, offset: nat, block: Seq<u8>) -> Seq<u8> {
    buf.subrange(0, offset as int) + block + buf.subrange((offset + block.len()) as int, buf.len() as int)
}

/// `n` zero bytes.
pub open spec fn zeros(n: nat) -> Seq<u8> {
    Seq::new(n, |i: int| 0u8)
}

/// One piece of the download.
pub struct Piece {
    pub number: u32,
    size: u32,
    offset: usize,
    pub status: PieceStatus,
    hash: [u8; 20],
    files: Vec<(String, usize)>,
    block_count: u32,
    block_count_goal: u32,
}

/// Where the bytes of a piece go in one of its files: `length` bytes from
/// `file_offset` in the file at `path`.
pub struct Segment {
    pub path: String,
    pub file_offset: usize,
    pub length: usize,
}

impl Piece {
    pub closed spec fn spec_number(&self) -> nat {
        self.number as nat
    }

    pub closed spec fn spec_size(&self) -> nat {
        self.size as nat
    }

    pub closed spec fn spec_offset(&self) -> nat {
        self.offset as nat
    }

    pub closed spec fn spec_hash(&self) -> Seq<u8> {
        self.hash@
    }

    pub closed spec fn spec_files(&self) -> Seq<(String, usize)> {
        self.files@
    }

    pub closed spec fn spec_block_count(&self) -> nat {
        self.block_count as nat
    }

    pub closed spec fn spec_goal(&self) -> nat {
        self.block_count_goal as nat
    }

    pub closed spec fn is_missing(&self) -> bool {
        self.status is Missing
    }

    pub closed spec fn is_available(&self) -> bool {
        self.status is Available
    }

    /// The buffer of an awaited piece.
    pub closed spec fn awaiting(&self) -> Option<Seq<u8>> {
        match self.status {
            PieceStatus::Awaiting(b) => Some(b@),
            _ => None,
        }
    }

    /// The buffer that the next block is written into: the one being
    /// assembled, or zeros.
    pub open spec fn buffer(&self) -> Seq<u8> {
        match self.awaiting() {
            Some(b) => b,
            None => zeros(self.spec_size()),
        }
    }

    /// A piece is complete after `block_goal` blocks; an awaited piece's
    /// buffer has the piece's size, and a missing piece has no blocks.
    pub closed spec fn wf(&self) -> bool {
        &&& self.block_count_goal == block_goal(self.size as nat)
        &&& self.block_count <= self.block_count_goal
        &&& self.status is Missing ==> self.block_count == 0
        &&& self.status matches PieceStatus::Awaiting(b) ==> b@.len() == self.size
    }

    /// The same piece: number, size, place, digest and goal unchanged.
    pub open spec fn same_piece(&self, other: &Piece) -> bool {
        &&& self.spec_number() == other.spec_number()
        &&& self.spec_size() == other.spec_size()
        &&& self.spec_offset() == other.spec_offset()
        &&& self.spec_hash() == other.spec_hash()
        &&& self.spec_files() == other.spec_files()
        &&& self.spec_goal() == other.spec_goal()
    }

    /// What taking `block` at `offset` does to a piece, `old` before and `new`
    /// after, with outcome `r`.
    pub open spec fn block_step(
        old: &Piece,
        new: &Piece,
        offset: nat,
        block: Seq<u8>,
        r: Result<BlockOutcome, BlockError>,
    ) -> bool {
        &&& new.wf()
        &&& new.same_piece(old)
        &&& if old.is_available() {
            r == Err::<BlockOutcome, BlockError>(BlockError::AlreadyAvailable) && *new == *old
        } else if offset + block.len() > old.spec_size() {
            r == Err::<BlockOutcome, BlockError>(BlockError::OutOfRange) && *new == *old
        } else {
            let assembled = splice(old.buffer(), offset, block);
            let count = old.spec_block_count() + 1;
            if count < old.spec_goal() {
                &&& r is Ok && r->Ok_0 is Pending
                &&& new.awaiting() == Some(assembled)
                &&& new.spec_block_count() == count
            } else if sha1_of(assembled) == old.spec_hash() {
                &&& r matches Ok(BlockOutcome::Verified(bytes)) && bytes@ == assembled
                &&& new.is_available()
                &&& new.spec_block_count() == old.spec_block_count()
            } else {
                &&& r is Ok && r->Ok_0 is Corrupt
                &&& new.is_missing()
                &&& new.spec_block_count() == 0
            }
        }
    }

    /// What checking `buffer` against the digest does to a piece, `old`
    /// before and `new` after, with verdict `r`.
    pub open spec fn hash_checked(old: &Piece, new: &Piece, buffer: Seq<u8>, r: bool) -> bool {
        &&& new.wf()
        &&& new.same_piece(old)
        &&& r == (sha1_of(buffer) == old.spec_hash())
        &&& r ==> new.is_available() && new.spec_block_count() == old.spec_block_count()
        &&& !r ==> new.is_missing() && new.spec_block_count() == 0
    }

    /// A missing piece of `size` bytes, number `number`, that starts at
    /// `offset` in the first of `files` and must hash to `hash`.
    pub fn new(
        number: u32,
        size: u32,
        offset: usize,
        files: Vec<(String, usize)>,
        hash: [u8; 20],
    ) -> (p: Piece)
        ensures
            p.wf(),
            p.spec_number() == number,
            p.spec_size() == size,
            p.spec_offset() == offset,
            p.spec_files() == files@,
            p.spec_hash() == hash@,
            p.is_missing(),
            p.spec_goal() == block_goal(size as nat),
    {
        let goal = block_count_goal(size);
        Piece {
            number,
            size,
            hash,
            status: PieceStatus::Missing,
            files,
            offset,
            block_count_goal: goal,
            block_count: 0,
        }
    }

    /// The number of bytes of the piece.
    pub fn size(&self) -> (r: u32)
        ensures
            r == self.spec_size(),
    {
        self.size
    }

    /// Whether the piece is here.
    pub fn is_available_now(&self) -> (r: bool)
        ensures
            r == self.is_available(),
    {
        match self.status {
            PieceStatus::Available => true,
            _ => false,
        }
    }

    /// Whether the piece is neither here nor asked for.
    pub fn is_missing_now(&self) -> (r: bool)
        ensures
            r == self.is_missing(),
    {
        match self.status {
            PieceStatus::Missing => true,
            _ => false,
        }
    }

    /// Takes one block: writes it into the piece's buffer at `offset` and,
    /// once `block_goal` blocks have come, checks the digest. A piece that
    /// matches becomes available and its bytes are handed back for writing; one
    /// that does not becomes missing again with no blocks counted.
    pub fn add_block(&mut self, offset: usize, block: &[u8]) -> (r: Result<BlockOutcome, BlockError>)
        requires
            old(self).wf(),
        ensures
            Piece::block_step(old(self), final(self), offset as nat, block@, r),
    {
        let ghost before = *self;
        let mut status = PieceStatus::Missing;
        std::mem::swap(&mut status, &mut self.status);
        let (mut buf, was_awaiting) = match status {
            PieceStatus::Available => {
                self.status = PieceStatus::Available;
                return Err(BlockError::AlreadyAvailable);
            },
            PieceStatus::Missing => (zero_buffer(self.size as usize), false),
            PieceStatus::Awaiting(b) => (b, true),
        };
        assert(buf@ == before.buffer());
        if offset > buf.len() || block.len() > buf.len() - offset {
            if !was_awaiting {
                self.status = PieceStatus::Missing;
            } else {
                self.status = PieceStatus::Awaiting(buf);
            }
            return Err(BlockError::OutOfRange);
        }
        let mut i: usize = 0;
        while i < block.len()
            invariant
                offset + block@.len() <= buf@.len() == before.spec_size(),
                before.buffer().len() == before.spec_size(),
                i <= block@.len(),
                buf@ == splice(before.buffer(), offset as nat, block@.subrange(0, i as int)),
            decreases block.len() - i,
        {
            let ghost prev = buf@;
            buf.set(offset + i, block[i]);
            proof {
                let b = before.buffer();
                let next = splice(b, offset as nat, block@.subrange(0, i + 1));
                assert(next.len() == buf@.len());
                assert forall|j: int| 0 <= j < buf@.len() implies buf@[j] == next[j] by {
                    if j < offset {
                        assert(prev[j] == b[j]);
                        assert(next[j] == b[j]);
                    } else if j < offset + i {
                        assert(prev[j] == block@[j - offset]);
                        assert(next[j] == block@[j - offset]);
                    } else if j == offset + i {
                        assert(next[j] == block@[j - offset]);
                    } else {
                        assert(prev[j] == b[j]);
                        assert(next[j] == b[j]);
                    }
                }
                assert(buf@ =~= next);
            }
            i = i + 1;
        }
        proof {
            assert(block@.subrange(0, block@.len() as int) =~= block@);
        }
        proof {
            lemma_popcount_le((self.size % 16384) as nat);
        }
        let count = self.block_count + 1;
        if count < self.block_count_goal {
            self.block_count = count;
            self.status = PieceStatus::Awaiting(buf);
            return Ok(BlockOutcome::Pending);
        }
        if self.check_hash(buf.as_slice()) {
            Ok(BlockOutcome::Verified(buf))
        } else {
            Ok(BlockOutcome::Corrupt)
        }
    }

    /// Checks `buffer` against the piece's digest: the piece becomes
    /// available if it matches, else missing with no blocks counted.
    pub fn check_hash(&mut self, buffer: &[u8]) -> (r: bool)
        requires
            old(self).spec_goal() == block_goal(old(self).spec_size()),
            old(self).spec_block_count() <= old(self).spec_goal(),
        ensures
            Piece::hash_checked(old(self), final(self), buffer@, r),
    {
        let digest = sha1_digest(buffer);
        let same = same_digest(&digest, &self.hash);
        if same {
            self.status = PieceStatus::Available;
        } else {
            self.status = PieceStatus::Missing;
            self.block_count = 0;
        }
        same
    }

    /// Marks a missing piece as asked for, with an empty buffer; any other
    /// piece is left as it is.
    pub fn make_awaiting(&mut self)
        requires
            old(self).wf(),
        ensures
            final(self).wf(),
            final(self).same_piece(old(self)),
            final(self).spec_block_count() == old(self).spec_block_count(),
            old(self).is_missing() ==> final(self).awaiting() == Some(zeros(old(self).spec_size())),
            old(self).is_missing() ==> !final(self).is_missing() && !final(self).is_available(),
            !old(self).is_missing() ==> *final(self) == *old(self),
    {
        match self.status {
            PieceStatus::Missing => {},
            _ => {
                return;
            },
        }
        let buf = zero_buffer(self.size as usize);
        self.status = PieceStatus::Awaiting(buf);
    }

    /// Gives up on an awaited piece: it becomes missing, with no blocks
    /// counted. A piece that is here stays here.
    pub fn reset(&mut self)
        requires
            old(self).wf(),
        ensures
            final(self).wf(),
            final(self).same_piece(old(self)),
            old(self).is_available() ==> *final(self) == *old(self),
            !old(self).is_available() ==> final(self).is_missing() && final(self).spec_block_count() == 0,
    {
        if self.is_available_now() {
            return;
        }
        self.status = PieceStatus::Missing;
        self.block_count = 0;
    }

    /// Where the piece's bytes go: one segment per file it touches, in
    /// order, from its offset in the first file and from the start of the
    /// others, as many bytes in each as fit, until the piece is placed.
    pub fn segments(&self) -> (r: Vec<Segment>)
        ensures
            r@.len() == self.spec_files().len(),
            lengths_of(r@) == seg_lens(
                file_lens(self.spec_files()),
                self.spec_offset(),
                self.spec_size(),
            ),
            forall|k: int|
                0 <= k < r@.len() ==> {
                    &&& (#[trigger] r@[k]).path == self.spec_files()[k].0
                    &&& r@[k].file_offset == seg_start(k, self.spec_offset())
                },
    {
        let ghost lens = file_lens(self.files@);
        assert(lens.len() == self.files@.len());
        let mut out: Vec<Segment> = Vec::new();
        let mut left: usize = self.size as usize;
        let mut k: usize = 0;
        assert(lens.subrange(0, lens.len() as int) =~= lens);
        assert(lengths_of(out@) + seg_lens(lens, self.offset as nat, self.size as nat) =~= seg_lens(
            lens,
            self.offset as nat,
            self.size as nat,
        ));
        while k < self.files.len()
            invariant
                lens == file_lens(self.files@),
                lens.len() == self.files@.len(),
                k <= self.files@.len(),
                out@.len() == k,
                lengths_of(out@) + seg_lens(
                    lens.subrange(k as int, lens.len() as int),
                    seg_start(k as int, self.offset as nat),
                    left as nat,
                ) == seg_lens(lens, self.offset as nat, self.size as nat),
                forall|j: int|
                    0 <= j < k ==> {
                        &&& (#[trigger] out@[j]).path == self.files@[j].0
                        &&& out@[j].file_offset == seg_start(j, self.offset as nat)
                    },
            decreases self.files.len() - k,
        {
            let start: usize = if k == 0 {
                self.offset
            } else {
                0
            };
            let file_len = self.files[k].1;
            let room: usize = if file_len >= start {
                file_len - start
            } else {
                0
            };
            let l: usize = if room < left {
                room
            } else {
                left
            };
            let ghost rest = lens.subrange(k as int, lens.len() as int);
            proof {
                assert(rest[0] == file_len);
                assert(rest.drop_first() =~= lens.subrange(k + 1, lens.len() as int));
                assert(seg_lens(rest, start as nat, left as nat) =~= seq![l as nat] + seg_lens(
                    lens.subrange(k + 1, lens.len() as int),
                    0,
                    (left - l) as nat,
                ));
            }
            out.push(Segment { path: self.files[k].0.clone(), file_offset: start, length: l });
            proof {
                assert(lengths_of(out@) =~= lengths_of(out@.drop_last()).push(l as nat));
            }
            left = left - l;
            k = k + 1;
        }
        proof {
            assert(lens.subrange(k as int, lens.len() as int) =~= Seq::<nat>::empty());
            assert(lengths_of(out@) =~= seg_lens(
                lens,
                self.offset as nat,
                self.size as nat,
            ));
        }
        out
    }
}

/// A piece is in exactly one state: missing, here, or awaited with a
/// buffer.
pub proof fn lemma_piece_states(p: Piece)
    ensures
        p.is_missing() ==> !p.is_available() && p.awaiting() is None,
        p.is_available() ==> !p.is_missing() && p.awaiting() is None,
        p.awaiting() is Some ==> !p.is_missing() && !p.is_available(),
        p.is_missing() || p.is_available() || p.awaiting() is Some,
{
}

/// Where segment `k` of a piece starts in its file.
pub open spec fn seg_start(k: int, offset: nat) -> nat {
    if k == 0 {
        offset
    } else {
        0
    }
}

/// The lengths of a list of segments.
pub open spec fn lengths_of(segs: Seq<Segment>) -> Seq<nat> {
    segs.map_values(|s: Segment| s.length as nat)
}

/// Whether two digests are equal.
fn same_digest(a: &[u8; 20], b: &[u8; 20]) -> (r: bool)
    ensures
        r == (a@ == b@),
{
    let mut i: usize = 0;
    while i < 20
        invariant
            i <= 20,
            forall|k: int| 0 <= k < i ==> a@[k] == b@[k],
        decreases 20 - i,
    {
        if a[i] != b[i] {
            return false;
        }
        i = i + 1;
    }
    assert(a@ =~= b@);
    true
}

/// `n` zero bytes.
fn zero_buffer(n: usize) -> (r: Vec<u8>)
    ensures
        r@ == zeros(n as nat),
{
    let mut v: Vec<u8> = Vec::new();
    let mut i: usize = 0;
    while i < n
        invariant
            i <= n,
            v@ == zeros(i as nat),
        decreases n - i,
    {
        v.push(0);
        proof {
            assert(v@ =~= zeros((i + 1) as nat));
        }
        i = i + 1;
    }
    v
}

/// The path of a file of the torrent under the destination `dir`: under a
/// directory named after the torrent when it has several files.
pub open spec fn file_path(dir: Seq<char>, name: Seq<char>, multi: bool, path: Seq<char>) -> Seq<
    char,
> {
    if multi {
        dir + seq!['/'] + name + seq!['/'] + path
    } else {
        dir + seq!['/'] + path
    }
}

/// The size of piece `piece`: a whole piece length but for the last piece,
/// which has what is left.
pub open spec fn piece_size(piece: nat, piece_length: nat, length: nat) -> nat {
    (piece_end(piece, piece_length, length) - piece_start(piece, piece_length)) as nat
}

/// All pieces of a download, the table of its files, and where they go.
pub struct Content {
    pub pieces: Vec<Piece>,
    pub files: Vec<(String, usize)>,
    pub destination_path: String,
}

impl Content {
    pub open spec fn spec_files(&self) -> Seq<(String, usize)> {
        self.files@
    }

    /// Every piece is well formed and sits at its own number.
    pub open spec fn wf(&self) -> bool {
        forall|i: int|
            0 <= i < self.pieces@.len() ==> (#[trigger] self.pieces@[i]).wf()
                && self.pieces@[i].spec_number() == i
    }

    /// `self` is the store for `tf` under `dir`: one missing piece per piece
    /// of `tf`, each knowing its size, digest and place in the files.
    pub open spec fn describes(&self, tf: &TorrentFile, dir: Seq<char>) -> bool {
        let info = tf.info;
        let files = self.spec_files();
        &&& self.wf()
        &&& files.len() == info.files@.len()
        &&& forall|k: int|
            0 <= k < files.len() ==> (#[trigger] files[k]).1 == info.files@[k].length && files[k].0@
                == file_path(dir, info.name@, info.files@.len() > 1, info.files@[k].path@)
        &&& self.pieces@.len() == info.piece_count
        &&& forall|i: int|
            0 <= i < self.pieces@.len() ==> {
                let p = #[trigger] self.pieces@[i];
                &&& p.spec_size() == piece_size(
                    i as nat,
                    info.piece_length as nat,
                    info.length as nat,
                )
                &&& p.spec_hash() == info.piece_hashes().subrange(20 * i, 20 * i + 20)
                &&& p.is_missing()
                &&& p.spec_goal() == block_goal(p.spec_size())
                &&& p.spec_block_count() == 0
                &&& piece_layout(
                    files,
                    i as nat,
                    info.piece_length as nat,
                    info.length as nat,
                    p.spec_offset(),
                    p.spec_files(),
                )
            }
    }

    /// The store for `tf` with its files under `dir_path_string`.
    pub fn new(tf: &TorrentFile, dir_path_string: String) -> (c: Content)
        requires
            tf.info.wf(),
        ensures
            c.describes(tf, dir_path_string@),
            c.destination_path == dir_path_string,
    {
        let info = &tf.info;
        let multi = info.files.len() > 1;
        let mut files: Vec<(String, usize)> = Vec::new();
        let mut k: usize = 0;
        while k < info.files.len()
            invariant
                k <= info.files@.len(),
                multi == (info.files@.len() > 1),
                files@.len() == k,
                forall|j: int|
                    0 <= j < k ==> (#[trigger] files@[j]).1 == info.files@[j].length
                        && files@[j].0@ == file_path(
                        dir_path_string@,
                        info.name@,
                        multi,
                        info.files@[j].path@,
                    ),
            decreases info.files@.len() - k,
        {
            let path = join_path(&dir_path_string, &info.name, multi, &info.files[k].path);
            files.push((path, info.files[k].length));
            k = k + 1;
        }
        proof {
            lemma_total_matches(files@, info.files@, files@.len() as int);
            assert(info.files@.subrange(0, files@.len() as int) =~= info.files@);
            assert(total(files@) == info.length);
            lemma_last_piece(info.length as nat, info.piece_length as nat);
        }
        let count = info.piece_count;
        let mut pieces: Vec<Piece> = Vec::new();
        let mut i: u32 = 0;
        while i < count
            invariant
                info.wf(),
                count == info.piece_count,
                i <= count,
                total(files@) == info.length,
                forall|t: nat| t < count ==> #[trigger] (t * (info.piece_length as nat)) < info.length,
                pieces@.len() == i,
                forall|j: int|
                    0 <= j < i ==> {
                        let p = #[trigger] pieces@[j];
                        &&& p.wf()
                        &&& p.spec_number() == j
                        &&& p.spec_size() == piece_size(
                            j as nat,
                            info.piece_length as nat,
                            info.length as nat,
                        )
                        &&& p.spec_hash() == info.piece_hashes().subrange(20 * j, 20 * j + 20)
                        &&& p.is_missing()
                        &&& p.spec_goal() == block_goal(p.spec_size())
                        &&& p.spec_block_count() == 0
                        &&& piece_layout(
                            files@,
                            j as nat,
                            info.piece_length as nat,
                            info.length as nat,
                            p.spec_offset(),
                            p.spec_files(),
                        )
                    },
            decreases count - i,
        {
            assert((i as nat) * (info.piece_length as nat) < info.length);
            assert((i as usize) * (info.piece_length as usize) < info.length);
            let size = piece_size_of(info, i);
            let (offset, piece_files) = Content::get_piece_files(
                i as usize,
                &files,
                info.piece_length as usize,
                info.length,
            );
            let hash = digest_at(info, i as usize);
            pieces.push(Piece::new(i, size, offset, piece_files, hash));
            i = i + 1;
        }
        Content { pieces, files, destination_path: dir_path_string }
    }

    /// Where piece `piece` lies in `files`: the offset at which it starts inside
    /// the first file it touches, and the files from that one to the last one it
    /// touches. The first file is the first whose end reaches the piece's start;
    /// the last is the first whose end reaches the piece's end.
    pub fn get_piece_files(
        piece: usize,
        files: &Vec<(String, usize)>,
        piece_length: usize,
        length: usize,
    ) -> (r: (usize, Vec<(String, usize)>))
        requires
            piece_length > 0,
            piece * piece_length < length,
            total(files@) == length,
        ensures
            piece_layout(files@, piece as nat, piece_length as nat, length as nat, r.0 as nat, r.1@),
    {
        let ghost lens = file_lens(files@);
        assert(lens.len() == files@.len());
        let n = files.len();
        let start = piece * piece_length;
        let end = if piece_length > length - start {
            length
        } else {
            start + piece_length
        };
        proof {
            assert(end == piece_end(piece as nat, piece_length as nat, length as nat)) by (
            nonlinear_arith)
                requires
                    start == piece * piece_length,
                    end == (if piece_length > length - start {
                        length as int
                    } else {
                        start + piece_length
                    }),
            ;
            assert(n > 0) by {
                if n == 0 {
                    assert(total(files@) == 0);
                }
            }
            lemma_cum_step(lens, 0);
        }
        let first = find_reaching(files, start);
        let last = find_reaching(files, end);
        proof {
            if last < first {
                lemma_cum_mono(lens, last + 1, first as int);
            }
        }
        let mut segs: Vec<(String, usize)> = Vec::new();
        let mut k: usize = first;
        while k <= last
            invariant
                first <= k <= last + 1,
                last < n,
                n == files@.len(),
                segs@ == files@.subrange(first as int, k as int),
            decreases last + 1 - k,
        {
            let path = files[k].0.clone();
            segs.push((path, files[k].1));
            proof {
                assert(segs@ =~= files@.subrange(first as int, k + 1));
            }
            k = k + 1;
        }
        let reach_first = cum_to(files, first + 1);
        proof {
            lemma_cum_step(lens, first as int);
            assert(lens[first as int] == files@[first as int].1 as nat);
        }
        let offset = files[first].1 - (reach_first - start);
        proof {
            assert(offset + cum(lens, first as int) == piece_start(piece as nat, piece_length as nat));
            assert(reaches_first(files@, first as int, piece_start(piece as nat, piece_length as nat)));
            assert(reaches_first(files@, last as int, piece_end(piece as nat, piece_length as nat, length as nat)));
            assert(segs@ == files@.subrange(first as int, last + 1));
        }
        (offset, segs)
    }

    /// The table of files: each one's path and length.
    pub fn files(&self) -> (r: &Vec<(String, usize)>)
        ensures
            r@ == self.spec_files(),
    {
        &self.files
    }

    /// Takes a block of piece `piece_number` at `offset`, as
    /// [`Piece::add_block`] does; the other pieces are left alone.
    pub fn add_block(&mut self, piece_number: usize, offset: usize, block: &[u8]) -> (r: Result<
        BlockOutcome,
        BlockError,
    >)
        requires
            old(self).wf(),
        ensures
            final(self).wf(),
            final(self).spec_files() == old(self).spec_files(),
            final(self).destination_path == old(self).destination_path,
            final(self).pieces@.len() == old(self).pieces@.len(),
            piece_number >= old(self).pieces@.len() ==> r == Err::<BlockOutcome, BlockError>(
                BlockError::NoSuchPiece,
            ) && *final(self) == *old(self),
            piece_number < old(self).pieces@.len() ==> Piece::block_step(
                &old(self).pieces@[piece_number as int],
                &final(self).pieces@[piece_number as int],
                offset as nat,
                block@,
                r,
            ),
            forall|j: int|
                0 <= j < old(self).pieces@.len() && j != piece_number ==> #[trigger] final(self).pieces@[j] == old(self).pieces@[j],
    {
        if piece_number >= self.pieces.len() {
            return Err(BlockError::NoSuchPiece);
        }
        let r = self.pieces[piece_number].add_block(offset, block);
        proof {
            assert forall|i: int| 0 <= i < self.pieces@.len() implies (
            #[trigger] self.pieces@[i]).wf() && self.pieces@[i].spec_number() == i by {
                if i != piece_number {
                    assert(self.pieces@[i] == old(self).pieces@[i]);
                }
            }
        }
        r
    }

    /// Which pieces are here, one bit each, piece 0 in the most significant
    /// bit of the first byte; the bits past the last piece are clear.
    pub fn get_bitfield(&self) -> (r: Vec<u8>)
        ensures
            r@.len() == bytes_for(self.pieces@.len()),
            forall|i: nat|
                #[trigger] has_bit(r@, i) == (i < self.pieces@.len()
                    && self.pieces@[i as int].is_available()),
    {
        let n = self.pieces.len();
        let mut field = empty_field(n);
        let mut i: usize = 0;
        while i < n
            invariant
                n == self.pieces@.len(),
                i <= n,
                field@.len() == bytes_for(n as nat),
                forall|j: nat|
                    #[trigger] has_bit(field@, j) == (j < i && self.pieces@[j as int].is_available()),
            decreases n - i,
        {
            if self.pieces[i].is_available_now() {
                proof {
                    assert(i / 8 < bytes_for(n as nat));
                }
                set_bit(&mut field, i);
            }
            i = i + 1;
        }
        field
    }

    /// Checks piece `piece_number` against `buffer`, the bytes read back from
    /// its files, as [`Piece::check_hash`] does; the other pieces are left
    /// alone.
    pub fn check_piece_hash(&mut self, piece_number: usize, buffer: &[u8]) -> (r: Result<
        bool,
        BlockError,
    >)
        requires
            old(self).wf(),
        ensures
            final(self).wf(),
            final(self).files == old(self).files,
            final(self).destination_path == old(self).destination_path,
            final(self).pieces@.len() == old(self).pieces@.len(),
            piece_number >= old(self).pieces@.len() ==> r == Err::<bool, BlockError>(
                BlockError::NoSuchPiece,
            ) && *final(self) == *old(self),
            piece_number < old(self).pieces@.len() ==> r is Ok && Piece::hash_checked(
                &old(self).pieces@[piece_number as int],
                &final(self).pieces@[piece_number as int],
                buffer@,
                r->Ok_0,
            ),
            forall|j: int|
                0 <= j < old(self).pieces@.len() && j != piece_number ==> #[trigger] final(self).pieces@[j]
                    == old(self).pieces@[j],
    {
        if piece_number >= self.pieces.len() {
            return Err(BlockError::NoSuchPiece);
        }
        let r = self.pieces[piece_number].check_hash(buffer);
        proof {
            assert forall|i: int| 0 <= i < self.pieces@.len() implies (
            #[trigger] self.pieces@[i]).wf() && self.pieces@[i].spec_number() == i by {
                if i != piece_number {
                    assert(self.pieces@[i] == old(self).pieces@[i]);
                }
            }
        }
        Ok(r)
    }

    /// How many pieces are here.
    pub fn count_available(&self) -> (r: usize)
        ensures
            r == available_count(self.pieces@, self.pieces@.len() as int),
    {
        let mut c: usize = 0;
        let mut i: usize = 0;
        while i < self.pieces.len()
            invariant
                i <= self.pieces@.len(),
                c == available_count(self.pieces@, i as int),
                c <= i,
            decreases self.pieces@.len() - i,
        {
            if self.pieces[i].is_available_now() {
                c = c + 1;
            }
            i = i + 1;
        }
        c
    }
}

/// How many of the first `k` pieces are here.
pub open spec fn available_count(pieces: Seq<Piece>, k: int) -> nat
    decreases k,
{
    if k <= 0 {
        0
    } else {
        available_count(pieces, k - 1) + if pieces[k - 1].is_available() {
            1nat
        } else {
            0nat
        }
    }
}

/// The path of a file of the torrent under `dir`.
fn join_path(dir: &String, name: &String, multi: bool, path: &String) -> (r: String)
    ensures
        r@ == file_path(dir@, name@, multi, path@),
{
    let slash = "/";
    proof {
        reveal_strlit("/");
        assert(slash@ =~= seq!['/']);
    }
    let mut s = dir.clone();
    s.append(slash);
    if multi {
        s.append(name.as_str());
        s.append(slash);
    }
    s.append(path.as_str());
    s
}

/// The size of piece `i` of a well-formed descriptor.
fn piece_size_of(info: &Info, i: u32) -> (r: u32)
    requires
        info.wf(),
        i < info.piece_count,
    ensures
        r == piece_size(i as nat, info.piece_length as nat, info.length as nat),
{
    proof {
        lemma_last_piece(info.length as nat, info.piece_length as nat);
        lemma_piece_size(info.length as nat, info.piece_length as nat, i as nat);
    }
    if i == info.piece_count - 1 {
        info.get_last_piece_size()
    } else {
        info.piece_length
    }
}

proof fn lemma_piece_size(length: nat, piece_length: nat, i: nat)
    requires
        length > 0,
        piece_length > 0,
        i < pieces_for(length, piece_length),
    ensures
        i + 1 == pieces_for(length, piece_length) ==> piece_size(i, piece_length, length) == length
            - piece_length * i,
        i + 1 < pieces_for(length, piece_length) ==> piece_size(i, piece_length, length)
            == piece_length,
{
    lemma_last_piece(length, piece_length);
    let n = pieces_for(length, piece_length);
    if i + 1 < n {
        assert((i + 1) * piece_length <= piece_length * (n - 1)) by (nonlinear_arith)
            requires
                i + 1 <= n - 1,
                piece_length > 0,
        ;
        assert((i + 1) * piece_length == i * piece_length + piece_length) by (nonlinear_arith);
    } else {
        assert(piece_length * i < length);
        assert((i + 1) * piece_length >= length) by (nonlinear_arith)
            requires
                i + 1 == n,
                length - piece_length * (n - 1) <= piece_length,
        ;
        assert(piece_length * i == i * piece_length) by (nonlinear_arith);
    }
}

/// The expected digest of piece `i`, as an array.
fn digest_at(info: &Info, i: usize) -> (r: [u8; 20])
    requires
        info.wf(),
        i < info.piece_count,
    ensures
        r@ == info.piece_hashes().subrange(20 * i, 20 * i + 20),
{
    let h = info.get_piece_hash(i);
    let mut out = [0u8; 20];
    let mut k: usize = 0;
    while k < 20
        invariant
            h@.len() == 20,
            k <= 20,
            forall|t: int| 0 <= t < k ==> out@[t] == h@[t],
        decreases 20 - k,
    {
        out[k] = h[k];
        k = k + 1;
    }
    assert(out@ =~= h@);
    out
}

proof fn lemma_cum_prefix(a: Seq<nat>, b: Seq<nat>, k: int)
    requires
        0 <= k <= a.len(),
        k <= b.len(),
        forall|j: int| 0 <= j < k ==> a[j] == b[j],
    ensures
        cum(a, k) == cum(b, k),
    decreases k,
{
    if k > 0 {
        lemma_cum_prefix(a, b, k - 1);
    }
}

proof fn lemma_total_matches(table: Seq<(String, usize)>, files: Seq<File>, k: int)
    requires
        table.len() == files.len(),
        0 <= k <= files.len(),
        forall|j: int| 0 <= j < table.len() ==> (#[trigger] table[j]).1 == files[j].length,
    ensures
        cum(file_lens(table), k) == files_total(files.subrange(0, k)),
    decreases k,
{
    if k > 0 {
        lemma_total_matches(table, files, k - 1);
        lemma_cum_step(file_lens(table), k - 1);
        assert(files.subrange(0, k).drop_last() =~= files.subrange(0, k - 1));
    }
    if k == files.len() {
        assert(files.subrange(0, k) =~= files);
    }
}

/// Checking a piece against bytes that match its digest leaves it here, and
/// checking it again against the same bytes keeps it here with nothing else
/// changed. The check hands out no bytes, so nothing is written.
pub proof fn lemma_recheck_is_idempotent(
    start: Piece,
    checked: Piece,
    again: Piece,
    buffer: Seq<u8>,
    first_verdict: bool,
    second_verdict: bool,
)
    requires
        Piece::hash_checked(&start, &checked, buffer, first_verdict),
        Piece::hash_checked(&checked, &again, buffer, second_verdict),
        sha1_of(buffer) == start.spec_hash(),
    ensures
        first_verdict && second_verdict,
        checked.is_available() && again.is_available(),
        again.same_piece(&checked),
        again.spec_block_count() == checked.spec_block_count(),
{
}

/// Blocks that do not overlap may arrive in either order: the buffer comes
/// out byte for byte the same, and so does the verdict of its digest.
pub proof fn lemma_disjoint_blocks_commute(
    buf: Seq<u8>,
    o1: nat,
    b1: Seq<u8>,
    o2: nat,
    b2: Seq<u8>,
)
    requires
        o1 + b1.len() <= buf.len(),
        o2 + b2.len() <= buf.len(),
        o1 + b1.len() <= o2 || o2 + b2.len() <= o1,
    ensures
        splice(splice(buf, o1, b1), o2, b2) == splice(splice(buf, o2, b2), o1, b1),
        sha1_of(splice(splice(buf, o1, b1), o2, b2)) == sha1_of(splice(splice(buf, o2, b2), o1, b1)),
{
    let x1 = splice(buf, o1, b1);
    let x2 = splice(buf, o2, b2);
    let a = splice(x1, o2, b2);
    let b = splice(x2, o1, b1);
    assert(x1.len() == buf.len());
    assert(x2.len() == buf.len());
    assert forall|j: int| 0 <= j < buf.len() implies a[j] == b[j] by {
        if o2 <= j < o2 + b2.len() {
            assert(a[j] == b2[j - o2]);
            assert(x2[j] == b2[j - o2]);
        } else if o1 <= j < o1 + b1.len() {
            assert(b[j] == b1[j - o1]);
            assert(x1[j] == b1[j - o1]);
        } else {
            assert(x1[j] == buf[j]);
            assert(x2[j] == buf[j]);
        }
    }
    assert(a =~= b);
}

} // verus!
