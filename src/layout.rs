//! Where a piece lies in the file table. The download is one flat run of
//! bytes, the files laid end to end; a piece covers one stretch of it and so
//! touches one or more files.
use vstd::prelude::*;

use crate::blocks::sum;

verus! {

/// The lengths of the files of a table.
pub open spec fn file_lens(files: Seq<(String, usize)>) -> Seq<nat> {
    files.map_values(|f: (String, usize)| f.1 as nat)
}

/// The total length of the first `k` lengths.
pub open spec fn cum(lens: Seq<nat>, k: int) -> nat
    decreases k,
{
    if k <= 0 || lens.len() == 0 {
        0
    } else if k > lens.len() {
        cum(lens, lens.len() as int)
    } else {
        cum(lens, k - 1) + lens[k - 1]
    }
}

/// The total length of a table.
pub open spec fn total(files: Seq<(String, usize)>) -> nat {
    cum(file_lens(files), files.len() as int)
}

/// File `f` is the first one whose end, in the flat run, reaches `x`.
pub open spec fn reaches_first(files: Seq<(String, usize)>, f: int, x: nat) -> bool {
    &&& 0 <= f < files.len()
    &&& x <= cum(file_lens(files), f + 1)
    &&& (f == 0 || cum(file_lens(files), f) < x)
}

/// Where piece `piece` starts in the flat run.
pub open spec fn piece_start(piece: nat, piece_length: nat) -> nat {
    piece * piece_length
}

/// Where piece `piece` ends in the flat run: a whole piece length on, or the
/// end of the download for the last piece.
pub open spec fn piece_end(piece: nat, piece_length: nat, length: nat) -> nat {
    if (piece + 1) * piece_length > length {
        length
    } else {
        (piece + 1) * piece_length
    }
}

/// `segs` and `offset` say where piece `piece` lies in `files`: `segs` are the
/// files from the first one that the piece touches to the last, and `offset`
/// is where the piece starts inside the first of them.
pub open spec fn piece_layout(
    files: Seq<(String, usize)>,
    piece: nat,
    piece_length: nat,
    length: nat,
    offset: nat,
    segs: Seq<(String, usize)>,
) -> bool {
    exists|first: int, last: int|
        {
            &&& reaches_first(files, first, piece_start(piece, piece_length))
            &&& reaches_first(files, last, piece_end(piece, piece_length, length))
            &&& first <= last
            &&& segs == files.subrange(first, last + 1)
            &&& offset + cum(file_lens(files), first) == piece_start(piece, piece_length)
        }
}

/// How many bytes of a piece go to each of its files: from `offset` in the
/// first, from the start in the others, `left` bytes in all.
pub open spec fn seg_lens(lens: Seq<nat>, offset: nat, left: nat) -> Seq<nat>
    decreases lens.len(),
{
    if lens.len() == 0 {
        seq![]
    } else {
        let room = if lens[0] >= offset {
            (lens[0] - offset) as nat
        } else {
            0
        };
        let l = if room < left {
            room
        } else {
            left
        };
        seq![l] + seg_lens(lens.drop_first(), 0, (left - l) as nat)
    }
}

/// The stretches of the flat run that the segments of a piece cover, as
/// (start, length), when its first file starts at `base`.
pub open spec fn flat_segments(lens: Seq<nat>, offset: nat, left: nat, base: nat) -> Seq<(nat, nat)>
    decreases lens.len(),
{
    if lens.len() == 0 {
        seq![]
    } else {
        let l = seg_lens(lens, offset, left)[0];
        seq![(base + offset, l)] + flat_segments(
            lens.drop_first(),
            0,
            (left - l) as nat,
            base + lens[0],
        )
    }
}

/// `segs` lie end to end and cover exactly `[a, b)`.
pub open spec fn tiles(segs: Seq<(nat, nat)>, a: nat, b: nat) -> bool
    decreases segs.len(),
{
    if segs.len() == 0 {
        a == b
    } else {
        segs[0].0 == a && a + segs[0].1 <= b && tiles(segs.drop_first(), a + segs[0].1, b)
    }
}

pub proof fn lemma_cum_step(lens: Seq<nat>, k: int)
    requires
        0 <= k < lens.len(),
    ensures
        cum(lens, k + 1) == cum(lens, k) + lens[k],
{
}

pub proof fn lemma_cum_mono(lens: Seq<nat>, j: int, k: int)
    requires
        0 <= j <= k <= lens.len(),
    ensures
        cum(lens, j) <= cum(lens, k),
    decreases k - j,
{
    if j < k {
        lemma_cum_mono(lens, j, k - 1);
    }
}

proof fn lemma_cum_drop(lens: Seq<nat>, k: int)
    requires
        0 <= k < lens.len(),
    ensures
        cum(lens, k + 1) == lens[0] + cum(lens.drop_first(), k),
    decreases k,
{
    let rest = lens.drop_first();
    lemma_cum_step(lens, k);
    if k > 0 {
        lemma_cum_drop(lens, k - 1);
        lemma_cum_step(rest, k - 1);
    }
}

/// The segments of a piece lie end to end from where it starts, their lengths
/// add up to `left`, provided that every file but the last ends before the
/// piece does and the last one reaches its end.
proof fn lemma_flat_segments_tile(lens: Seq<nat>, offset: nat, left: nat, base: nat)
    requires
        lens.len() >= 1,
        offset <= lens[0],
        forall|k: int| 0 <= k < lens.len() - 1 ==> #[trigger] cum(lens, k + 1) <= offset + left,
        offset + left <= cum(lens, lens.len() as int),
    ensures
        tiles(flat_segments(lens, offset, left, base), base + offset, base + offset + left),
        sum(seg_lens(lens, offset, left)) == left,
    decreases lens.len(),
{
    let l = seg_lens(lens, offset, left)[0];
    let rest = lens.drop_first();
    let segs = flat_segments(lens, offset, left, base);
    lemma_cum_step(lens, 0);
    assert(segs[0] == (base + offset, l));
    assert(segs.drop_first() =~= flat_segments(rest, 0, (left - l) as nat, base + lens[0]));
    assert(seg_lens(lens, offset, left).drop_first() =~= seg_lens(rest, 0, (left - l) as nat));
    if lens.len() == 1 {
        assert(cum(lens, 1) == lens[0]);
        assert(l == left);
        assert(segs.drop_first() =~= Seq::<(nat, nat)>::empty());
        assert(tiles(segs.drop_first(), base + offset + l, base + offset + left));
        assert(seg_lens(lens, offset, left).drop_first() =~= Seq::<nat>::empty());
        assert(sum(seg_lens(lens, offset, left).drop_first()) == 0);
    } else {
        assert(cum(lens, 1) <= offset + left);
        assert(l == lens[0] - offset);
        assert forall|k: int| 0 <= k < rest.len() - 1 implies #[trigger] cum(rest, k + 1) <= 0 + (
        left - l) by {
            lemma_cum_drop(lens, k + 1);
        }
        lemma_cum_drop(lens, rest.len() as int);
        lemma_flat_segments_tile(rest, 0, (left - l) as nat, base + lens[0]);
        assert(tiles(segs.drop_first(), base + offset + l, base + offset + left));
    }
}

proof fn lemma_seg_lens_len(lens: Seq<nat>, offset: nat, left: nat)
    ensures
        seg_lens(lens, offset, left).len() == lens.len(),
    decreases lens.len(),
{
    if lens.len() > 0 {
        let l = seg_lens(lens, offset, left)[0];
        lemma_seg_lens_len(lens.drop_first(), 0, (left - l) as nat);
    }
}

/// When every file has bytes, every segment after the first takes some:
/// the files in the middle are taken whole, and the last one holds the end.
proof fn lemma_seg_lens_positive(lens: Seq<nat>, offset: nat, left: nat)
    requires
        lens.len() >= 1,
        offset <= lens[0],
        forall|j: int| 0 <= j < lens.len() ==> #[trigger] lens[j] > 0,
        forall|k: int| 0 <= k < lens.len() - 1 ==> #[trigger] cum(lens, k + 1) <= offset + left,
        lens.len() >= 2 ==> cum(lens, lens.len() - 1) < offset + left,
    ensures
        forall|k: int| 1 <= k < lens.len() ==> #[trigger] seg_lens(lens, offset, left)[k] > 0,
    decreases lens.len(),
{
    if lens.len() >= 2 {
        let rest = lens.drop_first();
        let l = seg_lens(lens, offset, left)[0];
        lemma_cum_step(lens, 0);
        assert(cum(lens, 1) <= offset + left);
        assert(l == lens[0] - offset);
        assert(seg_lens(lens, offset, left).drop_first() =~= seg_lens(rest, 0, (left - l) as nat));
        lemma_cum_drop(lens, rest.len() as int - 1 + 0);
        lemma_cum_mono(lens, 1, lens.len() - 1);
        assert(left - l > 0);
        assert(seg_lens(rest, 0, (left - l) as nat)[0] > 0) by {
            assert(rest[0] > 0);
        }
        if rest.len() >= 2 {
            assert forall|k: int| 0 <= k < rest.len() - 1 implies #[trigger] cum(rest, k + 1) <= 0
                + (left - l) by {
                lemma_cum_drop(lens, k + 1);
            }
            lemma_cum_drop(lens, rest.len() - 1);
            assert forall|j: int| 0 <= j < rest.len() implies #[trigger] rest[j] > 0 by {
                assert(rest[j] == lens[j + 1]);
            }
            lemma_seg_lens_positive(rest, 0, (left - l) as nat);
        }
        lemma_seg_lens_len(lens, offset, left);
        lemma_seg_lens_len(rest, 0, (left - l) as nat);
        assert forall|k: int| 1 <= k < lens.len() implies #[trigger] seg_lens(lens, offset, left)[k]
            > 0 by {
            assert(seg_lens(lens, offset, left)[k] == seg_lens(rest, 0, (left - l) as nat)[k - 1]);
        }
    }
}

proof fn lemma_file_lens_subrange(files: Seq<(String, usize)>, first: int, last: int, k: int)
    requires
        0 <= first <= last < files.len(),
        0 <= k <= last - first + 1,
    ensures
        cum(file_lens(files), first) + cum(file_lens(files.subrange(first, last + 1)), k) == cum(
            file_lens(files),
            first + k,
        ),
    decreases k,
{
    if k > 0 {
        lemma_file_lens_subrange(files, first, last, k - 1);
        lemma_cum_step(file_lens(files.subrange(first, last + 1)), k - 1);
        lemma_cum_step(file_lens(files), first + k - 1);
    }
}

/// The segments that the layout of a piece gives lie end to end and cover
/// exactly the piece's stretch of the flat run, `[piece · piece_length,
/// piece_end)`; their lengths add up to the piece's size.
pub proof fn lemma_layout_covers_piece(
    files: Seq<(String, usize)>,
    piece: nat,
    piece_length: nat,
    length: nat,
    offset: nat,
    segs: Seq<(String, usize)>,
)
    requires
        piece_layout(files, piece, piece_length, length, offset, segs),
        piece_length > 0,
        piece_start(piece, piece_length) < length,
        total(files) == length,
    ensures
        ({
            let a = piece_start(piece, piece_length);
            let b = piece_end(piece, piece_length, length);
            &&& tiles(flat_segments(file_lens(segs), offset, (b - a) as nat, (a - offset) as nat), a, b)
            &&& sum(seg_lens(file_lens(segs), offset, (b - a) as nat)) == b - a
            &&& (forall|j: int| 0 <= j < segs.len() ==> (#[trigger] segs[j]).1 > 0) ==> forall|k: int|
                1 <= k < segs.len() ==> #[trigger] seg_lens(file_lens(segs), offset, (b - a) as nat)[k]
                    > 0
        }),
{
    let a = piece_start(piece, piece_length);
    let b = piece_end(piece, piece_length, length);
    let (first, last) = choose|first: int, last: int|
        {
            &&& reaches_first(files, first, a)
            &&& reaches_first(files, last, b)
            &&& first <= last
            &&& segs == files.subrange(first, last + 1)
            &&& offset + cum(file_lens(files), first) == a
        };
    let lens = file_lens(segs);
    let all = file_lens(files);
    let base = cum(all, first);
    assert(a < b) by (nonlinear_arith)
        requires
            a == piece * piece_length,
            a < length,
            piece_length > 0,
            b == (if (piece + 1) * piece_length > length {
                length
            } else {
                (piece + 1) * piece_length
            }),
    ;
    lemma_file_lens_subrange(files, first, last, 1);
    lemma_cum_step(all, first);
    lemma_cum_step(lens, 0);
    assert(offset <= lens[0]);
    assert forall|k: int| 0 <= k < lens.len() - 1 implies #[trigger] cum(lens, k + 1) <= offset + (b
        - a) by {
        lemma_file_lens_subrange(files, first, last, k + 1);
        lemma_cum_mono(all, first + k + 1, last);
    }
    lemma_file_lens_subrange(files, first, last, lens.len() as int);
    lemma_flat_segments_tile(lens, offset, (b - a) as nat, base);
    if forall|j: int| 0 <= j < segs.len() ==> (#[trigger] segs[j]).1 > 0 {
        assert forall|j: int| 0 <= j < lens.len() implies #[trigger] lens[j] > 0 by {
            assert(lens[j] == segs[j].1);
        }
        if lens.len() >= 2 {
            lemma_file_lens_subrange(files, first, last, lens.len() - 1);
            assert(cum(all, last) < b);
        }
        lemma_seg_lens_positive(lens, offset, (b - a) as nat);
    }
}

} // verus!
