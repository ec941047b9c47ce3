//! What the client tells a tracker and reads back from it: the announce
//! URL with the download's progress, and the compact list of peers.
use vstd::prelude::*;

use crate::content::{Content, Piece};

verus! {

/// The decimal digits of `n`, most significant first.
pub open spec fn decimal(n: nat) -> Seq<char>
    decreases n,
{
    if n < 10 {
        seq![digit_char(n)]
    } else {
        decimal(n / 10) + seq![digit_char(n % 10)]
    }
}

/// The character of the decimal digit `d`.
pub open spec fn digit_char(d: nat) -> char {
    if d == 0 {
        '0'
    } else if d == 1 {
        '1'
    } else if d == 2 {
        '2'
    } else if d == 3 {
        '3'
    } else if d == 4 {
        '4'
    } else if d == 5 {
        '5'
    } else if d == 6 {
        '6'
    } else if d == 7 {
        '7'
    } else if d == 8 {
        '8'
    } else {
        '9'
    }
}

fn digit_str(d: u64) -> (r: &'static str)
    requires
        d < 10,
    ensures
        r@ == seq![digit_char(d as nat)],
{
    let digits = "0123456789";
    proof {
        reveal_strlit("0123456789");
    }
    digits.substring_ascii(d as usize, d as usize + 1)
}

/// Appends the decimal digits of `n`.
pub fn push_decimal(s: &mut String, n: u64)
    ensures
        final(s)@ == old(s)@ + decimal(n as nat),
    decreases n,
{
    if n >= 10 {
        push_decimal(s, n / 10);
    }
    s.append(digit_str(n % 10));
    proof {
        if n >= 10 {
            assert(final(s)@ =~= old(s)@ + decimal(n as nat)) by {
                assert(decimal(n as nat) == decimal((n / 10) as nat) + seq![digit_char((n % 10) as nat)]);
            }
        }
    }
}

/// The compact peer list of a tracker reply: six bytes per peer, four of
/// IPv4 address and two of port, most significant first. Bytes past the
/// last whole entry are ignored.
pub fn parse_compact_peers(bytes: &[u8]) -> (r: Vec<([u8; 4], u16)>)
    ensures
        r@.len() == bytes@.len() / 6,
        forall|k: int|
            0 <= k < r@.len() ==> {
                let (ip, port) = #[trigger] r@[k];
                &&& ip@ == bytes@.subrange(6 * k, 6 * k + 4)
                &&& port == bytes@[6 * k + 4] * 256 + bytes@[6 * k + 5]
            },
{
    let len = bytes.len();
    let n = len / 6;
    let mut out: Vec<([u8; 4], u16)> = Vec::new();
    let mut k: usize = 0;
    while k < n
        invariant
            len == bytes@.len(),
            n == bytes@.len() / 6,
            k <= n,
            out@.len() == k,
            forall|j: int|
                0 <= j < k ==> {
                    let (ip, port) = #[trigger] out@[j];
                    &&& ip@ == bytes@.subrange(6 * j, 6 * j + 4)
                    &&& port == bytes@[6 * j + 4] * 256 + bytes@[6 * j + 5]
                },
        decreases n - k,
    {
        assert(6 * k + 6 <= bytes@.len()) by (nonlinear_arith)
            requires
                k < n,
                n == bytes@.len() / 6,
        ;
        let i = 6 * k;
        let ip = [bytes[i], bytes[i + 1], bytes[i + 2], bytes[i + 3]];
        let port = (bytes[i + 4] as u16) * 256 + (bytes[i + 5] as u16);
        assert(ip@ =~= bytes@.subrange(6 * k, 6 * k + 4));
        out.push((ip, port));
        k = k + 1;
    }
    out
}

/// The bytes of the first `k` pieces that are here, and of those that are
/// not.
pub open spec fn progress(pieces: Seq<Piece>, k: int) -> (nat, nat)
    decreases k,
{
    if k <= 0 {
        (0, 0)
    } else {
        let (d, l) = progress(pieces, k - 1);
        if pieces[k - 1].is_available() {
            (d + pieces[k - 1].spec_size(), l)
        } else {
            (d, l + pieces[k - 1].spec_size())
        }
    }
}

/// How many bytes are downloaded and how many are left, counted by pieces.
pub fn progress_totals(content: &Content) -> (r: (u64, u64))
    requires
        content.pieces@.len() <= u32::MAX,
    ensures
        r.0 == progress(content.pieces@, content.pieces@.len() as int).0,
        r.1 == progress(content.pieces@, content.pieces@.len() as int).1,
{
    let mut downloaded: u64 = 0;
    let mut left: u64 = 0;
    let mut i: usize = 0;
    while i < content.pieces.len()
        invariant
            i <= content.pieces@.len() <= u32::MAX,
            downloaded == progress(content.pieces@, i as int).0,
            left == progress(content.pieces@, i as int).1,
            downloaded + left <= i * 0x1_0000_0000,
        decreases content.pieces@.len() - i,
    {
        let size = content.pieces[i].size() as u64;
        assert(downloaded + left + size <= (i + 1) * 0x1_0000_0000) by (nonlinear_arith)
            requires
                downloaded + left <= i * 0x1_0000_0000,
                size < 0x1_0000_0000,
        ;
        assert((i + 1) * 0x1_0000_0000 <= 0x1_0000_0000 * 0x1_0000_0000) by (nonlinear_arith)
            requires
                i + 1 <= 0x1_0000_0000,
        ;
        if content.pieces[i].is_available_now() {
            downloaded = downloaded + size;
        } else {
            left = left + size;
        }
        i = i + 1;
    }
    (downloaded, left)
}

/// Whether `s` holds the character `c`.
pub open spec fn contains_char(s: Seq<char>, c: char) -> bool {
    exists|i: int| 0 <= i < s.len() && s[i] == c
}

/// The fixed tail of an announce query.
pub open spec fn query_tail() -> Seq<char> {
    "&corrupt=0&key=CFA4D362&event=started&numwant=200&compact=1&no_peer_id=1"@
}

/// The announce URL for `tracker`: the query joins the tracker's own with
/// `&`, else starts it with `?`, and gives the info hash (already
/// percent-encoded), the port, the bytes uploaded, downloaded and left, and
/// asks for a compact list of peers.
pub open spec fn announce_url_of(tracker: Seq<char>, info_hash: Seq<char>, downloaded: nat, left: nat)
    -> Seq<char> {
    tracker + (if contains_char(tracker, '?') {
        seq!['&']
    } else {
        seq!['?']
    }) + "info_hash="@ + info_hash + "&port=50658&uploaded=0&downloaded="@ + decimal(downloaded)
        + "&left="@ + decimal(left) + query_tail()
}

fn has_question_mark(s: &str) -> (r: bool)
    ensures
        r == contains_char(s@, '?'),
{
    let n = s.unicode_len();
    let mut i: usize = 0;
    while i < n
        invariant
            n == s@.len(),
            i <= n,
            forall|j: int| 0 <= j < i ==> s@[j] != '?',
        decreases n - i,
    {
        if s.get_char(i) == '?' {
            return true;
        }
        i = i + 1;
    }
    false
}

/// The announce URL for `tracker`, as [`announce_url_of`] states it.
pub fn announce_url(tracker: &str, info_hash: &str, downloaded: u64, left: u64) -> (r: String)
    ensures
        r@ == announce_url_of(tracker@, info_hash@, downloaded as nat, left as nat),
{
    let mut s = String::from_str(tracker);
    if has_question_mark(tracker) {
        s.append("&");
    } else {
        s.append("?");
    }
    s.append("info_hash=");
    s.append(info_hash);
    s.append("&port=50658&uploaded=0&downloaded=");
    push_decimal(&mut s, downloaded);
    s.append("&left=");
    push_decimal(&mut s, left);
    s.append("&corrupt=0&key=CFA4D362&event=started&numwant=200&compact=1&no_peer_id=1");
    proof {
        reveal_strlit("&");
        reveal_strlit("?");
    }
    assert(s@ =~= announce_url_of(tracker@, info_hash@, downloaded as nat, left as nat));
    s
}

} // verus!
