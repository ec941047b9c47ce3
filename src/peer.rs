//! One remote peer as this client sees it: its id, which pieces it has, the
//! choke and interest flags of both sides, and whether a request to it is
//! outstanding. The socket is the caller's; this is the state and the rules.
use vstd::prelude::*;

use crate::bitfield::{get_bit, has_bit, set_bit};
use crate::tracker::{decimal, push_decimal};
use crate::wire::{encode_message, encode_piece_requests, frame, piece_requests, PeerMessage};

verus! {

/// The choke and interest flags of a connection, both ways.
#[derive(Debug, Clone, Copy, PartialEq, Eq, Structural)]
pub struct PeerStatus {
    pub am_choking: bool,
    pub am_interested: bool,
    pub peer_choking: bool,
    pub peer_interested: bool,
}

/// What a request for a piece comes to.
pub enum RequestAction {
    /// First tell the peer that we unchoke it and are interested: send these
    /// bytes, and ask again later.
    SendUnchokeInterested(Vec<u8>),
    /// The peer still chokes us: ask again later.
    WaitForUnchoke,
    /// Send these `request` messages, which ask for the whole piece.
    SendRequests(Vec<u8>),
}

/// A connected peer.
#[derive(Debug)]
pub struct Peer {
    pub id: [u8; 20],
    pub bitfield: Vec<u8>,
    pub status: PeerStatus,
    pub busy: bool,
}

/// The name of the client that a peer id's second and third bytes stand for.
pub open spec fn client_name(a: u8, b: u8) -> Seq<char> {
    match (a, b) {
        (55u8, 84u8) => "aTorrent for Android"@,
        (65u8, 66u8) => "AnyEvent::BitTorrent"@,
        (65u8, 71u8) => "Ares"@,
        (65u8, 126u8) => "Ares"@,
        (65u8, 82u8) => "Arctic"@,
        (65u8, 86u8) => "Avicora"@,
        (65u8, 84u8) => "Artemis"@,
        (65u8, 88u8) => "BitPump"@,
        (65u8, 90u8) => "Azureus"@,
        (66u8, 66u8) => "BitBuddy"@,
        (66u8, 67u8) => "BitComet"@,
        (66u8, 69u8) => "Baretorrent"@,
        (66u8, 70u8) => "Bitflu"@,
        (66u8, 71u8) => "BTG (uses Rasterbar libtorrent)"@,
        (66u8, 76u8) => "BitCometLite (uses 6 digit version number) or BitBlinder"@,
        (66u8, 80u8) => "BitTorrent Pro (Azureus + spyware)"@,
        (66u8, 82u8) => "BitRocket"@,
        (66u8, 83u8) => "BTSlave"@,
        (66u8, 84u8) => "mainline BitTorrent (versions >= 7.9) or BBtor"@,
        (66u8, 116u8) => "Bt"@,
        (66u8, 87u8) => "BitWombat"@,
        (66u8, 88u8) => "~Bittorrent X"@,
        (67u8, 68u8) => "Enhanced CTorrent"@,
        (67u8, 84u8) => "CTorrent"@,
        (68u8, 69u8) => "DelugeTorrent"@,
        (68u8, 80u8) => "Propagate Data Client"@,
        (69u8, 66u8) => "EBit"@,
        (69u8, 83u8) => "electric sheep"@,
        (70u8, 67u8) => "FileCroc"@,
        (70u8, 68u8) => "Free Download Manager (versions >= 5.1.12)"@,
        (70u8, 84u8) => "FoxTorrent"@,
        (70u8, 88u8) => "Freebox BitTorrent"@,
        (71u8, 83u8) => "GSTorrent"@,
        (72u8, 75u8) => "Hekate"@,
        (72u8, 76u8) => "Halite"@,
        (72u8, 77u8) => "hMule (uses Rasterbar libtorrent)"@,
        (72u8, 78u8) => "Hydranode"@,
        (73u8, 76u8) => "iLivid"@,
        (74u8, 83u8) => "Justseed.it client"@,
        (74u8, 84u8) => "JavaTorrent"@,
        (75u8, 71u8) => "KGet"@,
        (75u8, 84u8) => "KTorrent"@,
        (76u8, 67u8) => "LeechCraft"@,
        (76u8, 72u8) => "LH-ABC"@,
        (76u8, 80u8) => "Lphant"@,
        (76u8, 84u8) => "libtorrent"@,
        (108u8, 116u8) => "libTorrent"@,
        (76u8, 87u8) => "LimeWire"@,
        (77u8, 75u8) => "Meerkat"@,
        (77u8, 79u8) => "MonoTorrent"@,
        (77u8, 80u8) => "MooPolice"@,
        (77u8, 82u8) => "Miro"@,
        (77u8, 84u8) => "MoonlightTorrent"@,
        (78u8, 66u8) => "Net::BitTorrent"@,
        (78u8, 88u8) => "Net Transport"@,
        (79u8, 83u8) => "OneSwarm"@,
        (79u8, 84u8) => "OmegaTorrent"@,
        (80u8, 66u8) => "Protocol::BitTorrent"@,
        (80u8, 68u8) => "Pando"@,
        (80u8, 73u8) => "PicoTorrent"@,
        (80u8, 84u8) => "PHPTracker"@,
        (113u8, 66u8) => "qBittorrent"@,
        (81u8, 68u8) => "QQDownload"@,
        (81u8, 84u8) => "Qt 4 Torrent example"@,
        (82u8, 84u8) => "Retriever"@,
        (82u8, 90u8) => "RezTorrent"@,
        (83u8, 126u8) => "Shareaza alpha/beta"@,
        (83u8, 66u8) => "~Swiftbit"@,
        (83u8, 68u8) => "Thunder (aka XùnLéi)"@,
        (83u8, 77u8) => "SoMud"@,
        (83u8, 80u8) => "BitSpirit"@,
        (83u8, 83u8) => "SwarmScope"@,
        (83u8, 84u8) => "SymTorrent"@,
        (115u8, 116u8) => "sharktorrent"@,
        (83u8, 90u8) => "Shareaza"@,
        (84u8, 66u8) => "Torch"@,
        (84u8, 69u8) => "terasaur Seed Bank"@,
        (84u8, 76u8) => "Tribler (versions >= 6.1.0)"@,
        (84u8, 78u8) => "TorrentDotNET"@,
        (84u8, 82u8) => "Transmission"@,
        (84u8, 83u8) => "Torrentstorm"@,
        (84u8, 84u8) => "TuoTu"@,
        (85u8, 76u8) => "uLeecher!"@,
        (85u8, 77u8) => "µTorrent for Mac"@,
        (85u8, 84u8) => "µTorrent"@,
        (86u8, 71u8) => "Vagaa"@,
        (87u8, 68u8) => "WebTorrent Desktop"@,
        (87u8, 84u8) => "BitLet"@,
        (87u8, 87u8) => "WebTorrent"@,
        (87u8, 89u8) => "FireTorrent"@,
        (88u8, 70u8) => "Xfplay"@,
        (88u8, 76u8) => "Xunlei"@,
        (88u8, 83u8) => "XSwifter"@,
        (88u8, 84u8) => "XanTorrent"@,
        (88u8, 88u8) => "Xtorrent"@,
        (90u8, 84u8) => "ZipTorrent"@,
        (90u8, 79u8) => "ZONA ?"@,
        _ => "unknown client"@,
    }
}

fn client_name_str(a: u8, b: u8) -> (r: &'static str)
    ensures
        r@ == client_name(a, b),
{
    match (a, b) {
        (55u8, 84u8) => "aTorrent for Android",
        (65u8, 66u8) => "AnyEvent::BitTorrent",
        (65u8, 71u8) => "Ares",
        (65u8, 126u8) => "Ares",
        (65u8, 82u8) => "Arctic",
        (65u8, 86u8) => "Avicora",
        (65u8, 84u8) => "Artemis",
        (65u8, 88u8) => "BitPump",
        (65u8, 90u8) => "Azureus",
        (66u8, 66u8) => "BitBuddy",
        (66u8, 67u8) => "BitComet",
        (66u8, 69u8) => "Baretorrent",
        (66u8, 70u8) => "Bitflu",
        (66u8, 71u8) => "BTG (uses Rasterbar libtorrent)",
        (66u8, 76u8) => "BitCometLite (uses 6 digit version number) or BitBlinder",
        (66u8, 80u8) => "BitTorrent Pro (Azureus + spyware)",
        (66u8, 82u8) => "BitRocket",
        (66u8, 83u8) => "BTSlave",
        (66u8, 84u8) => "mainline BitTorrent (versions >= 7.9) or BBtor",
        (66u8, 116u8) => "Bt",
        (66u8, 87u8) => "BitWombat",
        (66u8, 88u8) => "~Bittorrent X",
        (67u8, 68u8) => "Enhanced CTorrent",
        (67u8, 84u8) => "CTorrent",
        (68u8, 69u8) => "DelugeTorrent",
        (68u8, 80u8) => "Propagate Data Client",
        (69u8, 66u8) => "EBit",
        (69u8, 83u8) => "electric sheep",
        (70u8, 67u8) => "FileCroc",
        (70u8, 68u8) => "Free Download Manager (versions >= 5.1.12)",
        (70u8, 84u8) => "FoxTorrent",
        (70u8, 88u8) => "Freebox BitTorrent",
        (71u8, 83u8) => "GSTorrent",
        (72u8, 75u8) => "Hekate",
        (72u8, 76u8) => "Halite",
        (72u8, 77u8) => "hMule (uses Rasterbar libtorrent)",
        (72u8, 78u8) => "Hydranode",
        (73u8, 76u8) => "iLivid",
        (74u8, 83u8) => "Justseed.it client",
        (74u8, 84u8) => "JavaTorrent",
        (75u8, 71u8) => "KGet",
        (75u8, 84u8) => "KTorrent",
        (76u8, 67u8) => "LeechCraft",
        (76u8, 72u8) => "LH-ABC",
        (76u8, 80u8) => "Lphant",
        (76u8, 84u8) => "libtorrent",
        (108u8, 116u8) => "libTorrent",
        (76u8, 87u8) => "LimeWire",
        (77u8, 75u8) => "Meerkat",
        (77u8, 79u8) => "MonoTorrent",
        (77u8, 80u8) => "MooPolice",
        (77u8, 82u8) => "Miro",
        (77u8, 84u8) => "MoonlightTorrent",
        (78u8, 66u8) => "Net::BitTorrent",
        (78u8, 88u8) => "Net Transport",
        (79u8, 83u8) => "OneSwarm",
        (79u8, 84u8) => "OmegaTorrent",
        (80u8, 66u8) => "Protocol::BitTorrent",
        (80u8, 68u8) => "Pando",
        (80u8, 73u8) => "PicoTorrent",
        (80u8, 84u8) => "PHPTracker",
        (113u8, 66u8) => "qBittorrent",
        (81u8, 68u8) => "QQDownload",
        (81u8, 84u8) => "Qt 4 Torrent example",
        (82u8, 84u8) => "Retriever",
        (82u8, 90u8) => "RezTorrent",
        (83u8, 126u8) => "Shareaza alpha/beta",
        (83u8, 66u8) => "~Swiftbit",
        (83u8, 68u8) => "Thunder (aka XùnLéi)",
        (83u8, 77u8) => "SoMud",
        (83u8, 80u8) => "BitSpirit",
        (83u8, 83u8) => "SwarmScope",
        (83u8, 84u8) => "SymTorrent",
        (115u8, 116u8) => "sharktorrent",
        (83u8, 90u8) => "Shareaza",
        (84u8, 66u8) => "Torch",
        (84u8, 69u8) => "terasaur Seed Bank",
        (84u8, 76u8) => "Tribler (versions >= 6.1.0)",
        (84u8, 78u8) => "TorrentDotNET",
        (84u8, 82u8) => "Transmission",
        (84u8, 83u8) => "Torrentstorm",
        (84u8, 84u8) => "TuoTu",
        (85u8, 76u8) => "uLeecher!",
        (85u8, 77u8) => "µTorrent for Mac",
        (85u8, 84u8) => "µTorrent",
        (86u8, 71u8) => "Vagaa",
        (87u8, 68u8) => "WebTorrent Desktop",
        (87u8, 84u8) => "BitLet",
        (87u8, 87u8) => "WebTorrent",
        (87u8, 89u8) => "FireTorrent",
        (88u8, 70u8) => "Xfplay",
        (88u8, 76u8) => "Xunlei",
        (88u8, 83u8) => "XSwifter",
        (88u8, 84u8) => "XanTorrent",
        (88u8, 88u8) => "Xtorrent",
        (90u8, 84u8) => "ZipTorrent",
        (90u8, 79u8) => "ZONA ?",
        _ => "unknown client",
    }
}

/// What a message does to the state of the peer that sent it.
pub open spec fn received(old: Peer, new: Peer, m: PeerMessage) -> bool {
    match m {
        PeerMessage::Choke => new == Peer { status: PeerStatus { peer_choking: true, ..old.status }, ..old },
        PeerMessage::Unchoke => new == Peer {
            status: PeerStatus { peer_choking: false, ..old.status },
            busy: false,
            ..old
        },
        PeerMessage::Interested => new == Peer {
            status: PeerStatus { peer_interested: true, ..old.status },
            ..old
        },
        PeerMessage::NotInterested => new == Peer {
            status: PeerStatus { peer_interested: false, ..old.status },
            ..old
        },
        PeerMessage::Have(i) => {
            &&& new.id == old.id
            &&& new.status == old.status
            &&& new.busy == old.busy
            &&& new.bitfield@.len() == old.bitfield@.len()
            &&& forall|j: nat| #[trigger] has_bit(new.bitfield@, j) == (has_bit(old.bitfield@, j)
                || (j == i && (i as nat) / 8 < old.bitfield@.len()))
        },
        PeerMessage::Bitfield(f) => {
            &&& new.id == old.id
            &&& new.status == old.status
            &&& new.busy == old.busy
            &&& new.bitfield@ == f@
        },
        _ => new == old,
    }
}

impl Peer {
    /// A peer that has just answered the handshake: it has no pieces yet,
    /// both sides choke and neither is interested.
    pub fn new(id: [u8; 20], piece_count: usize) -> (p: Peer)
        ensures
            p.id == id,
            p.bitfield@.len() == piece_count,
            forall|j: nat| !#[trigger] has_bit(p.bitfield@, j),
            p.status == (PeerStatus {
                am_choking: true,
                am_interested: false,
                peer_choking: true,
                peer_interested: false,
            }),
            !p.busy,
    {
        let mut bitfield: Vec<u8> = Vec::new();
        let mut k: usize = 0;
        while k < piece_count
            invariant
                k <= piece_count,
                bitfield@.len() == k,
                forall|t: int| 0 <= t < k ==> bitfield@[t] == 0,
            decreases piece_count - k,
        {
            bitfield.push(0);
            k = k + 1;
        }
        proof {
            assert forall|j: nat| !#[trigger] has_bit(bitfield@, j) by {
                if j / 8 < bitfield@.len() {
                    crate::bitfield::lemma_zero_byte((j % 8) as u8);
                }
            }
        }
        Peer {
            id,
            bitfield,
            status: PeerStatus {
                am_choking: true,
                am_interested: false,
                peer_choking: true,
                peer_interested: false,
            },
            busy: false,
        }
    }

    /// Whether the peer has said that it has piece `piece_number`.
    pub fn has_piece(&self, piece_number: usize) -> (r: bool)
        ensures
            r == has_bit(self.bitfield@, piece_number as nat),
    {
        get_bit(self.bitfield.as_slice(), piece_number)
    }

    /// Records that the peer has piece `piece_number`; a number past the
    /// peer's bitfield is not recorded.
    pub fn add_piece_to_bitfield(&mut self, piece_number: u32)
        ensures
            final(self).id == old(self).id,
            final(self).status == old(self).status,
            final(self).busy == old(self).busy,
            final(self).bitfield@.len() == old(self).bitfield@.len(),
            forall|j: nat| #[trigger] has_bit(final(self).bitfield@, j) == (has_bit(old(self).bitfield@, j)
                || (j == piece_number && (piece_number as nat) / 8 < old(self).bitfield@.len())),
    {
        let i = piece_number as usize;
        if i / 8 < self.bitfield.len() {
            set_bit(&mut self.bitfield, i);
        }
    }

    /// Applies a message from the peer to its state: a choke or unchoke sets
    /// whether it chokes us (an unchoke also ends the wait for it), interest
    /// is recorded, `have` adds a piece and `bitfield` replaces them all. The
    /// other messages change nothing here.
    pub fn receive(&mut self, m: &PeerMessage)
        ensures
            received(*old(self), *final(self), *m),
    {
        match m {
            PeerMessage::Choke => {
                self.status.peer_choking = true;
            },
            PeerMessage::Unchoke => {
                self.status.peer_choking = false;
                self.busy = false;
            },
            PeerMessage::Interested => {
                self.status.peer_interested = true;
            },
            PeerMessage::NotInterested => {
                self.status.peer_interested = false;
            },
            PeerMessage::Have(i) => {
                self.add_piece_to_bitfield(*i);
            },
            PeerMessage::Bitfield(f) => {
                self.bitfield = f.clone();
            },
            _ => {},
        }
    }

    /// Decides how to ask the peer for piece `piece_number` of
    /// `piece_length` bytes. While we are not interested and the peer chokes
    /// us, we first unchoke it and say we are interested, and wait. While it
    /// still chokes us, we wait. Else we ask for the whole piece at once. In
    /// the first and last case the peer is busy until it answers.
    pub fn request(&mut self, piece_number: u32, piece_length: u32) -> (r: RequestAction)
        ensures
            final(self).id == old(self).id,
            final(self).bitfield == old(self).bitfield,
            !old(self).status.am_interested && old(self).status.peer_choking ==> {
                &&& r matches RequestAction::SendUnchokeInterested(bytes) && bytes@ == frame(
                    PeerMessage::Unchoke,
                ) + frame(PeerMessage::Interested)
                &&& final(self).status == PeerStatus {
                    am_choking: false,
                    am_interested: true,
                    ..old(self).status
                }
                &&& final(self).busy
            },
            old(self).status.am_interested && old(self).status.peer_choking ==> {
                &&& r is WaitForUnchoke
                &&& *final(self) == *old(self)
            },
            !old(self).status.peer_choking ==> {
                &&& r matches RequestAction::SendRequests(bytes) && bytes@ == piece_requests(
                    piece_number,
                    piece_length as nat,
                )
                &&& final(self).status == old(self).status
                &&& final(self).busy
            },
    {
        if !self.status.am_interested && self.status.peer_choking {
            let mut bytes = encode_message(&PeerMessage::Unchoke);
            let mut more = encode_message(&PeerMessage::Interested);
            bytes.append(&mut more);
            self.status.am_choking = false;
            self.status.am_interested = true;
            self.busy = true;
            return RequestAction::SendUnchokeInterested(bytes);
        }
        if self.status.peer_choking {
            return RequestAction::WaitForUnchoke;
        }
        self.busy = true;
        RequestAction::SendRequests(encode_piece_requests(piece_number, piece_length))
    }

    /// The peer's id for display: its first eight bytes as text, then the
    /// other twelve as decimal numbers.
    pub fn id_string(&self) -> (r: String)
        ensures
            r@ == id_text(utf8_lossy(self.id@.subrange(0, 8)), self.id@),
    {
        let prefix = lossy_text(vstd::slice::slice_subrange(self.id.as_slice(), 0, 8));
        format_peer_id(prefix.as_str(), &self.id)
    }

    /// The name of the client that the peer's id names, by the usual
    /// two-letter codes.
    pub fn try_parse_client(&self) -> (r: String)
        ensures
            r@ == client_name(self.id@[1], self.id@[2]),
    {
        String::from_str(client_name_str(self.id[1], self.id[2]))
    }
}

/// The text that `b` decodes to, each invalid sequence replaced.
pub uninterp spec fn utf8_lossy(b: Seq<u8>) -> Seq<char>;

/// Relies on `String::from_utf8_lossy`: the text of `b` with each invalid
/// UTF-8 sequence replaced; it depends on `b` alone.
#[verifier::external_body]
fn lossy_text(b: &[u8]) -> (r: String)
    ensures
        r@ == utf8_lossy(b@),
{
    String::from_utf8_lossy(b).into_owned()
}

/// The numbers of `bytes` in decimal, separated by dots.
pub open spec fn dotted(bytes: Seq<u8>) -> Seq<char>
    decreases bytes.len(),
{
    if bytes.len() == 0 {
        seq![]
    } else if bytes.len() == 1 {
        decimal(bytes[0] as nat)
    } else {
        dotted(bytes.drop_last()) + seq!['.'] + decimal(bytes.last() as nat)
    }
}

/// A peer id for display, its first eight bytes given as `prefix`.
pub open spec fn id_text(prefix: Seq<char>, id: Seq<u8>) -> Seq<char> {
    prefix + seq![':'] + dotted(id.subrange(8, 20))
}

/// A peer id for display: `prefix`, a colon, and the last twelve bytes of
/// `id` as decimal numbers separated by dots.
pub fn format_peer_id(prefix: &str, id: &[u8; 20]) -> (r: String)
    ensures
        r@ == id_text(prefix@, id@),
{
    let colon = ":";
    let dot = ".";
    proof {
        reveal_strlit(":");
        reveal_strlit(".");
        assert(colon@ =~= seq![':']);
        assert(dot@ =~= seq!['.']);
    }
    let mut s = String::from_str(prefix);
    s.append(colon);
    push_decimal(&mut s, id[8] as u64);
    proof {
        assert(id@.subrange(8, 9) =~= seq![id@[8]]);
        assert(s@ == prefix@ + seq![':'] + dotted(id@.subrange(8, 9)));
    }
    let mut k: usize = 9;
    while k < 20
        invariant
            9 <= k <= 20,
            dot@ == seq!['.'],
            s@ == prefix@ + seq![':'] + dotted(id@.subrange(8, k as int)),
        decreases 20 - k,
    {
        s.append(dot);
        push_decimal(&mut s, id[k] as u64);
        proof {
            assert(id@.subrange(8, k + 1).drop_last() =~= id@.subrange(8, k as int));
        }
        k = k + 1;
    }
    s
}

} // verus!
