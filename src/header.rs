//! Header blocks and cards, and the keyword dictionary that they accumulate into.

use vstd::prelude::*;
use vstd::slice::slice_subrange;
use vstd::utf8::{decode_utf8, valid_utf8};

use crate::text::{trim_ws, trimmed, utf8_text};
use crate::FitsError;

verus! {

/// Bytes in a block, the unit of alignment of a FITS file.
pub const BLOCK_LEN: usize = 2880;

/// Bytes in one header card.
pub const CARD_LEN: usize = 80;

/// Cards in one header block.
pub const CARDS_PER_BLOCK: usize = 36;

/// The dictionary that a sequence of (keyword, value) pairs denotes when each
/// pair is inserted in turn: a later pair overrides an earlier one.
pub open spec fn pairs_map(es: Seq<(String, String)>) -> Map<Seq<char>, Seq<char>>
    decreases es.len(),
{
    if es.len() == 0 {
        Map::empty()
    } else {
        pairs_map(es.drop_last()).insert(es.last().0@, es.last().1@)
    }
}

/// A header keyword dictionary: trimmed keyword to trimmed raw value.
#[derive(Debug, Clone)]
pub struct Metadata {
    pairs: Vec<(String, String)>,
}

impl View for Metadata {
    type V = Map<Seq<char>, Seq<char>>;

    closed spec fn view(&self) -> Map<Seq<char>, Seq<char>> {
        pairs_map(self.pairs@)
    }
}

proof fn lemma_pairs_map_push(es: Seq<(String, String)>, e: (String, String))
    ensures
        pairs_map(es.push(e)) == pairs_map(es).insert(e.0@, e.1@),
{
    assert(es.push(e).drop_last() =~= es);
}

/// Pairs after index `i` that carry another keyword do not change what `k` maps to.
proof fn lemma_pairs_map_tail(es: Seq<(String, String)>, i: int, k: Seq<char>)
    requires
        0 <= i <= es.len(),
        forall|j: int| i <= j < es.len() ==> (#[trigger] es[j]).0@ != k,
    ensures
        pairs_map(es).contains_key(k) == pairs_map(es.take(i)).contains_key(k),
        pairs_map(es).contains_key(k) ==> pairs_map(es)[k] == pairs_map(es.take(i))[k],
    decreases es.len(),
{
    if es.len() == i {
        assert(es.take(i) =~= es);
    } else {
        assert(es.drop_last().take(i) =~= es.take(i));
        assert(es.last() == es[es.len() - 1]);
        lemma_pairs_map_tail(es.drop_last(), i, k);
    }
}

impl Metadata {
    /// An empty dictionary.
    pub fn new() -> (r: Metadata)
        ensures
            r@ == Map::<Seq<char>, Seq<char>>::empty(),
    {
        Metadata { pairs: Vec::new() }
    }

    /// Sets `key` to `value`, replacing any earlier value of `key`.
    pub fn insert(&mut self, key: String, value: String)
        ensures
            final(self)@ == old(self)@.insert(key@, value@),
    {
        proof {
            lemma_pairs_map_push(self.pairs@, (key, value));
        }
        self.pairs.push((key, value));
    }

    /// The value of `key`, if the dictionary holds it.
    pub fn get(&self, key: &str) -> (r: Option<&String>)
        ensures
            r is Some <==> self@.contains_key(key@),
            r matches Some(v) ==> v@ == self@[key@],
    {
        let k = key.to_string();
        let mut i: usize = self.pairs.len();
        while i > 0
            invariant
                i <= self.pairs@.len(),
                k@ == key@,
                forall|j: int| i <= j < self.pairs@.len() ==> (#[trigger] self.pairs@[j]).0@ != key@,
            decreases i,
        {
            if self.pairs[i - 1].0 == k {
                proof {
                    lemma_pairs_map_tail(self.pairs@, i as int, key@);
                    let t = self.pairs@.take(i as int);
                    assert(t.drop_last() =~= self.pairs@.take(i - 1));
                    assert(t.last() == self.pairs@[i - 1]);
                }
                return Some(&self.pairs[i - 1].1);
            }
            i = i - 1;
        }
        proof {
            lemma_pairs_map_tail(self.pairs@, 0, key@);
        }
        None
    }

    /// Whether the dictionary holds `key`.
    pub fn contains_key(&self, key: &str) -> (r: bool)
        ensures
            r == self@.contains_key(key@),
    {
        self.get(key).is_some()
    }

    /// The (keyword, value) pairs in the order they were inserted; where a
    /// keyword repeats, its last pair is the one the dictionary holds.
    pub fn pairs(&self) -> (r: &[(String, String)])
        ensures
            pairs_map(r@) == self@,
    {
        self.pairs.as_slice()
    }

    /// Copies every entry of `other` whose keyword is not empty into `self`,
    /// the entries of `other` taking precedence.
    pub fn absorb_nonblank(&mut self, other: &Metadata)
        requires
            !old(self)@.contains_key(Seq::empty()),
        ensures
            final(self)@ == old(self)@.union_prefer_right(other@).remove(Seq::empty()),
    {
        let ghost m0 = self@;
        let n = other.pairs.len();
        let mut i: usize = 0;
        proof {
            assert(other.pairs@.take(0) =~= Seq::<(String, String)>::empty());
            assert(m0.union_prefer_right(pairs_map(other.pairs@.take(0))).remove(Seq::empty())
                =~= m0);
        }
        while i < n
            invariant
                n == other.pairs@.len(),
                i <= n,
                !m0.contains_key(Seq::empty()),
                self@ == m0.union_prefer_right(pairs_map(other.pairs@.take(i as int))).remove(
                    Seq::empty(),
                ),
            decreases n - i,
        {
            let ghost before = pairs_map(other.pairs@.take(i as int));
            let (k, v) = &other.pairs[i];
            proof {
                let t = other.pairs@.take(i + 1);
                assert(t.drop_last() =~= other.pairs@.take(i as int));
                assert(t.last() == other.pairs@[i as int]);
            }
            if k.as_str().is_empty() {
                proof {
                    assert(k@ =~= Seq::<char>::empty());
                    assert(m0.union_prefer_right(before.insert(k@, v@)).remove(Seq::empty())
                        =~= m0.union_prefer_right(before).remove(Seq::empty()));
                }
            } else {
                proof {
                    assert(m0.union_prefer_right(before.insert(k@, v@)).remove(Seq::empty())
                        =~= m0.union_prefer_right(before).remove(Seq::empty()).insert(k@, v@));
                }
                self.insert(k.clone(), v.clone());
            }
            i = i + 1;
        }
        proof {
            assert(other.pairs@.take(n as int) =~= other.pairs@);
        }
    }
}

/// The keyword bytes of card `i` of a block.
pub open spec fn key_bytes(block: Seq<u8>, i: int) -> Seq<u8> {
    block.subrange(80 * i, 80 * i + 8)
}

/// The value bytes of card `i` of a block; the two bytes before them are the
/// `= ` separator, which is not read.
pub open spec fn value_bytes(block: Seq<u8>, i: int) -> Seq<u8> {
    block.subrange(80 * i + 10, 80 * i + 80)
}

/// Whether card `i` of a block holds valid text in its keyword and value fields.
pub open spec fn card_decodes(block: Seq<u8>, i: int) -> bool {
    valid_utf8(key_bytes(block, i)) && valid_utf8(value_bytes(block, i))
}

/// Whether every card of a block holds valid text.
pub open spec fn block_decodes(block: Seq<u8>) -> bool {
    forall|i: int| 0 <= i < 36 ==> #[trigger] card_decodes(block, i)
}

/// The trimmed keyword of card `i`.
pub open spec fn card_key(block: Seq<u8>, i: int) -> Seq<char> {
    trim_ws(decode_utf8(key_bytes(block, i)))
}

/// The trimmed raw value of card `i`, inline comment included.
pub open spec fn card_value(block: Seq<u8>, i: int) -> Seq<char> {
    trim_ws(decode_utf8(value_bytes(block, i)))
}

/// The dictionary of the first `n` cards of a block, each inserted in turn.
pub open spec fn cards_map(block: Seq<u8>, n: int) -> Map<Seq<char>, Seq<char>>
    decreases n,
{
    if n <= 0 {
        Map::empty()
    } else {
        cards_map(block, n - 1).insert(card_key(block, n - 1), card_value(block, n - 1))
    }
}

/// The dictionary of a whole block.
pub open spec fn block_map(block: Seq<u8>) -> Map<Seq<char>, Seq<char>> {
    cards_map(block, 36)
}

/// Decodes one 2880-byte header block into the dictionary of its 36 cards,
/// blank keywords included.
pub fn parse_hdu_block(block: &[u8]) -> (r: Result<Metadata, FitsError>)
    requires
        block@.len() == 2880,
    ensures
        r is Ok <==> block_decodes(block@),
        r matches Ok(m) ==> m@ == block_map(block@),
        r matches Err(e) ==> e == FitsError::DecodeError,
{
    let mut out = Metadata::new();
    let mut i: usize = 0;
    while i < CARDS_PER_BLOCK
        invariant
            block@.len() == 2880,
            i <= 36,
            forall|j: int| 0 <= j < i ==> #[trigger] card_decodes(block@, j),
            out@ == cards_map(block@, i as int),
        decreases 36 - i,
    {
        let start = i * CARD_LEN;
        let key = utf8_text(slice_subrange(block, start, start + 8));
        let value = utf8_text(slice_subrange(block, start + 10, start + CARD_LEN));
        match (key, value) {
            (Some(k), Some(v)) => {
                out.insert(trimmed(k).to_string(), trimmed(v).to_string());
            },
            _ => {
                assert(!card_decodes(block@, i as int));
                return Err(FitsError::DecodeError);
            },
        }
        i = i + 1;
    }
    Ok(out)
}

/// Block `k` of a buffer.
pub open spec fn block_at(data: Seq<u8>, k: int) -> Seq<u8> {
    data.subrange(2880 * k, 2880 * k + 2880)
}

/// Whether block `k` of a buffer holds an `END` card.
pub open spec fn block_has_end(data: Seq<u8>, k: int) -> bool {
    block_map(block_at(data, k)).contains_key("END"@)
}

/// How reading a primary header ends.
pub enum HeaderScan {
    /// The `END` card stands in the last of this many blocks.
    Complete(nat),
    /// A block read before any `END` card holds a card that is not valid text.
    Undecodable,
    /// The buffer is not a whole number of blocks, or ends before an `END` card.
    Truncated,
}

/// How reading header blocks from block `k` on ends.
pub open spec fn scan_from(data: Seq<u8>, k: nat) -> HeaderScan
    decreases data.len() - 2880 * k,
{
    if 2880 * k + 2880 > data.len() {
        HeaderScan::Truncated
    } else if !block_decodes(block_at(data, k as int)) {
        HeaderScan::Undecodable
    } else if block_has_end(data, k as int) {
        HeaderScan::Complete(k + 1)
    } else {
        scan_from(data, k + 1)
    }
}

/// How reading the primary header of a buffer ends.
pub open spec fn header_scan(data: Seq<u8>) -> HeaderScan {
    if data.len() % 2880 != 0 {
        HeaderScan::Truncated
    } else {
        scan_from(data, 0)
    }
}

/// The union of the dictionaries of the first `n` blocks, later blocks taking
/// precedence.
pub open spec fn blocks_union(data: Seq<u8>, n: nat) -> Map<Seq<char>, Seq<char>>
    decreases n,
{
    if n == 0 {
        Map::empty()
    } else {
        blocks_union(data, (n - 1) as nat).union_prefer_right(block_map(block_at(data, n - 1)))
    }
}

/// The header dictionary of the first `n` blocks: their union, without the
/// blank keyword of padding cards.
pub open spec fn header_dict(data: Seq<u8>, n: nat) -> Map<Seq<char>, Seq<char>> {
    blocks_union(data, n).remove(Seq::empty())
}

/// Reads header blocks from the start of `data` up to and including the first
/// that holds an `END` card; gives the header dictionary and the number of
/// blocks read.
pub fn read_header(data: &[u8]) -> (r: Result<(Metadata, usize), FitsError>)
    ensures
        match header_scan(data@) {
            HeaderScan::Complete(n) => r matches Ok((m, c)) && c == n && m@ == header_dict(
                data@,
                n,
            ),
            HeaderScan::Undecodable => r matches Err(FitsError::DecodeError),
            HeaderScan::Truncated => r matches Err(FitsError::TruncatedHeaderError),
        },
{
    if data.len() % BLOCK_LEN != 0 {
        return Err(FitsError::TruncatedHeaderError);
    }
    let nblocks = data.len() / BLOCK_LEN;
    let mut dict = Metadata::new();
    let mut k: usize = 0;
    proof {
        reveal_strlit("END");
        assert(dict@ =~= header_dict(data@, 0));
    }
    while k < nblocks
        invariant
            data@.len() == 2880 * nblocks,
            data@.len() <= usize::MAX,
            k <= nblocks,
            header_scan(data@) == scan_from(data@, k as nat),
            dict@ == header_dict(data@, k as nat),
            !dict@.contains_key("END"@),
            "END"@.len() == 3,
        decreases nblocks - k,
    {
        assert(2880 * k + 2880 <= 2880 * nblocks) by (nonlinear_arith)
            requires
                k < nblocks,
        ;
        let start = k * BLOCK_LEN;
        let block = slice_subrange(data, start, start + BLOCK_LEN);
        assert(block@ == block_at(data@, k as int));
        match parse_hdu_block(block) {
            Err(_) => {
                return Err(FitsError::DecodeError);
            },
            Ok(m) => {
                let ghost u = blocks_union(data@, k as nat);
                dict.absorb_nonblank(&m);
                proof {
                    assert(u.remove(Seq::empty()).union_prefer_right(m@).remove(Seq::empty())
                        =~= u.union_prefer_right(m@).remove(Seq::empty()));
                    assert(dict@ == header_dict(data@, (k + 1) as nat));
                    assert("END"@ != Seq::<char>::empty());
                }
                if dict.contains_key("END") {
                    return Ok((dict, k + 1));
                }
                k = k + 1;
            },
        }
    }
    Err(FitsError::TruncatedHeaderError)
}

} // verus!
