//! Facts about the decoder that relate its parts or hold of all inputs.

use vstd::prelude::*;
use vstd::utf8::{
    decode_utf8, encode_utf8, encode_utf8_decode_utf8, encode_utf8_valid_utf8, is_ascii_chars,
    is_ascii_chars_encode_utf8, valid_utf8,
};

use crate::geometry::{bitpix_field, geometry_fault, geometry_of, naxis1_field};
use crate::header::{
    block_at, block_decodes, block_has_end, block_map, blocks_union, card_decodes, card_key,
    card_value, cards_map, header_dict, header_scan, key_bytes, scan_from, value_bytes,
    HeaderScan,
};
use crate::payload::{payload_bytes, payload_fits, payload_of};
use crate::text::{is_white_space, trim_end_ws, trim_start_ws, trim_ws};
use crate::FitsError;

verus! {

/// A buffer that is not a whole number of 2880-byte blocks is rejected as a
/// truncated header, whatever it holds.
pub proof fn partial_block_is_truncated(data: Seq<u8>)
    requires
        data.len() % 2880 != 0,
    ensures
        header_scan(data) == HeaderScan::Truncated,
{
}

/// The payload holds exactly the bytes that the geometry declares, never the
/// padding that fills out its last block.
pub proof fn payload_is_exact(data: Seq<u8>, n: nat, g: (u32, u32, u32))
    requires
        payload_fits(data, n as int, g),
    ensures
        payload_of(data, n as int, g).len() == payload_bytes(g.0, g.1, g.2),
{
    assert(0 <= payload_bytes(g.0, g.1, g.2)) by (nonlinear_arith);
}

/// A header whose `END` card stands in its second block takes two blocks, and
/// its dictionary merges the entries of both, the second block's taking
/// precedence.
pub proof fn end_in_second_block(data: Seq<u8>)
    requires
        data.len() % 2880 == 0,
        data.len() >= 5760,
        block_decodes(block_at(data, 0)),
        !block_has_end(data, 0),
        block_decodes(block_at(data, 1)),
        block_has_end(data, 1),
    ensures
        header_scan(data) == HeaderScan::Complete(2),
        header_dict(data, 2) == block_map(block_at(data, 0)).union_prefer_right(
            block_map(block_at(data, 1)),
        ).remove(Seq::empty()),
{
    assert(scan_from(data, 0) == scan_from(data, 1));
    assert(blocks_union(data, 0) == Map::<Seq<char>, Seq<char>>::empty());
    assert(blocks_union(data, 1) == blocks_union(data, 0).union_prefer_right(
        block_map(block_at(data, 0)),
    ));
    assert(blocks_union(data, 1) =~= block_map(block_at(data, 0)));
    assert(blocks_union(data, 2) == blocks_union(data, 1).union_prefer_right(
        block_map(block_at(data, 1)),
    ));
}

/// A card that is not valid text, in a block that the header reaches, makes
/// the whole decode fail as undecodable.
pub proof fn bad_text_is_decode_error(data: Seq<u8>, k: nat, i: int)
    requires
        data.len() % 2880 == 0,
        2880 * k + 2880 <= data.len(),
        forall|j: int|
            0 <= j < k ==> block_decodes(#[trigger] block_at(data, j)) && !block_has_end(data, j),
        0 <= i < 36,
        !card_decodes(block_at(data, k as int), i),
    ensures
        header_scan(data) == HeaderScan::Undecodable,
{
    scan_reaches_bad_block(data, 0, k, i);
}

proof fn scan_reaches_bad_block(data: Seq<u8>, j: nat, k: nat, i: int)
    requires
        j <= k,
        2880 * k + 2880 <= data.len(),
        forall|l: int|
            0 <= l < k ==> block_decodes(#[trigger] block_at(data, l)) && !block_has_end(data, l),
        0 <= i < 36,
        !card_decodes(block_at(data, k as int), i),
    ensures
        scan_from(data, j) == HeaderScan::Undecodable,
    decreases k - j,
{
    if j < k {
        assert(block_decodes(block_at(data, j as int)));
        scan_reaches_bad_block(data, j + 1, k, i);
    }
}

/// With a usable `BITPIX`, a dictionary without `NAXIS1` fails geometry
/// resolution with the missing-keyword error for `NAXIS1`.
pub proof fn missing_width_is_reported(m: Map<Seq<char>, Seq<char>>, e: FitsError)
    requires
        bitpix_field(m) matches Some(Some(_)),
        !m.contains_key("NAXIS1"@),
        geometry_fault(m, e),
    ensures
        geometry_of(m) is None,
        e matches FitsError::MissingKeywordError(k) && k@ == "NAXIS1"@,
{
    assert(naxis1_field(m) is None);
}

/// `n` spaces.
pub open spec fn blanks(n: nat) -> Seq<char> {
    Seq::new(n, |i: int| ' ')
}

/// Text that neither starts nor ends with white space.
pub open spec fn no_edge_space(t: Seq<char>) -> bool {
    t.len() > 0 ==> !is_white_space(t[0]) && !is_white_space(t.last())
}

/// A keyword and a value that a card can carry unchanged: ASCII, without
/// surrounding white space, and fitting their 8- and 70-byte fields.
pub open spec fn card_fits(key: Seq<char>, value: Seq<char>) -> bool {
    &&& is_ascii_chars(key)
    &&& key.len() <= 8
    &&& no_edge_space(key)
    &&& is_ascii_chars(value)
    &&& value.len() <= 70
    &&& no_edge_space(value)
}

/// The 80 characters of a card: the keyword padded to 8, `= `, the value padded to 70.
pub open spec fn card_text(key: Seq<char>, value: Seq<char>) -> Seq<char> {
    key + blanks((8 - key.len()) as nat) + seq!['=', ' '] + value + blanks((70 - value.len()) as nat)
}

/// The text of a run of cards, one after another.
pub open spec fn cards_text(cards: Seq<(Seq<char>, Seq<char>)>) -> Seq<char>
    decreases cards.len(),
{
    if cards.len() == 0 {
        Seq::empty()
    } else {
        cards_text(cards.drop_last()) + card_text(cards.last().0, cards.last().1)
    }
}

/// The bytes of a header block that holds the given cards.
pub open spec fn encode_block(cards: Seq<(Seq<char>, Seq<char>)>) -> Seq<u8> {
    encode_utf8(cards_text(cards))
}

/// The dictionary of (keyword, value) pairs inserted in turn.
pub open spec fn text_pairs_map(cards: Seq<(Seq<char>, Seq<char>)>) -> Map<Seq<char>, Seq<char>>
    decreases cards.len(),
{
    if cards.len() == 0 {
        Map::empty()
    } else {
        text_pairs_map(cards.drop_last()).insert(cards.last().0, cards.last().1)
    }
}

proof fn cards_text_index(cards: Seq<(Seq<char>, Seq<char>)>, i: int, j: int)
    requires
        forall|c: int| 0 <= c < cards.len() ==> card_fits(#[trigger] cards[c].0, cards[c].1),
        0 <= i < cards.len(),
        0 <= j < 80,
    ensures
        cards_text(cards).len() == 80 * cards.len(),
        cards_text(cards)[80 * i + j] == card_text(cards[i].0, cards[i].1)[j],
    decreases cards.len(),
{
    cards_text_len(cards);
    if i < cards.len() - 1 {
        cards_text_index(cards.drop_last(), i, j);
        cards_text_len(cards.drop_last());
    }
}

proof fn cards_text_len(cards: Seq<(Seq<char>, Seq<char>)>)
    requires
        forall|c: int| 0 <= c < cards.len() ==> card_fits(#[trigger] cards[c].0, cards[c].1),
    ensures
        cards_text(cards).len() == 80 * cards.len(),
        is_ascii_chars(cards_text(cards)),
    decreases cards.len(),
{
    if cards.len() > 0 {
        let last = cards.last();
        assert(card_fits(cards[cards.len() - 1].0, cards[cards.len() - 1].1));
        cards_text_len(cards.drop_last());
        let t = card_text(last.0, last.1);
        assert(is_ascii_chars(t));
    }
}

proof fn trim_padded(t: Seq<char>, n: nat)
    requires
        no_edge_space(t),
    ensures
        trim_ws(t + blanks(n)) == t,
    decreases n,
{
    trim_end_padded(t, n);
    if t.len() > 0 {
        assert(trim_start_ws(t) == t);
    } else {
        assert(t + blanks(n) =~= blanks(n));
        trim_start_blanks(n);
        assert(trim_end_ws(Seq::<char>::empty()) == Seq::<char>::empty());
    }
}

proof fn trim_start_blanks(n: nat)
    ensures
        trim_start_ws(blanks(n)) == Seq::<char>::empty(),
    decreases n,
{
    if n > 0 {
        assert(blanks(n).drop_first() =~= blanks((n - 1) as nat));
        trim_start_blanks((n - 1) as nat);
    }
}

proof fn trim_end_padded(t: Seq<char>, n: nat)
    requires
        no_edge_space(t),
    ensures
        trim_end_ws(t + blanks(n)) == t,
        t.len() > 0 ==> trim_start_ws(t + blanks(n)) == t + blanks(n),
    decreases n,
{
    if n > 0 {
        assert((t + blanks(n)).drop_last() =~= t + blanks((n - 1) as nat));
        trim_end_padded(t, (n - 1) as nat);
    } else {
        assert(t + blanks(n) =~= t);
    }
}

proof fn field_round_trip(text: Seq<char>, bytes: Seq<u8>, field: Seq<char>)
    requires
        is_ascii_chars(text),
        is_ascii_chars(field),
        bytes.len() == field.len(),
        forall|j: int| 0 <= j < field.len() ==> #[trigger] bytes[j] == field[j] as u8,
    ensures
        valid_utf8(bytes),
        decode_utf8(bytes) == field,
{
    is_ascii_chars_encode_utf8(field);
    assert(bytes =~= encode_utf8(field));
    encode_utf8_valid_utf8(field);
    encode_utf8_decode_utf8(field);
}

proof fn card_round_trip(cards: Seq<(Seq<char>, Seq<char>)>, i: int)
    requires
        cards.len() == 36,
        forall|c: int| 0 <= c < cards.len() ==> card_fits(#[trigger] cards[c].0, cards[c].1),
        0 <= i < 36,
    ensures
        card_decodes(encode_block(cards), i),
        card_key(encode_block(cards), i) == cards[i].0,
        card_value(encode_block(cards), i) == cards[i].1,
{
    let text = cards_text(cards);
    let block = encode_block(cards);
    let (k, v) = cards[i];
    assert(card_fits(k, v));
    cards_text_len(cards);
    is_ascii_chars_encode_utf8(text);
    let ct = card_text(k, v);
    let kf = k + blanks((8 - k.len()) as nat);
    let vf = v + blanks((70 - v.len()) as nat);
    assert(ct =~= kf + seq!['=', ' '] + vf);
    assert(is_ascii_chars(kf));
    assert(is_ascii_chars(vf));
    assert forall|j: int| 0 <= j < kf.len() implies #[trigger] key_bytes(block, i)[j] == kf[j] as u8 by {
        cards_text_index(cards, i, j);
    }
    assert forall|j: int| 0 <= j < vf.len() implies #[trigger] value_bytes(block, i)[j] == vf[j] as u8 by {
        cards_text_index(cards, i, j + 10);
    }
    field_round_trip(text, key_bytes(block, i), kf);
    field_round_trip(text, value_bytes(block, i), vf);
    trim_padded(k, (8 - k.len()) as nat);
    trim_padded(v, (70 - v.len()) as nat);
}

proof fn cards_map_round_trip(cards: Seq<(Seq<char>, Seq<char>)>, n: int)
    requires
        cards.len() == 36,
        forall|c: int| 0 <= c < cards.len() ==> card_fits(#[trigger] cards[c].0, cards[c].1),
        0 <= n <= 36,
    ensures
        cards_map(encode_block(cards), n) == text_pairs_map(cards.take(n)),
    decreases n,
{
    if n > 0 {
        cards_map_round_trip(cards, n - 1);
        card_round_trip(cards, n - 1);
        assert(cards.take(n).drop_last() =~= cards.take(n - 1));
    }
}

/// Encoding 36 cards whose keywords and values fit their fields as they are,
/// then decoding the block, gives back exactly those keyword/value pairs, a
/// later card overriding an earlier one with the same keyword.
pub proof fn block_round_trip(cards: Seq<(Seq<char>, Seq<char>)>)
    requires
        cards.len() == 36,
        forall|c: int| 0 <= c < cards.len() ==> card_fits(#[trigger] cards[c].0, cards[c].1),
    ensures
        encode_block(cards).len() == 2880,
        block_decodes(encode_block(cards)),
        block_map(encode_block(cards)) == text_pairs_map(cards),
{
    cards_text_len(cards);
    is_ascii_chars_encode_utf8(cards_text(cards));
    assert forall|i: int| 0 <= i < 36 implies #[trigger] card_decodes(encode_block(cards), i) by {
        card_round_trip(cards, i);
    }
    cards_map_round_trip(cards, 36);
    assert(cards.take(36) =~= cards);
}

} // verus!
