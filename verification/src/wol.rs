//! MAC addresses as bytes, and the Wake-on-LAN magic packet.

use vstd::prelude::*;

use crate::config::{is_mac_group, is_mac_text};
use crate::errors::AppError;
use crate::numbers::{
    hex_digit_value, hex_pair, hex_value, lemma_hex_char_value, parse_hex_span, parse_hex_u8,
};
use crate::text::{
    chars_of, field_spans, fields, lemma_fields_join, lemma_fields_single, separates, spans_text,
    Separator,
};

verus! {

/// Where magic packets are sent: the IPv4 broadcast address, port 9.
pub const WAKE_DESTINATION: &'static str = "255.255.255.255:9";

/// The six bytes that `mac` names: six fields cut by `:` or `-`, each one
/// read as by `u8::from_str_radix(field, 16)`; `None` when a field fails or
/// there are not six.
pub open spec fn mac_bytes(mac: Seq<char>) -> Option<Seq<u8>> {
    let g = fields(mac, Separator::MacDelimiter);
    if g.len() == 6 && forall|i: int| 0 <= i < 6 ==> #[trigger] parse_hex_u8(g[i]) is Some {
        Some(Seq::new(6, |i: int| parse_hex_u8(g[i])->0))
    } else {
        None
    }
}

/// The magic packet for `mac`: six bytes 0xFF, then the address sixteen times.
pub open spec fn magic_packet_bytes(mac: Seq<u8>) -> Seq<u8> {
    Seq::new(102, |i: int| if i < 6 { 0xFFu8 } else { mac[(i - 6) % 6] })
}

/// The magic packet is 102 bytes: six 0xFF bytes, then the address's six
/// bytes, unchanged and in order, sixteen times over.
pub proof fn lemma_magic_packet_layout(mac: Seq<u8>)
    requires
        mac.len() == 6,
    ensures
        magic_packet_bytes(mac).len() == 102,
        forall|i: int| 0 <= i < 6 ==> #[trigger] magic_packet_bytes(mac)[i] == 0xFF,
        forall|k: int, j: int|
            0 <= k < 16 && 0 <= j < 6 ==> #[trigger] magic_packet_bytes(mac)[6 + 6 * k + j] == mac[j],
{
    assert forall|k: int, j: int| 0 <= k < 16 && 0 <= j < 6 implies #[trigger] magic_packet_bytes(
        mac,
    )[6 + 6 * k + j] == mac[j] by {
        assert((6 + 6 * k + j - 6) % 6 == j) by (nonlinear_arith)
            requires
                0 <= k < 16,
                0 <= j < 6,
        ;
    }
}

pub open spec fn parse_mac_message(mac: Seq<char>) -> Seq<char> {
    "invalid MAC: "@ + mac
}

/// The bytes of a MAC address written as six hexadecimal fields cut by `:` or `-`.
pub fn parse_mac(mac: &str) -> (r: Result<[u8; 6], AppError>)
    ensures
        match mac_bytes(mac@) {
            Some(b) => r matches Ok(a) && a@ == b,
            None => r matches Err(AppError::Wol(m)) && m@ == parse_mac_message(mac@),
        },
{
    let v = chars_of(mac);
    let spans = field_spans(&v, Separator::MacDelimiter);
    let ghost g = fields(mac@, Separator::MacDelimiter);
    assert(spans@.len() == g.len());
    if spans.len() != 6 {
        return Err(AppError::Wol(String::from_str("invalid MAC: ").concat(mac)));
    }
    let mut bytes: [u8; 6] = [0u8; 6];
    let mut i: usize = 0;
    while i < 6
        invariant
            v@ == mac@,
            spans@.len() == 6,
            g == fields(mac@, Separator::MacDelimiter),
            g.len() == 6,
            crate::text::spans_within(spans@, v@.len()),
            spans_text(v@, spans@) == g,
            i <= 6,
            forall|j: int| 0 <= j < i ==> #[trigger] parse_hex_u8(g[j]) == Some(bytes@[j]),
        decreases 6 - i,
    {
        let (a, b) = spans[i];
        assert(g[i as int] == v@.subrange(a as int, b as int));
        match parse_hex_span(&v, a, b) {
            Some(x) => {
                bytes[i] = x;
            },
            None => {
                return Err(AppError::Wol(String::from_str("invalid MAC: ").concat(mac)));
            },
        }
        i += 1;
    }
    assert(bytes@ =~= Seq::new(6, |k: int| parse_hex_u8(g[k])->0));
    Ok(bytes)
}

/// The magic packet that wakes the machine with address `mac`.
pub fn magic_packet(mac: &[u8; 6]) -> (p: Vec<u8>)
    ensures
        p@ == magic_packet_bytes(mac@),
        p@.len() == 102,
        forall|i: int| 0 <= i < 6 ==> #[trigger] p@[i] == 0xFF,
        forall|k: int, j: int| 0 <= k < 16 && 0 <= j < 6 ==> #[trigger] p@[6 + 6 * k + j] == mac@[j],
{
    proof {
        lemma_magic_packet_layout(mac@);
    }
    let mut p: Vec<u8> = Vec::new();
    let mut i: usize = 0;
    while i < 102
        invariant
            i <= 102,
            p@.len() == i,
            forall|j: int| 0 <= j < i ==> #[trigger] p@[j] == magic_packet_bytes(mac@)[j],
        decreases 102 - i,
    {
        if i < 6 {
            p.push(0xFF);
        } else {
            p.push(mac[(i - 6) % 6]);
        }
        i += 1;
    }
    assert(p@ =~= magic_packet_bytes(mac@));
    p
}

/// The magic packet for the machine whose MAC address is written `mac`.
pub fn wake_packet(mac: &str) -> (r: Result<Vec<u8>, AppError>)
    ensures
        match mac_bytes(mac@) {
            Some(b) => r matches Ok(p) && p@ == magic_packet_bytes(b),
            None => r matches Err(AppError::Wol(m)) && m@ == parse_mac_message(mac@),
        },
        r matches Ok(p) ==> p@.len() == 102 && (forall|i: int| 0 <= i < 6 ==> #[trigger] p@[i] == 0xFF)
            && forall|k: int, j: int|
            0 <= k < 16 && 0 <= j < 6 ==> #[trigger] p@[6 + 6 * k + j] == mac_bytes(mac@)->0[j],
{
    let bytes = parse_mac(mac)?;
    Ok(magic_packet(&bytes))
}

/// A field of two hexadecimal digits reads as the byte they denote.
pub proof fn lemma_group_value(g: Seq<char>)
    requires
        is_mac_group(g),
    ensures
        parse_hex_u8(g) == Some((16 * hex_digit_value(g[0]) + hex_digit_value(g[1])) as u8),
        16 * hex_digit_value(g[0]) + hex_digit_value(g[1]) <= 255,
{
    assert(g.drop_last().drop_last() =~= Seq::<char>::empty());
    assert(g.drop_last().last() == g[0]);
    assert(hex_value(g.drop_last().drop_last()) == 0);
    assert(hex_value(g.drop_last()) == hex_digit_value(g[0]));
    assert(g.last() == g[1]);
    assert(hex_value(g) == 16 * hex_digit_value(g[0]) + hex_digit_value(g[1]));
    assert(g[0] != '+');
}

/// Every MAC address that the configuration check accepts can be woken:
/// its bytes are the values of its six pairs of hexadecimal digits.
pub proof fn lemma_valid_mac_parses(mac: Seq<char>)
    requires
        is_mac_text(mac),
    ensures
        mac_bytes(mac) is Some,
        forall|i: int|
            0 <= i < 6 ==> {
                let g = #[trigger] fields(mac, Separator::MacDelimiter)[i];
                mac_bytes(mac)->0[i] as int == 16 * hex_digit_value(g[0]) + hex_digit_value(g[1])
            },
{
    let g = fields(mac, Separator::MacDelimiter);
    assert forall|i: int| 0 <= i < 6 implies #[trigger] parse_hex_u8(g[i]) is Some by {
        lemma_group_value(g[i]);
    }
    let b = mac_bytes(mac)->0;
    assert(b == Seq::new(6, |k: int| parse_hex_u8(g[k])->0));
    assert forall|i: int| 0 <= i < 6 implies b[i] as int == 16 * hex_digit_value(
        (#[trigger] fields(mac, Separator::MacDelimiter)[i])[0],
    ) + hex_digit_value(g[i][1]) by {
        lemma_group_value(g[i]);
        assert(is_mac_group(g[i]));
        assert(b[i] == parse_hex_u8(g[i])->0);
    }
}

/// Six bytes written as six pairs of hexadecimal digits (upper-case when
/// `upper`), joined by `sep`.
pub open spec fn mac_text(b: Seq<u8>, sep: char, upper: bool) -> Seq<char> {
    hex_pair(b[0], upper) + seq![sep] + hex_pair(b[1], upper) + seq![sep] + hex_pair(b[2], upper)
        + seq![sep] + hex_pair(b[3], upper) + seq![sep] + hex_pair(b[4], upper) + seq![sep]
        + hex_pair(b[5], upper)
}

/// A byte written as two hexadecimal digits is a MAC group that reads back as the byte.
proof fn lemma_hex_pair_group(b: u8, upper: bool)
    ensures
        is_mac_group(hex_pair(b, upper)),
        parse_hex_u8(hex_pair(b, upper)) == Some(b),
        fields(hex_pair(b, upper), Separator::MacDelimiter) == seq![hex_pair(b, upper)],
{
    let g = hex_pair(b, upper);
    lemma_hex_char_value(b as int / 16, upper);
    lemma_hex_char_value(b as int % 16, upper);
    assert(is_mac_group(g));
    lemma_group_value(g);
    assert(16 * (b as int / 16) + b as int % 16 == b as int);
    assert forall|i: int| 0 <= i < g.len() implies !separates(
        Separator::MacDelimiter,
        #[trigger] g[i],
    ) by {}
    lemma_fields_single(g, Separator::MacDelimiter);
}

/// Six bytes written as six two-digit hexadecimal fields, in either case and
/// joined by `:` or `-`, pass the configuration check and parse back to the
/// same six bytes.
pub proof fn lemma_mac_round_trip(b: Seq<u8>, sep: char, upper: bool)
    requires
        b.len() == 6,
        sep == ':' || sep == '-',
    ensures
        is_mac_text(mac_text(b, sep, upper)),
        mac_bytes(mac_text(b, sep, upper)) == Some(b),
{
    let d = Separator::MacDelimiter;
    let g0 = hex_pair(b[0], upper);
    let g1 = hex_pair(b[1], upper);
    let g2 = hex_pair(b[2], upper);
    let g3 = hex_pair(b[3], upper);
    let g4 = hex_pair(b[4], upper);
    let g5 = hex_pair(b[5], upper);
    lemma_hex_pair_group(b[0], upper);
    lemma_hex_pair_group(b[1], upper);
    lemma_hex_pair_group(b[2], upper);
    lemma_hex_pair_group(b[3], upper);
    lemma_hex_pair_group(b[4], upper);
    lemma_hex_pair_group(b[5], upper);
    let r4 = g4 + seq![sep] + g5;
    let r3 = g3 + seq![sep] + r4;
    let r2 = g2 + seq![sep] + r3;
    let r1 = g1 + seq![sep] + r2;
    let r0 = g0 + seq![sep] + r1;
    assert(mac_text(b, sep, upper) =~= r0);
    lemma_fields_join(g4, sep, g5, d);
    lemma_fields_join(g3, sep, r4, d);
    lemma_fields_join(g2, sep, r3, d);
    lemma_fields_join(g1, sep, r2, d);
    lemma_fields_join(g0, sep, r1, d);
    let f = fields(mac_text(b, sep, upper), d);
    assert(f =~= seq![g0, g1, g2, g3, g4, g5]);
    assert(forall|i: int| 0 <= i < 6 ==> #[trigger] is_mac_group(f[i]));
    assert(forall|i: int| 0 <= i < 6 ==> #[trigger] parse_hex_u8(f[i]) == Some(b[i]));
    assert(Seq::new(6, |i: int| parse_hex_u8(f[i])->0) =~= b);
}

} // verus!
