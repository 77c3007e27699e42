//! Telegram data centres: which one an address or a client's obfuscated2
//! init packet names, and the WebSocket endpoint that serves it.
use vstd::prelude::*;
use cipher::{KeyIvInit, StreamCipher};
use crate::ipv4::{parse_ipv4, parsed_ipv4};
use crate::text::byte_range;

verus! {

/// The data centre that serves an IPv4 address, by the subnets Telegram
/// announces; `None` for an address outside them.
pub open spec fn dc_of_octets(o: Seq<u8>) -> Option<u8> {
    if o[0] == 149 && o[1] == 154 {
        Some(
            if 160 <= o[2] <= 163 {
                1
            } else if 164 <= o[2] <= 167 {
                2
            } else if 168 <= o[2] <= 171 {
                3
            } else if 172 <= o[2] <= 175 {
                1
            } else {
                2
            },
        )
    } else if o[0] == 91 && o[1] == 108 {
        Some(
            if 56 <= o[2] <= 59 {
                5
            } else if 8 <= o[2] <= 11 {
                3
            } else if 12 <= o[2] <= 15 {
                4
            } else {
                2
            },
        )
    } else if (o[0] == 91 && o[1] == 105) || (o[0] == 185 && o[1] == 76) {
        Some(2)
    } else {
        None
    }
}

/// The data centre that serves an IPv4 address.
pub fn dc_from_ip(ip: [u8; 4]) -> (dc: Option<u8>)
    ensures
        dc == dc_of_octets(ip@),
{
    let a = ip[0];
    let b = ip[1];
    let c = ip[2];
    if a == 149 && b == 154 {
        Some(
            if 160 <= c && c <= 163 {
                1
            } else if 164 <= c && c <= 167 {
                2
            } else if 168 <= c && c <= 171 {
                3
            } else if 172 <= c && c <= 175 {
                1
            } else {
                2
            },
        )
    } else if a == 91 && b == 108 {
        Some(
            if 56 <= c && c <= 59 {
                5
            } else if 8 <= c && c <= 11 {
                3
            } else if 12 <= c && c <= 15 {
                4
            } else {
                2
            },
        )
    } else if (a == 91 && b == 105) || (a == 185 && b == 76) {
        Some(2)
    } else {
        None
    }
}

/// The subnets that the data centres are announced with map to them:
/// 149.154.160.0/22 to DC1, 149.154.164.0/22 to DC2, 149.154.168.0/22 to
/// DC3, 91.108.12.0/22 to DC4 and 91.108.56.0/22 to DC5.
pub proof fn law_announced_subnets(o: Seq<u8>)
    requires
        o.len() == 4,
    ensures
        o[0] == 149 && o[1] == 154 && 160 <= o[2] <= 163 ==> dc_of_octets(o) == Some(1u8),
        o[0] == 149 && o[1] == 154 && 164 <= o[2] <= 167 ==> dc_of_octets(o) == Some(2u8),
        o[0] == 149 && o[1] == 154 && 168 <= o[2] <= 171 ==> dc_of_octets(o) == Some(3u8),
        o[0] == 91 && o[1] == 108 && 12 <= o[2] <= 15 ==> dc_of_octets(o) == Some(4u8),
        o[0] == 91 && o[1] == 108 && 56 <= o[2] <= 59 ==> dc_of_octets(o) == Some(5u8),
{
}

/// The rest of the address table: 149.154.172.0/22 is a second DC1 block,
/// 91.108.8.0/22 belongs to DC3, the other addresses of 149.154.0.0/16 and
/// 91.108.0.0/16 and all of 91.105.0.0/16 and 185.76.0.0/16 go to DC2, and
/// no other address is Telegram's.
pub proof fn law_address_table(o: Seq<u8>)
    requires
        o.len() == 4,
    ensures
        o[0] == 149 && o[1] == 154 && 172 <= o[2] <= 175 ==> dc_of_octets(o) == Some(1u8),
        o[0] == 91 && o[1] == 108 && 8 <= o[2] <= 11 ==> dc_of_octets(o) == Some(3u8),
        o[0] == 149 && o[1] == 154 && (o[2] < 160 || o[2] > 175) ==> dc_of_octets(o) == Some(2u8),
        o[0] == 91 && o[1] == 108 && !(8 <= o[2] <= 15) && !(56 <= o[2] <= 59) ==> dc_of_octets(o)
            == Some(2u8),
        o[0] == 91 && o[1] == 105 ==> dc_of_octets(o) == Some(2u8),
        o[0] == 185 && o[1] == 76 ==> dc_of_octets(o) == Some(2u8),
        !(o[0] == 149 && o[1] == 154) && !(o[0] == 91 && o[1] == 108) && !(o[0] == 91 && o[1] == 105)
            && !(o[0] == 185 && o[1] == 76) ==> dc_of_octets(o) is None,
{
}

/// The data centre of an address depends on its first three bytes alone.
pub proof fn law_dc_ignores_last_byte(o: Seq<u8>, p: Seq<u8>)
    requires
        o.len() == 4,
        p.len() == 4,
        o[0] == p[0],
        o[1] == p[1],
        o[2] == p[2],
    ensures
        dc_of_octets(o) == dc_of_octets(p),
{
}

/// Every data centre an address maps to is one of DC1 to DC5.
pub proof fn law_dc_of_octets_range(o: Seq<u8>)
    requires
        o.len() == 4,
    ensures
        dc_of_octets(o) matches Some(d) ==> 1 <= d <= 5,
{
}

/// The data centre for a destination written as text: it must be a
/// dotted-quad address in one of Telegram's subnets.
pub open spec fn dc_of_text(addr: Seq<char>) -> Option<u8> {
    match parsed_ipv4(addr) {
        Some(o) => dc_of_octets(o),
        None => None,
    }
}

/// The dotted-quad text of an address names the same data centre as the
/// address.
pub proof fn law_text_names_address_dc(o: Seq<u8>)
    requires
        o.len() == 4,
    ensures
        dc_of_text(crate::ipv4::ipv4_text(o)) == dc_of_octets(o),
{
    crate::ipv4::law_ipv4_round_trip(o);
}

/// The data centre for a destination written as text.
pub fn dc_from_text(addr: &str) -> (dc: Option<u8>)
    ensures
        dc == dc_of_text(addr@),
{
    match parse_ipv4(addr) {
        Some(o) => dc_from_ip(o),
        None => None,
    }
}

/// Whether a destination written as text is a Telegram address.
pub fn is_telegram_ip(addr: &str) -> (b: bool)
    ensures
        b == dc_of_text(addr@) is Some,
{
    dc_from_text(addr).is_some()
}

/// The name of a data centre's WebSocket host: Pluto, Venus, Aurora, Vesta
/// and Flora for DC1 to DC5.
pub open spec fn dc_host_name(dc: u8) -> Seq<char> {
    if dc == 1 {
        "pluto"@
    } else if dc == 2 {
        "venus"@
    } else if dc == 3 {
        "aurora"@
    } else if dc == 4 {
        "vesta"@
    } else {
        "flora"@
    }
}

/// The WebSocket endpoint of a data centre:
/// `wss://NAME.web.telegram.org/apiws`.
pub open spec fn ws_url_text(dc: u8) -> Seq<char> {
    "wss://"@ + dc_host_name(dc) + ".web.telegram.org/apiws"@
}

/// The WebSocket endpoint of one of the data centres DC1 to DC5.
pub fn ws_url(dc: u8) -> (url: String)
    requires
        1 <= dc <= 5,
    ensures
        url@ == ws_url_text(dc),
{
    let name = if dc == 1 {
        "pluto"
    } else if dc == 2 {
        "venus"
    } else if dc == 3 {
        "aurora"
    } else if dc == 4 {
        "vesta"
    } else {
        "flora"
    };
    let mut url = String::from_str("wss://");
    url.append(name);
    url.append(".web.telegram.org/apiws");
    url
}

/// The endpoints of the five data centres, as Telegram documents them.
pub proof fn law_ws_endpoints()
    ensures
        ws_url_text(1) == "wss://pluto.web.telegram.org/apiws"@,
        ws_url_text(2) == "wss://venus.web.telegram.org/apiws"@,
        ws_url_text(3) == "wss://aurora.web.telegram.org/apiws"@,
        ws_url_text(4) == "wss://vesta.web.telegram.org/apiws"@,
        ws_url_text(5) == "wss://flora.web.telegram.org/apiws"@,
{
    reveal_strlit("wss://");
    reveal_strlit(".web.telegram.org/apiws");
    reveal_strlit("pluto");
    reveal_strlit("venus");
    reveal_strlit("aurora");
    reveal_strlit("vesta");
    reveal_strlit("flora");
    reveal_strlit("wss://pluto.web.telegram.org/apiws");
    reveal_strlit("wss://venus.web.telegram.org/apiws");
    reveal_strlit("wss://aurora.web.telegram.org/apiws");
    reveal_strlit("wss://vesta.web.telegram.org/apiws");
    reveal_strlit("wss://flora.web.telegram.org/apiws");
    assert(ws_url_text(1) =~= "wss://pluto.web.telegram.org/apiws"@);
    assert(ws_url_text(2) =~= "wss://venus.web.telegram.org/apiws"@);
    assert(ws_url_text(3) =~= "wss://aurora.web.telegram.org/apiws"@);
    assert(ws_url_text(4) =~= "wss://vesta.web.telegram.org/apiws"@);
    assert(ws_url_text(5) =~= "wss://flora.web.telegram.org/apiws"@);
}

/// What AES-256 in CTR mode with a 128-bit big-endian counter, keyed with
/// `key` and started at `iv`, turns `data` into.
pub uninterp spec fn aes256_ctr_apply(key: Seq<u8>, iv: Seq<u8>, data: Seq<u8>) -> Seq<u8>;

/// Runs `ctr::Ctr128BE<aes::Aes256>` (built with `cipher::KeyIvInit::new`)
/// over a copy of `data` with `cipher::StreamCipher::apply_keystream`.
/// Claimed: the result is `aes256_ctr_apply` of the arguments and is as long
/// as `data`. A fresh cipher of this kind has more keystream than any buffer
/// can use up, so the call does not panic once the key and IV lengths are right.
#[verifier::external_body]
fn aes256_ctr_xor(key: &[u8], iv: &[u8], data: &[u8]) -> (out: Vec<u8>)
    requires
        key@.len() == 32,
        iv@.len() == 16,
    ensures
        out@ == aes256_ctr_apply(key@, iv@, data@),
        out@.len() == data@.len(),
{
    let mut out = data.to_vec();
    let mut c = ctr::Ctr128BE::<aes::Aes256>::new(key.into(), iv.into());
    c.apply_keystream(&mut out);
    out
}

/// The signed little-endian number in four bytes.
pub open spec fn le_i32(b0: u8, b1: u8, b2: u8, b3: u8) -> int {
    b0 + 256 * b1 + 65536 * b2 + 16777216 * b3 - (if b3 >= 128 { 4294967296int } else { 0int })
}

/// The data centre that a decrypted init packet asks for: the magnitude of
/// the signed little-endian number in bytes 60..64, cut to its low byte,
/// when that is 1 to 5.
pub open spec fn dc_of_decrypted(dec: Seq<u8>) -> Option<u8> {
    let v = le_i32(dec[60], dec[61], dec[62], dec[63]);
    let m = if v < 0 { -v } else { v };
    let d = m % 256;
    if 1 <= d <= 5 { Some(d as u8) } else { None }
}

/// The data centre that a decrypted init packet asks for.
pub fn dc_from_decrypted(dec: &[u8]) -> (dc: Option<u8>)
    requires
        dec@.len() >= 64,
    ensures
        dc == dc_of_decrypted(dec@),
{
    let b3 = dec[63];
    let u: u64 = dec[60] as u64 + (dec[61] as u64) * 256 + (dec[62] as u64) * 65536 + (b3 as u64)
        * 16777216;
    let mag: u64 = if b3 >= 128 { 4294967296 - u } else { u };
    let d: u8 = (mag % 256) as u8;
    if 1 <= d && d <= 5 { Some(d) } else { None }
}

/// A decrypted init packet only ever names DC1 to DC5.
pub proof fn law_dc_of_decrypted_range(dec: Seq<u8>)
    requires
        dec.len() >= 64,
    ensures
        dc_of_decrypted(dec) matches Some(d) ==> 1 <= d <= 5,
{
}

/// The data centre field of a decrypted init packet is a signed 32-bit
/// little-endian number whose magnitude is the data centre: 1 to 5 written
/// as a positive number (bytes `d 0 0 0`) or as a negative one (bytes
/// `256-d 255 255 255`) name DC `d`; zero and other small magnitudes name
/// none.
pub proof fn law_decrypted_dc_field(dec: Seq<u8>)
    requires
        dec.len() >= 64,
    ensures
        dec[61] == 0 && dec[62] == 0 && dec[63] == 0 ==> dc_of_decrypted(dec) == if 1 <= dec[60] <= 5 {
            Some(dec[60])
        } else {
            None
        },
        dec[61] == 255 && dec[62] == 255 && dec[63] == 255 && dec[60] >= 1 ==> dc_of_decrypted(dec)
            == if dec[60] >= 251 {
            Some((256 - dec[60]) as u8)
        } else {
            None
        },
{
}

/// The data centre that a client's obfuscated2 init packet names: the
/// packet is decrypted with the key in bytes 8..40 and the IV in bytes 40..56.
pub open spec fn dc_of_init(init: Seq<u8>) -> Option<u8> {
    dc_of_decrypted(aes256_ctr_apply(init.subrange(8, 40), init.subrange(40, 56), init))
}

/// The data centre that a client's obfuscated2 init packet names.
pub fn extract_dc_from_init(init: &[u8; 64]) -> (dc: Option<u8>)
    ensures
        dc == dc_of_init(init@),
{
    let all: &[u8] = init.as_slice();
    let key = byte_range(all, 8, 40);
    let iv = byte_range(all, 40, 56);
    let dec = aes256_ctr_xor(key, iv, all);
    dc_from_decrypted(dec.as_slice())
}

} // verus!
