//! The layout of the settings blob, as spec functions over bytes, and the
//! laws that decoding and encoding obey.
//!
//! In order, little-endian: `reserved_a`, `version` and `flags` as 32-bit
//! words; the proxy address, the delimited bypass list and the script
//! address, each as a 32-bit byte length followed by that many bytes of
//! UTF-8; then 32 opaque bytes.

use vstd::prelude::*;
use vstd::utf8::{
    decode_utf8, decode_utf8_encode_utf8, encode_utf8, encode_utf8_decode_utf8,
    encode_utf8_valid_utf8, valid_utf8,
};
use crate::bytes::{le_bytes, lemma_le_bytes_of_u32, lemma_le_round_trip, le_u32};
use crate::bypass::{
    is_clean_entry, join_list, lemma_join_parse_shorter, lemma_parse_entries_clean,
    lemma_parse_join, parse_list,
};

verus! {

/// The number of opaque bytes at the end of the blob.
pub const RESERVED_B_LEN: usize = 32;

/// Why a blob could not be decoded.
#[derive(Clone, Copy, Debug, PartialEq, Eq, Structural)]
pub enum DecodeError {
    /// Fewer bytes remain than a fixed-size field needs.
    Truncated,
    /// A string's length prefix claims more bytes than remain.
    LengthOverrun,
    /// A string's bytes are not valid UTF-8.
    InvalidUtf8,
    /// Bytes remain after the last field.
    TrailingBytes,
}

/// Why settings could not be encoded.
#[derive(Clone, Copy, Debug, PartialEq, Eq, Structural)]
pub enum EncodeError {
    /// A string's UTF-8 length does not fit in its 32-bit length prefix.
    StringTooLong,
}

/// An error of the codec.
#[derive(Clone, Copy, Debug, PartialEq, Eq, Structural)]
pub enum Error {
    /// The blob does not follow the layout.
    Decode(DecodeError),
    /// The record cannot be written in the layout.
    Encode(EncodeError),
}

/// What a settings record holds.
pub struct SettingsModel {
    /// Opaque word.
    pub reserved_a: u32,
    /// Change counter.
    pub version: u32,
    /// The flag word, unknown bits included.
    pub flags: u32,
    /// Proxy server address.
    pub proxy_address: Seq<char>,
    /// Bypass entries, in order.
    pub bypass_list: Seq<Seq<char>>,
    /// Configuration script address.
    pub script_address: Seq<char>,
    /// Opaque trailing bytes.
    pub reserved_b: Seq<u8>,
}

/// A record that the blob can hold as it is: 32 opaque bytes, and bypass
/// entries that come back unchanged from the delimited form.
pub open spec fn well_formed(m: SettingsModel) -> bool {
    &&& m.reserved_b.len() == RESERVED_B_LEN
    &&& forall|i: int| 0 <= i < m.bypass_list.len() ==> is_clean_entry(#[trigger] m.bypass_list[i])
}

/// The 32-bit word at `pos`.
pub open spec fn u32_at(b: Seq<u8>, pos: int) -> u32 {
    le_u32(b.subrange(pos, pos + 4))
}

/// The length-prefixed string at `pos`, with the position after it.
pub open spec fn string_at(b: Seq<u8>, pos: int) -> Result<(Seq<char>, int), DecodeError> {
    if b.len() < pos + 4 {
        Err(DecodeError::Truncated)
    } else {
        let len = u32_at(b, pos) as int;
        let start = pos + 4;
        if b.len() - start < len {
            Err(DecodeError::LengthOverrun)
        } else if !valid_utf8(b.subrange(start, start + len)) {
            Err(DecodeError::InvalidUtf8)
        } else {
            Ok((decode_utf8(b.subrange(start, start + len)), start + len))
        }
    }
}

/// What decoding the blob `b` gives.
pub open spec fn decode_settings(b: Seq<u8>) -> Result<SettingsModel, DecodeError> {
    if b.len() < 12 {
        Err(DecodeError::Truncated)
    } else {
        match string_at(b, 12) {
            Err(e) => Err(e),
            Ok((proxy, p1)) => match string_at(b, p1) {
                Err(e) => Err(e),
                Ok((raw_list, p2)) => match string_at(b, p2) {
                    Err(e) => Err(e),
                    Ok((script, p3)) => {
                        if b.len() < p3 + RESERVED_B_LEN {
                            Err(DecodeError::Truncated)
                        } else if b.len() > p3 + RESERVED_B_LEN {
                            Err(DecodeError::TrailingBytes)
                        } else {
                            Ok(
                                SettingsModel {
                                    reserved_a: u32_at(b, 0),
                                    version: u32_at(b, 4),
                                    flags: u32_at(b, 8),
                                    proxy_address: proxy,
                                    bypass_list: parse_list(raw_list),
                                    script_address: script,
                                    reserved_b: b.subrange(p3, p3 + RESERVED_B_LEN),
                                },
                            )
                        }
                    },
                },
            },
        }
    }
}

/// Whether the UTF-8 length of `s` fits in a length prefix.
pub open spec fn fits_prefix(s: Seq<char>) -> bool {
    encode_utf8(s).len() <= u32::MAX
}

/// `s` as a length prefix followed by its UTF-8 bytes.
pub open spec fn frame(s: Seq<char>) -> Seq<u8> {
    le_bytes(encode_utf8(s).len() as u32) + encode_utf8(s)
}

/// What encoding `m` gives.
pub open spec fn encode_settings(m: SettingsModel) -> Result<Seq<u8>, EncodeError> {
    let list = join_list(m.bypass_list);
    if fits_prefix(m.proxy_address) && fits_prefix(list) && fits_prefix(m.script_address) {
        Ok(
            le_bytes(m.reserved_a) + le_bytes(m.version) + le_bytes(m.flags) + frame(
                m.proxy_address,
            ) + frame(list) + frame(m.script_address) + m.reserved_b,
        )
    } else {
        Err(EncodeError::StringTooLong)
    }
}

proof fn lemma_decode_fields(b: Seq<u8>, m: SettingsModel, p1: int, p2: int, p3: int)
    requires
        b.len() >= 12,
        u32_at(b, 0) == m.reserved_a,
        u32_at(b, 4) == m.version,
        u32_at(b, 8) == m.flags,
        string_at(b, 12) == Ok::<(Seq<char>, int), DecodeError>((m.proxy_address, p1)),
        string_at(b, p1) == Ok::<(Seq<char>, int), DecodeError>((join_list(m.bypass_list), p2)),
        string_at(b, p2) == Ok::<(Seq<char>, int), DecodeError>((m.script_address, p3)),
        b.len() == p3 + RESERVED_B_LEN,
        b.subrange(p3, p3 + RESERVED_B_LEN) == m.reserved_b,
        parse_list(join_list(m.bypass_list)) == m.bypass_list,
    ensures
        decode_settings(b) == Ok::<SettingsModel, DecodeError>(m),
{
}

proof fn lemma_prefix_piece(b: Seq<u8>, pre: Seq<u8>, piece: Seq<u8>)
    requires
        pre.len() + piece.len() <= b.len(),
        b.subrange(0, (pre.len() + piece.len()) as int) == pre + piece,
    ensures
        b.subrange(0, pre.len() as int) == pre,
        b.subrange(pre.len() as int, (pre.len() + piece.len()) as int) == piece,
{
    let n = (pre.len() + piece.len()) as int;
    assert forall|i: int| 0 <= i < n implies b[i] == (pre + piece)[i] by {
        assert(b.subrange(0, n)[i] == b[i]);
    }
    assert(b.subrange(0, pre.len() as int) =~= pre);
    assert(b.subrange(pre.len() as int, n) =~= piece);
}

proof fn lemma_string_at_piece(b: Seq<u8>, pos: int, s: Seq<char>)
    requires
        fits_prefix(s),
        0 <= pos,
        pos + frame(s).len() <= b.len(),
        b.subrange(pos, pos + frame(s).len()) == frame(s),
    ensures
        string_at(b, pos) == Ok::<(Seq<char>, int), DecodeError>((s, pos + frame(s).len())),
{
    broadcast use {encode_utf8_valid_utf8, encode_utf8_decode_utf8};

    let bytes = encode_utf8(s);
    let len = bytes.len() as u32;
    let fr = frame(s);
    lemma_le_round_trip(len);
    assert(b.subrange(pos, pos + 4) =~= fr.subrange(0, 4));
    assert(fr.subrange(0, 4) =~= le_bytes(len));
    assert(b.subrange(pos + 4, pos + 4 + bytes.len()) =~= fr.subrange(4, fr.len() as int));
    assert(fr.subrange(4, fr.len() as int) =~= bytes);
}

/// Decoding an encoded record gives the record back, for every record
/// that the blob can hold as it is.
pub proof fn lemma_encode_decode(m: SettingsModel)
    requires
        well_formed(m),
        encode_settings(m) is Ok,
    ensures
        decode_settings(encode_settings(m)->Ok_0) == Ok::<SettingsModel, DecodeError>(m),
{
    let list = join_list(m.bypass_list);
    let b1 = le_bytes(m.reserved_a);
    let b2 = b1 + le_bytes(m.version);
    let b3 = b2 + le_bytes(m.flags);
    let b4 = b3 + frame(m.proxy_address);
    let b5 = b4 + frame(list);
    let b6 = b5 + frame(m.script_address);
    let b = b6 + m.reserved_b;
    assert(encode_settings(m)->Ok_0 == b);
    assert(b.subrange(0, b.len() as int) =~= b);
    lemma_prefix_piece(b, b6, m.reserved_b);
    lemma_prefix_piece(b, b5, frame(m.script_address));
    lemma_prefix_piece(b, b4, frame(list));
    lemma_prefix_piece(b, b3, frame(m.proxy_address));
    lemma_prefix_piece(b, b2, le_bytes(m.flags));
    lemma_prefix_piece(b, b1, le_bytes(m.version));
    lemma_le_round_trip(m.reserved_a);
    lemma_le_round_trip(m.version);
    lemma_le_round_trip(m.flags);
    lemma_string_at_piece(b, 12, m.proxy_address);
    lemma_string_at_piece(b, b4.len() as int, list);
    lemma_string_at_piece(b, b5.len() as int, m.script_address);
    lemma_parse_join(m.bypass_list);
    lemma_decode_fields(b, m, b4.len() as int, b5.len() as int, b6.len() as int);
}

/// Every record that decoding gives is one that the blob can hold as it is.
pub proof fn lemma_decode_well_formed(b: Seq<u8>)
    requires
        decode_settings(b) is Ok,
    ensures
        well_formed(decode_settings(b)->Ok_0),
{
    let m = decode_settings(b)->Ok_0;
    if let Ok((proxy, p1)) = string_at(b, 12) {
        if let Ok((raw_list, p2)) = string_at(b, p1) {
            lemma_parse_entries_clean(raw_list);
        }
    }
}

/// Every record that decoding gives can be encoded: none of its strings
/// is too long for a length prefix.
pub proof fn lemma_decoded_encodes(b: Seq<u8>)
    requires
        decode_settings(b) is Ok,
    ensures
        encode_settings(decode_settings(b)->Ok_0) is Ok,
{
    broadcast use decode_utf8_encode_utf8;

    if let Ok((proxy, p1)) = string_at(b, 12) {
        if let Ok((raw_list, p2)) = string_at(b, p1) {
            lemma_join_parse_shorter(raw_list);
        }
    }
}

/// For a record decoded from `b`: it can be encoded, and once encoded it
/// decodes to itself, opaque fields included.
pub proof fn lemma_round_trip(b: Seq<u8>)
    requires
        decode_settings(b) is Ok,
    ensures
        encode_settings(decode_settings(b)->Ok_0) is Ok,
        decode_settings(encode_settings(decode_settings(b)->Ok_0)->Ok_0) == decode_settings(b),
{
    lemma_decoded_encodes(b);
    lemma_decode_well_formed(b);
    lemma_encode_decode(decode_settings(b)->Ok_0);
}

/// For a record decoded from `b`, with its flags untouched: encoding it
/// writes the same flag word, unknown bits included.
pub proof fn lemma_flags_word_kept(b: Seq<u8>)
    requires
        decode_settings(b) is Ok,
    ensures
        encode_settings(decode_settings(b)->Ok_0) is Ok,
        encode_settings(decode_settings(b)->Ok_0)->Ok_0.subrange(8, 12) == b.subrange(8, 12),
{
    lemma_decoded_encodes(b);
    let m = decode_settings(b)->Ok_0;
    let c = encode_settings(m)->Ok_0;
    lemma_le_bytes_of_u32(b.subrange(8, 12));
    assert(c.subrange(8, 12) =~= le_bytes(m.flags));
}

proof fn lemma_string_at_prefix(b: Seq<u8>, n: int, pos: int)
    requires
        0 <= pos,
        0 <= n <= b.len(),
        string_at(b.subrange(0, n), pos) is Ok,
    ensures
        string_at(b, pos) == string_at(b.subrange(0, n), pos),
{
    let c = b.subrange(0, n);
    assert(c.subrange(pos, pos + 4) =~= b.subrange(pos, pos + 4));
    let len = u32_at(c, pos) as int;
    assert(c.subrange(pos + 4, pos + 4 + len) =~= b.subrange(pos + 4, pos + 4 + len));
}

/// Every proper prefix of a blob that decodes fails to decode.
pub proof fn lemma_prefix_fails(b: Seq<u8>, n: int)
    requires
        decode_settings(b) is Ok,
        0 <= n < b.len(),
    ensures
        decode_settings(b.subrange(0, n)) is Err,
{
    let c = b.subrange(0, n);
    if n >= 12 {
        if let Ok((proxy, p1)) = string_at(c, 12) {
            lemma_string_at_prefix(b, n, 12);
            if let Ok((raw_list, p2)) = string_at(c, p1) {
                lemma_string_at_prefix(b, n, p1);
                if let Ok((script, p3)) = string_at(c, p2) {
                    lemma_string_at_prefix(b, n, p2);
                }
            }
        }
    }
}

/// A length prefix that claims more bytes than remain makes decoding fail
/// with `LengthOverrun`: that of the proxy address, that of the bypass list
/// once the proxy address is read, and that of the script address once
/// both are read.
pub proof fn lemma_length_overrun(b: Seq<u8>, pos: int)
    requires
        b.len() >= 12,
        pos == 12 || (string_at(b, 12) matches Ok((_, p1)) && (pos == p1 || (string_at(
            b,
            p1,
        ) matches Ok((_, p2)) && pos == p2))),
        pos + 4 <= b.len(),
        u32_at(b, pos) > b.len() - (pos + 4),
    ensures
        decode_settings(b) == Err::<SettingsModel, DecodeError>(DecodeError::LengthOverrun),
{
}

} // verus!
