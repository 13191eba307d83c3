//! The settings record, and decoding it from and encoding it to a blob.

use vstd::prelude::*;
use vstd::slice::{slice_subrange, slice_to_vec};
use vstd::utf8::{decode_utf8, valid_utf8};
use crate::bytes::{push_u32_le, read_u32_le};
use crate::bypass::{join_bypass_list, join_list, parse_bypass_list, parse_list, strings_view};
use crate::codec::{
    decode_settings, encode_settings, fits_prefix, frame, string_at, DecodeError, EncodeError,
    Error, SettingsModel, RESERVED_B_LEN,
};
use crate::flags::{has_bits, with_bits, Flags, AUTO_DETECT, AUTO_PROXY_URL, DIRECT, PROXY};

verus! {

/// The value of `reserved_a` in a new record.
pub const DEFAULT_RESERVED_A: u32 = 70;

/// A host's default connection settings.
pub struct DefaultConnectionSettings {
    /// Opaque; kept as it was read.
    pub reserved_a: u32,
    /// Change counter; the codec never changes it.
    pub version: u32,
    /// Which connection modes are on; unknown bits are kept.
    pub flags: Flags,
    /// The proxy server, by convention `host:port`.
    pub proxy_address: String,
    /// Address patterns that bypass the proxy, in order.
    pub bypass_list: Vec<String>,
    /// The address of the automatic configuration script.
    pub script_address: String,
    /// Opaque; kept as it was read.
    pub reserved_b: [u8; 32],
}

impl View for DefaultConnectionSettings {
    type V = SettingsModel;

    open spec fn view(&self) -> SettingsModel {
        SettingsModel {
            reserved_a: self.reserved_a,
            version: self.version,
            flags: self.flags@,
            proxy_address: self.proxy_address@,
            bypass_list: strings_view(self.bypass_list@),
            script_address: self.script_address@,
            reserved_b: self.reserved_b@,
        }
    }
}

/// A new record: `reserved_a` of the default value, direct connection,
/// everything else zero or empty.
pub open spec fn default_model() -> SettingsModel {
    SettingsModel {
        reserved_a: DEFAULT_RESERVED_A,
        version: 0,
        flags: DIRECT,
        proxy_address: Seq::empty(),
        bypass_list: Seq::empty(),
        script_address: Seq::empty(),
        reserved_b: Seq::new(RESERVED_B_LEN as nat, |i: int| 0u8),
    }
}

/// `m` with its flag word replaced.
pub open spec fn with_flags(m: SettingsModel, flags: u32) -> SettingsModel {
    SettingsModel { flags, ..m }
}

impl Default for DefaultConnectionSettings {
    /// A new record, as the host sets it up.
    fn default() -> (r: Self)
        ensures
            r@ == default_model(),
    {
        let r = DefaultConnectionSettings {
            reserved_a: DEFAULT_RESERVED_A,
            version: 0,
            flags: Flags::from_bits_retain(DIRECT),
            proxy_address: String::new(),
            bypass_list: Vec::new(),
            script_address: String::new(),
            reserved_b: [0u8; 32],
        };
        assert(r@.reserved_b =~= default_model().reserved_b);
        assert(r@.bypass_list =~= Seq::<Seq<char>>::empty());
        r
    }
}

/// Relies on `String::from_utf8`: it succeeds exactly when the bytes are
/// valid UTF-8, and the string then holds the characters they encode.
#[verifier::external_body]
fn string_from_utf8(bytes: Vec<u8>) -> (r: Option<String>)
    ensures
        r is Some <==> valid_utf8(bytes@),
        r matches Some(s) ==> s@ == decode_utf8(bytes@),
{
    String::from_utf8(bytes).ok()
}

/// Reads the length-prefixed string at `pos`, with the position after it.
fn read_string(data: &[u8], pos: usize) -> (r: Result<(String, usize), DecodeError>)
    requires
        pos <= data@.len(),
    ensures
        match string_at(data@, pos as int) {
            Ok((s, next)) => r is Ok && r->Ok_0.0@ == s && r->Ok_0.1 == next,
            Err(e) => r == Err::<(String, usize), DecodeError>(e),
        },
{
    if data.len() - pos < 4 {
        return Err(DecodeError::Truncated);
    }
    let len = read_u32_le(data, pos) as usize;
    let start = pos + 4;
    if len > data.len() - start {
        return Err(DecodeError::LengthOverrun);
    }
    let bytes = slice_to_vec(slice_subrange(data, start, start + len));
    match string_from_utf8(bytes) {
        Some(s) => Ok((s, start + len)),
        None => Err(DecodeError::InvalidUtf8),
    }
}

/// Appends `s` as a length prefix followed by its UTF-8 bytes. Fails, and
/// appends nothing, when the UTF-8 length does not fit in the prefix.
fn write_string(out: &mut Vec<u8>, s: &str) -> (r: Result<(), EncodeError>)
    ensures
        fits_prefix(s@) ==> r is Ok && final(out)@ == old(out)@ + frame(s@),
        !fits_prefix(s@) ==> r == Err::<(), EncodeError>(EncodeError::StringTooLong)
            && final(out)@ == old(out)@,
{
    let bytes = s.as_bytes();
    if bytes.len() > 0xffff_ffff {
        return Err(EncodeError::StringTooLong);
    }
    push_u32_le(out, bytes.len() as u32);
    out.extend_from_slice(bytes);
    assert(out@ =~= old(out)@ + frame(s@));
    Ok(())
}

impl DefaultConnectionSettings {
    /// Decodes a blob. Fails, with the reason, exactly where the layout is
    /// not met: too few bytes for a field, a length prefix past the end,
    /// a string that is not UTF-8, or bytes left after the last field.
    pub fn from_bytes(data: &[u8]) -> (r: Result<Self, Error>)
        ensures
            match decode_settings(data@) {
                Ok(m) => r is Ok && r->Ok_0@ == m,
                Err(e) => r == Err::<Self, Error>(Error::Decode(e)),
            },
    {
        if data.len() < 12 {
            return Err(Error::Decode(DecodeError::Truncated));
        }
        let reserved_a = read_u32_le(data, 0);
        let version = read_u32_le(data, 4);
        let flags = read_u32_le(data, 8);
        let (proxy_address, p1) = match read_string(data, 12) {
            Ok(x) => x,
            Err(e) => {
                return Err(Error::Decode(e));
            },
        };
        let (raw_list, p2) = match read_string(data, p1) {
            Ok(x) => x,
            Err(e) => {
                return Err(Error::Decode(e));
            },
        };
        let (script_address, p3) = match read_string(data, p2) {
            Ok(x) => x,
            Err(e) => {
                return Err(Error::Decode(e));
            },
        };
        if data.len() - p3 < RESERVED_B_LEN {
            return Err(Error::Decode(DecodeError::Truncated));
        }
        if data.len() - p3 > RESERVED_B_LEN {
            return Err(Error::Decode(DecodeError::TrailingBytes));
        }
        let n = data.len();
        let mut reserved_b = [0u8; 32];
        let mut k: usize = 0;
        while k < RESERVED_B_LEN
            invariant
                n == data@.len(),
                p3 + RESERVED_B_LEN == n,
                k <= RESERVED_B_LEN,
                reserved_b@.len() == RESERVED_B_LEN,
                forall|i: int| 0 <= i < k ==> reserved_b@[i] == data@[p3 + i],
            decreases RESERVED_B_LEN - k,
        {
            reserved_b[k] = data[p3 + k];
            k = k + 1;
        }
        assert(reserved_b@ =~= data@.subrange(p3 as int, p3 + RESERVED_B_LEN));
        let bypass_list = parse_bypass_list(raw_list.as_str());
        Ok(
            DefaultConnectionSettings {
                reserved_a,
                version,
                flags: Flags::from_bits_retain(flags),
                proxy_address,
                bypass_list,
                script_address,
                reserved_b,
            },
        )
    }

    /// Encodes the record as a blob. Fails exactly when the UTF-8 form of
    /// the proxy address, of the delimited bypass list or of the script
    /// address is too long for its length prefix.
    pub fn try_into_bytes(self) -> (r: Result<Vec<u8>, Error>)
        ensures
            match encode_settings(self@) {
                Ok(b) => r is Ok && r->Ok_0@ == b,
                Err(e) => r == Err::<Vec<u8>, Error>(Error::Encode(e)),
            },
    {
        let list = self.bypass_list_string();
        let mut out: Vec<u8> = Vec::new();
        push_u32_le(&mut out, self.reserved_a);
        push_u32_le(&mut out, self.version);
        push_u32_le(&mut out, self.flags.bits());
        if let Err(e) = write_string(&mut out, self.proxy_address.as_str()) {
            return Err(Error::Encode(e));
        }
        if let Err(e) = write_string(&mut out, list.as_str()) {
            return Err(Error::Encode(e));
        }
        if let Err(e) = write_string(&mut out, self.script_address.as_str()) {
            return Err(Error::Encode(e));
        }
        let ghost before = out@;
        out.extend_from_slice(self.reserved_b.as_slice());
        assert(out@ =~= before + self.reserved_b@);
        Ok(out)
    }

    /// Whether the proxy is enabled.
    pub fn is_proxy_enabled(&self) -> (r: bool)
        ensures
            r == has_bits(self@.flags, PROXY),
    {
        self.flags.contains(PROXY)
    }

    /// Enables or disables the proxy; nothing else changes.
    pub fn set_proxy_enabled(&mut self, enabled: bool)
        ensures
            final(self)@ == with_flags(old(self)@, with_bits(old(self)@.flags, PROXY, enabled)),
    {
        self.flags.set(PROXY, enabled);
    }

    /// Enables the proxy; nothing else changes.
    pub fn enable_proxy(&mut self)
        ensures
            final(self)@ == with_flags(old(self)@, with_bits(old(self)@.flags, PROXY, true)),
    {
        self.set_proxy_enabled(true);
    }

    /// Disables the proxy; nothing else changes.
    pub fn disable_proxy(&mut self)
        ensures
            final(self)@ == with_flags(old(self)@, with_bits(old(self)@.flags, PROXY, false)),
    {
        self.set_proxy_enabled(false);
    }

    /// Whether the automatic configuration script is enabled.
    pub fn is_script_enabled(&self) -> (r: bool)
        ensures
            r == has_bits(self@.flags, AUTO_PROXY_URL),
    {
        self.flags.contains(AUTO_PROXY_URL)
    }

    /// Enables or disables the automatic configuration script; nothing else
    /// changes.
    pub fn set_script_enabled(&mut self, enabled: bool)
        ensures
            final(self)@ == with_flags(
                old(self)@,
                with_bits(old(self)@.flags, AUTO_PROXY_URL, enabled),
            ),
    {
        self.flags.set(AUTO_PROXY_URL, enabled);
    }

    /// Enables the automatic configuration script; nothing else changes.
    pub fn enable_script(&mut self)
        ensures
            final(self)@ == with_flags(
                old(self)@,
                with_bits(old(self)@.flags, AUTO_PROXY_URL, true),
            ),
    {
        self.set_script_enabled(true);
    }

    /// Disables the automatic configuration script; nothing else changes.
    pub fn disable_script(&mut self)
        ensures
            final(self)@ == with_flags(
                old(self)@,
                with_bits(old(self)@.flags, AUTO_PROXY_URL, false),
            ),
    {
        self.set_script_enabled(false);
    }

    /// Whether automatic detection is enabled.
    pub fn is_auto_detect_enabled(&self) -> (r: bool)
        ensures
            r == has_bits(self@.flags, AUTO_DETECT),
    {
        self.flags.contains(AUTO_DETECT)
    }

    /// Enables or disables automatic detection; nothing else changes.
    pub fn set_auto_detect_enabled(&mut self, enabled: bool)
        ensures
            final(self)@ == with_flags(
                old(self)@,
                with_bits(old(self)@.flags, AUTO_DETECT, enabled),
            ),
    {
        self.flags.set(AUTO_DETECT, enabled);
    }

    /// Enables automatic detection; nothing else changes.
    pub fn enable_auto_detect(&mut self)
        ensures
            final(self)@ == with_flags(old(self)@, with_bits(old(self)@.flags, AUTO_DETECT, true)),
    {
        self.set_auto_detect_enabled(true);
    }

    /// Disables automatic detection; nothing else changes.
    pub fn disable_auto_detect(&mut self)
        ensures
            final(self)@ == with_flags(
                old(self)@,
                with_bits(old(self)@.flags, AUTO_DETECT, false),
            ),
    {
        self.set_auto_detect_enabled(false);
    }

    /// Replaces the bypass list by the entries of a delimited string;
    /// nothing else changes.
    pub fn set_bypass_list_from_str(&mut self, bypass_list: &str)
        ensures
            final(self)@ == (SettingsModel { bypass_list: parse_list(bypass_list@), ..old(self)@ }),
    {
        self.bypass_list = parse_bypass_list(bypass_list);
    }

    /// The bypass list in its delimited form: each entry trimmed, joined by
    /// the delimiter.
    pub fn bypass_list_string(&self) -> (r: String)
        ensures
            r@ == join_list(self@.bypass_list),
    {
        join_bypass_list(&self.bypass_list)
    }
}

impl TryFrom<&[u8]> for DefaultConnectionSettings {
    type Error = Error;

    /// Decodes a blob, as `from_bytes` does.
    fn try_from(value: &[u8]) -> (r: Result<Self, Error>)
        ensures
            match decode_settings(value@) {
                Ok(m) => r is Ok && r->Ok_0@ == m,
                Err(e) => r == Err::<Self, Error>(Error::Decode(e)),
            },
    {
        Self::from_bytes(value)
    }
}

impl vstd::std_specs::convert::TryFromSpecImpl<&[u8]> for DefaultConnectionSettings {
    open spec fn obeys_try_from_spec() -> bool {
        false
    }

    open spec fn try_from_spec(v: &[u8]) -> Result<Self, Error> {
        arbitrary()
    }
}

impl TryFrom<DefaultConnectionSettings> for Vec<u8> {
    type Error = Error;

    /// Encodes the settings, as `try_into_bytes` does.
    fn try_from(settings: DefaultConnectionSettings) -> (r: Result<Self, Error>)
        ensures
            match encode_settings(settings@) {
                Ok(b) => r is Ok && r->Ok_0@ == b,
                Err(e) => r == Err::<Vec<u8>, Error>(Error::Encode(e)),
            },
    {
        settings.try_into_bytes()
    }
}

impl vstd::std_specs::convert::TryFromSpecImpl<DefaultConnectionSettings> for Vec<u8> {
    open spec fn obeys_try_from_spec() -> bool {
        false
    }

    open spec fn try_from_spec(v: DefaultConnectionSettings) -> Result<Self, Error> {
        arbitrary()
    }
}

} // verus!
