//! Decoding of file names: from the name of a character set and bytes to a
//! string.

use encoding::all;
use encoding::{DecoderTrap, Encoding as Codec};
use vstd::prelude::*;
use vstd::string::StringSliceAdditionalSpecFns;
use crate::bytes::same_bytes;

verus! {

/// The character sets that can be decoded.
#[derive(Debug, Clone, Copy, PartialEq, Eq, Structural)]
pub enum Decoder {
    /// US-ASCII.
    Ascii,
    /// ISO-8859-1.
    Iso8859_1,
    /// ISO-8859-2.
    Iso8859_2,
    /// ISO-8859-3.
    Iso8859_3,
    /// ISO-8859-4.
    Iso8859_4,
    /// ISO-8859-5.
    Iso8859_5,
    /// ISO-8859-6.
    Iso8859_6,
    /// ISO-8859-7.
    Iso8859_7,
    /// ISO-8859-8.
    Iso8859_8,
    /// ISO-8859-10.
    Iso8859_10,
    /// EUC-JP.
    EucJp,
    /// ISO-2022-JP.
    Iso2022Jp,
    /// Big5.
    Big5,
    /// KOI8-R.
    Koi8R,
    /// UTF-8.
    Utf8,
}

/// What the encoding crate's strict decoder for a character set makes of
/// `bytes`: the decoded string, or the reason why the bytes are not a text in
/// that character set.
pub uninterp spec fn strict_decoding(decoder: Decoder, bytes: Seq<u8>) -> Result<
    Seq<char>,
    Seq<char>,
>;

/// What the result of a decoding holds: the characters of the text, or
/// those of the complaint.
pub open spec fn text_of(r: Result<String, String>) -> Result<Seq<char>, Seq<char>> {
    match r {
        Ok(text) => Ok(text@),
        Err(why) => Err(why@),
    }
}

/// Every byte as the character with the same number.
pub open spec fn latin1(bytes: Seq<u8>) -> Seq<char> {
    bytes.map_values(|b: u8| b as char)
}

/// Every byte is an ASCII character.
pub open spec fn is_ascii_text(bytes: Seq<u8>) -> bool {
    forall|i: int| 0 <= i < bytes.len() ==> #[trigger] bytes[i] < 128
}

/// The text that `bytes` stand for in a character set, or the reason why
/// they stand for none.  ASCII text is itself, and bytes beyond ASCII are an
/// invalid sequence; in ISO-8859-1 every byte is the character with the same
/// number; the other character sets are tables of the encoding crate.
pub open spec fn decoded(decoder: Decoder, bytes: Seq<u8>) -> Result<Seq<char>, Seq<char>> {
    match decoder {
        Decoder::Ascii => if is_ascii_text(bytes) {
            Ok(latin1(bytes))
        } else {
            Err("invalid sequence"@)
        },
        Decoder::Iso8859_1 => Ok(latin1(bytes)),
        _ => strict_decoding(decoder, bytes),
    }
}

/// `decode` of `encoding::all::ASCII`, with the strict trap: the bytes as
/// they are, if all of them are ASCII characters, and else the complaint of
/// an invalid sequence.
#[verifier::external_body]
fn decode_ascii(bytes: &[u8]) -> (r: Result<String, String>)
    ensures
        text_of(r) == decoded(Decoder::Ascii, bytes@),
{
    all::ASCII.decode(bytes, DecoderTrap::Strict).map_err(|why| why.into_owned())
}

/// `decode` of `encoding::all::ISO_8859_1`, with the strict trap: every
/// byte as the character with the same number.  It never fails.
#[verifier::external_body]
fn decode_iso_8859_1(bytes: &[u8]) -> (r: Result<String, String>)
    ensures
        text_of(r) == decoded(Decoder::Iso8859_1, bytes@),
{
    all::ISO_8859_1.decode(bytes, DecoderTrap::Strict).map_err(|why| why.into_owned())
}

/// `decode` of `encoding::all::ISO_8859_2`, with the strict trap.
#[verifier::external_body]
fn decode_iso_8859_2(bytes: &[u8]) -> (r: Result<String, String>)
    ensures
        text_of(r) == strict_decoding(Decoder::Iso8859_2, bytes@),
{
    all::ISO_8859_2.decode(bytes, DecoderTrap::Strict).map_err(|why| why.into_owned())
}

/// `decode` of `encoding::all::ISO_8859_3`, with the strict trap.
#[verifier::external_body]
fn decode_iso_8859_3(bytes: &[u8]) -> (r: Result<String, String>)
    ensures
        text_of(r) == strict_decoding(Decoder::Iso8859_3, bytes@),
{
    all::ISO_8859_3.decode(bytes, DecoderTrap::Strict).map_err(|why| why.into_owned())
}

/// `decode` of `encoding::all::ISO_8859_4`, with the strict trap.
#[verifier::external_body]
fn decode_iso_8859_4(bytes: &[u8]) -> (r: Result<String, String>)
    ensures
        text_of(r) == strict_decoding(Decoder::Iso8859_4, bytes@),
{
    all::ISO_8859_4.decode(bytes, DecoderTrap::Strict).map_err(|why| why.into_owned())
}

/// `decode` of `encoding::all::ISO_8859_5`, with the strict trap.
#[verifier::external_body]
fn decode_iso_8859_5(bytes: &[u8]) -> (r: Result<String, String>)
    ensures
        text_of(r) == strict_decoding(Decoder::Iso8859_5, bytes@),
{
    all::ISO_8859_5.decode(bytes, DecoderTrap::Strict).map_err(|why| why.into_owned())
}

/// `decode` of `encoding::all::ISO_8859_6`, with the strict trap.
#[verifier::external_body]
fn decode_iso_8859_6(bytes: &[u8]) -> (r: Result<String, String>)
    ensures
        text_of(r) == strict_decoding(Decoder::Iso8859_6, bytes@),
{
    all::ISO_8859_6.decode(bytes, DecoderTrap::Strict).map_err(|why| why.into_owned())
}

/// `decode` of `encoding::all::ISO_8859_7`, with the strict trap.
#[verifier::external_body]
fn decode_iso_8859_7(bytes: &[u8]) -> (r: Result<String, String>)
    ensures
        text_of(r) == strict_decoding(Decoder::Iso8859_7, bytes@),
{
    all::ISO_8859_7.decode(bytes, DecoderTrap::Strict).map_err(|why| why.into_owned())
}

/// `decode` of `encoding::all::ISO_8859_8`, with the strict trap.
#[verifier::external_body]
fn decode_iso_8859_8(bytes: &[u8]) -> (r: Result<String, String>)
    ensures
        text_of(r) == strict_decoding(Decoder::Iso8859_8, bytes@),
{
    all::ISO_8859_8.decode(bytes, DecoderTrap::Strict).map_err(|why| why.into_owned())
}

/// `decode` of `encoding::all::ISO_8859_10`, with the strict trap.
#[verifier::external_body]
fn decode_iso_8859_10(bytes: &[u8]) -> (r: Result<String, String>)
    ensures
        text_of(r) == strict_decoding(Decoder::Iso8859_10, bytes@),
{
    all::ISO_8859_10.decode(bytes, DecoderTrap::Strict).map_err(|why| why.into_owned())
}

/// `decode` of `encoding::all::EUC_JP`, with the strict trap.
#[verifier::external_body]
fn decode_euc_jp(bytes: &[u8]) -> (r: Result<String, String>)
    ensures
        text_of(r) == strict_decoding(Decoder::EucJp, bytes@),
{
    all::EUC_JP.decode(bytes, DecoderTrap::Strict).map_err(|why| why.into_owned())
}

/// `decode` of `encoding::all::ISO_2022_JP`, with the strict trap.
#[verifier::external_body]
fn decode_iso_2022_jp(bytes: &[u8]) -> (r: Result<String, String>)
    ensures
        text_of(r) == strict_decoding(Decoder::Iso2022Jp, bytes@),
{
    all::ISO_2022_JP.decode(bytes, DecoderTrap::Strict).map_err(|why| why.into_owned())
}

/// `decode` of `encoding::all::BIG5_2003`, with the strict trap.
#[verifier::external_body]
fn decode_big5(bytes: &[u8]) -> (r: Result<String, String>)
    ensures
        text_of(r) == strict_decoding(Decoder::Big5, bytes@),
{
    all::BIG5_2003.decode(bytes, DecoderTrap::Strict).map_err(|why| why.into_owned())
}

/// `decode` of `encoding::all::KOI8_R`, with the strict trap.
#[verifier::external_body]
fn decode_koi8_r(bytes: &[u8]) -> (r: Result<String, String>)
    ensures
        text_of(r) == strict_decoding(Decoder::Koi8R, bytes@),
{
    all::KOI8_R.decode(bytes, DecoderTrap::Strict).map_err(|why| why.into_owned())
}

/// `decode` of `encoding::all::UTF_8`, with the strict trap.
#[verifier::external_body]
fn decode_utf_8(bytes: &[u8]) -> (r: Result<String, String>)
    ensures
        text_of(r) == strict_decoding(Decoder::Utf8, bytes@),
{
    all::UTF_8.decode(bytes, DecoderTrap::Strict).map_err(|why| why.into_owned())
}

/// Decodes `bytes` with the strict decoder for a character set.
pub fn decode(decoder: Decoder, bytes: &[u8]) -> (r: Result<String, String>)
    ensures
        text_of(r) == decoded(decoder, bytes@),
{
    match decoder {
        Decoder::Ascii => decode_ascii(bytes),
        Decoder::Iso8859_1 => decode_iso_8859_1(bytes),
        Decoder::Iso8859_2 => decode_iso_8859_2(bytes),
        Decoder::Iso8859_3 => decode_iso_8859_3(bytes),
        Decoder::Iso8859_4 => decode_iso_8859_4(bytes),
        Decoder::Iso8859_5 => decode_iso_8859_5(bytes),
        Decoder::Iso8859_6 => decode_iso_8859_6(bytes),
        Decoder::Iso8859_7 => decode_iso_8859_7(bytes),
        Decoder::Iso8859_8 => decode_iso_8859_8(bytes),
        Decoder::Iso8859_10 => decode_iso_8859_10(bytes),
        Decoder::EucJp => decode_euc_jp(bytes),
        Decoder::Iso2022Jp => decode_iso_2022_jp(bytes),
        Decoder::Big5 => decode_big5(bytes),
        Decoder::Koi8R => decode_koi8_r(bytes),
        Decoder::Utf8 => decode_utf_8(bytes),
    }
}

/// The decoder for the character set that goes by `name`, or the message
/// that says that there is none.  The names are those of the IANA registry in
/// upper case, but for Big5, which goes by `5`.
pub open spec fn decoder_for(name: Seq<u8>) -> Result<Decoder, Seq<char>> {
    if name == "US-ASCII".spec_bytes() {
        Ok(Decoder::Ascii)
    } else if name == "ISO-8859-1".spec_bytes() {
        Ok(Decoder::Iso8859_1)
    } else if name == "ISO-8859-2".spec_bytes() {
        Ok(Decoder::Iso8859_2)
    } else if name == "ISO-8859-3".spec_bytes() {
        Ok(Decoder::Iso8859_3)
    } else if name == "ISO-8859-4".spec_bytes() {
        Ok(Decoder::Iso8859_4)
    } else if name == "ISO-8859-5".spec_bytes() {
        Ok(Decoder::Iso8859_5)
    } else if name == "ISO-8859-6".spec_bytes() {
        Ok(Decoder::Iso8859_6)
    } else if name == "ISO-8859-7".spec_bytes() {
        Ok(Decoder::Iso8859_7)
    } else if name == "ISO-8859-8".spec_bytes() {
        Ok(Decoder::Iso8859_8)
    } else if name == "ISO-8859-9".spec_bytes() {
        Err("ISO_8859_9 is not supported"@)
    } else if name == "ISO-8859-10".spec_bytes() {
        Ok(Decoder::Iso8859_10)
    } else if name == "Shift-JIS".spec_bytes() {
        Err("Shift_Jis is not supported"@)
    } else if name == "EUC-JP".spec_bytes() {
        Ok(Decoder::EucJp)
    } else if name == "ISO-2022-KR".spec_bytes() {
        Err("Iso_2022_Kr is not supported"@)
    } else if name == "EUC-KR".spec_bytes() {
        Err("Euc_Kr is not supported"@)
    } else if name == "ISO-2022-JP".spec_bytes() {
        Ok(Decoder::Iso2022Jp)
    } else if name == "ISO-2022-JP-2".spec_bytes() {
        Err("Iso_2022_Jp_2 is not supported"@)
    } else if name == "ISO-8859-6-E".spec_bytes() {
        Err("Iso_8859_6_E is not supported"@)
    } else if name == "ISO-8859-6-I".spec_bytes() {
        Err("Iso_8859_6_I is not supported"@)
    } else if name == "ISO-8859-8-E".spec_bytes() {
        Err("Iso_8859_8_E is not supported"@)
    } else if name == "ISO-8859-8-I".spec_bytes() {
        Err("Iso_8859_8_I is not supported"@)
    } else if name == "GB2312".spec_bytes() {
        Err("Gb2312 is not supported"@)
    } else if name == "5".spec_bytes() {
        Ok(Decoder::Big5)
    } else if name == "KOI8-R".spec_bytes() {
        Ok(Decoder::Koi8R)
    } else if name == "UTF-8".spec_bytes() {
        Ok(Decoder::Utf8)
    } else {
        Err("Encoding is not supported"@)
    }
}

/// The decoder for the character set that goes by `name`.
pub fn find_decoder(name: &[u8]) -> (r: Result<Decoder, String>)
    ensures
        match r {
            Ok(d) => decoder_for(name@) == Ok::<Decoder, Seq<char>>(d),
            Err(why) => decoder_for(name@) == Err::<Decoder, Seq<char>>(why@),
        },
{
    if same_bytes(name, "US-ASCII".as_bytes()) {
        Ok(Decoder::Ascii)
    } else if same_bytes(name, "ISO-8859-1".as_bytes()) {
        Ok(Decoder::Iso8859_1)
    } else if same_bytes(name, "ISO-8859-2".as_bytes()) {
        Ok(Decoder::Iso8859_2)
    } else if same_bytes(name, "ISO-8859-3".as_bytes()) {
        Ok(Decoder::Iso8859_3)
    } else if same_bytes(name, "ISO-8859-4".as_bytes()) {
        Ok(Decoder::Iso8859_4)
    } else if same_bytes(name, "ISO-8859-5".as_bytes()) {
        Ok(Decoder::Iso8859_5)
    } else if same_bytes(name, "ISO-8859-6".as_bytes()) {
        Ok(Decoder::Iso8859_6)
    } else if same_bytes(name, "ISO-8859-7".as_bytes()) {
        Ok(Decoder::Iso8859_7)
    } else if same_bytes(name, "ISO-8859-8".as_bytes()) {
        Ok(Decoder::Iso8859_8)
    } else if same_bytes(name, "ISO-8859-9".as_bytes()) {
        Err("ISO_8859_9 is not supported".to_owned())
    } else if same_bytes(name, "ISO-8859-10".as_bytes()) {
        Ok(Decoder::Iso8859_10)
    } else if same_bytes(name, "Shift-JIS".as_bytes()) {
        Err("Shift_Jis is not supported".to_owned())
    } else if same_bytes(name, "EUC-JP".as_bytes()) {
        Ok(Decoder::EucJp)
    } else if same_bytes(name, "ISO-2022-KR".as_bytes()) {
        Err("Iso_2022_Kr is not supported".to_owned())
    } else if same_bytes(name, "EUC-KR".as_bytes()) {
        Err("Euc_Kr is not supported".to_owned())
    } else if same_bytes(name, "ISO-2022-JP".as_bytes()) {
        Ok(Decoder::Iso2022Jp)
    } else if same_bytes(name, "ISO-2022-JP-2".as_bytes()) {
        Err("Iso_2022_Jp_2 is not supported".to_owned())
    } else if same_bytes(name, "ISO-8859-6-E".as_bytes()) {
        Err("Iso_8859_6_E is not supported".to_owned())
    } else if same_bytes(name, "ISO-8859-6-I".as_bytes()) {
        Err("Iso_8859_6_I is not supported".to_owned())
    } else if same_bytes(name, "ISO-8859-8-E".as_bytes()) {
        Err("Iso_8859_8_E is not supported".to_owned())
    } else if same_bytes(name, "ISO-8859-8-I".as_bytes()) {
        Err("Iso_8859_8_I is not supported".to_owned())
    } else if same_bytes(name, "GB2312".as_bytes()) {
        Err("Gb2312 is not supported".to_owned())
    } else if same_bytes(name, "5".as_bytes()) {
        Ok(Decoder::Big5)
    } else if same_bytes(name, "KOI8-R".as_bytes()) {
        Ok(Decoder::Koi8R)
    } else if same_bytes(name, "UTF-8".as_bytes()) {
        Ok(Decoder::Utf8)
    } else {
        Err("Encoding is not supported".to_owned())
    }
}

/// The text that `bytes` stand for in the character set that goes by
/// `charset`, or the message that says why there is none: the character set
/// is not supported, or the bytes are no text in it.
pub open spec fn charset_decoded(charset: Seq<u8>, bytes: Seq<u8>) -> Result<Seq<char>, Seq<char>> {
    match decoder_for(charset) {
        Ok(decoder) => decoded(decoder, bytes),
        Err(why) => Err(why),
    }
}

/// Decodes `bytes` as a text in the character set that goes by `charset`.
pub fn charset_decode(charset: &[u8], bytes: &[u8]) -> (r: Result<String, String>)
    ensures
        text_of(r) == charset_decoded(charset@, bytes@),
{
    match find_decoder(charset) {
        Ok(decoder) => decode(decoder, bytes),
        Err(why) => Err(why),
    }
}

} // verus!
