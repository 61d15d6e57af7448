//! Sound parameters.
//!
//! Closed enumerations describing how an audio payload is coded; the
//! payload bytes themselves stay opaque to this model.
use vstd::prelude::*;

use crate::value::{DecodeError, Val, Value, str_is};

verus! {

broadcast use vstd::std_specs::vec::group_vec_axioms, vstd::seq::group_seq_axioms;

/// The coding format of an audio payload.
#[derive(Copy, Clone, Debug, PartialEq, Eq, Hash, Structural)]
pub enum AudioCodingFormat {
    UncompressedNativeEndian,
    Adpcm,
    Mp3,
    UncompressedLittleEndian,
    Nellymoser16,
    Nellymoser8,
    Nellymoser,
    Speex,
}

/// The symbolic discriminant of a `AudioCodingFormat` variant.
pub open spec fn audio_coding_format_text(x: AudioCodingFormat) -> Seq<char> {
    match x {
        AudioCodingFormat::UncompressedNativeEndian => "uncompressed-native-endian"@,
        AudioCodingFormat::Adpcm => "adpcm"@,
        AudioCodingFormat::Mp3 => "mp3"@,
        AudioCodingFormat::UncompressedLittleEndian => "uncompressed-little-endian"@,
        AudioCodingFormat::Nellymoser16 => "nellymoser16"@,
        AudioCodingFormat::Nellymoser8 => "nellymoser8"@,
        AudioCodingFormat::Nellymoser => "nellymoser"@,
        AudioCodingFormat::Speex => "speex"@,
    }
}

/// The interchange encoding of a `AudioCodingFormat`: its discriminant as text.
pub open spec fn enc_audio_coding_format(t: AudioCodingFormat) -> Val {
    Val::Str(audio_coding_format_text(t))
}

/// Whether `v` is the discriminant of some `AudioCodingFormat` variant.
pub open spec fn dec_ok_audio_coding_format(v: Val) -> bool {
    ||| v == Val::Str("uncompressed-native-endian"@)
    ||| v == Val::Str("adpcm"@)
    ||| v == Val::Str("mp3"@)
    ||| v == Val::Str("uncompressed-little-endian"@)
    ||| v == Val::Str("nellymoser16"@)
    ||| v == Val::Str("nellymoser8"@)
    ||| v == Val::Str("nellymoser"@)
    ||| v == Val::Str("speex"@)
}

impl AudioCodingFormat {
    /// Encodes to the interchange form.
    pub fn encode(&self) -> (v: Value)
        ensures
            v@ == enc_audio_coding_format(*self),
    {
        let s: &str = match self {
            AudioCodingFormat::UncompressedNativeEndian => "uncompressed-native-endian",
            AudioCodingFormat::Adpcm => "adpcm",
            AudioCodingFormat::Mp3 => "mp3",
            AudioCodingFormat::UncompressedLittleEndian => "uncompressed-little-endian",
            AudioCodingFormat::Nellymoser16 => "nellymoser16",
            AudioCodingFormat::Nellymoser8 => "nellymoser8",
            AudioCodingFormat::Nellymoser => "nellymoser",
            AudioCodingFormat::Speex => "speex",
        };
        Value::Str(s.to_owned())
    }

    /// Decodes from the interchange form; any text outside the closed
    /// variant set is rejected.
    pub fn decode(v: &Value) -> (r: Result<Self, DecodeError>)
        ensures
            r is Ok <==> dec_ok_audio_coding_format(v@),
            r matches Ok(t) ==> v@ == enc_audio_coding_format(t),
    {
        let s = match v {
            Value::Str(s) => s,
            _ => {
                return Err(DecodeError::UnknownVariant);
            },
        };
        if str_is(s, "uncompressed-native-endian") {
            Ok(AudioCodingFormat::UncompressedNativeEndian)
        } else if str_is(s, "adpcm") {
            Ok(AudioCodingFormat::Adpcm)
        } else if str_is(s, "mp3") {
            Ok(AudioCodingFormat::Mp3)
        } else if str_is(s, "uncompressed-little-endian") {
            Ok(AudioCodingFormat::UncompressedLittleEndian)
        } else if str_is(s, "nellymoser16") {
            Ok(AudioCodingFormat::Nellymoser16)
        } else if str_is(s, "nellymoser8") {
            Ok(AudioCodingFormat::Nellymoser8)
        } else if str_is(s, "nellymoser") {
            Ok(AudioCodingFormat::Nellymoser)
        } else if str_is(s, "speex") {
            Ok(AudioCodingFormat::Speex)
        } else {
            Err(DecodeError::UnknownVariant)
        }
    }
}

/// Field-wise equality of two `AudioCodingFormat` values.
pub open spec fn eq_audio_coding_format(a: AudioCodingFormat, b: AudioCodingFormat) -> bool {
    a == b
}

/// Round trip: every discriminant is in the closed set and decodes back
/// to the same variant.
pub proof fn lemma_audio_coding_format_round_trip(a: AudioCodingFormat, b: AudioCodingFormat)
    ensures
        dec_ok_audio_coding_format(enc_audio_coding_format(a)),
        enc_audio_coding_format(a) == enc_audio_coding_format(b) ==> a == b,
{
    reveal_strlit("uncompressed-native-endian");
    reveal_strlit("adpcm");
    reveal_strlit("mp3");
    reveal_strlit("uncompressed-little-endian");
    reveal_strlit("nellymoser16");
    reveal_strlit("nellymoser8");
    reveal_strlit("nellymoser");
    reveal_strlit("speex");
    assert("adpcm"@.len() == 5);
    assert("mp3"@.len() == 3);
    assert("nellymoser"@.len() == 10);
    assert("nellymoser16"@.len() == 12);
    assert("nellymoser8"@.len() == 11);
    assert("speex"@.len() == 5);
    assert("uncompressed-little-endian"@.len() == 26);
    assert("uncompressed-native-endian"@.len() == 26);
    assert("uncompressed-native-endian"@ != "adpcm"@);
    assert("uncompressed-native-endian"@ != "mp3"@);
    assert("uncompressed-native-endian"@[13] == 'n');
    assert("uncompressed-little-endian"@[13] == 'l');
    assert("uncompressed-native-endian"@ != "uncompressed-little-endian"@);
    assert("uncompressed-native-endian"@ != "nellymoser16"@);
    assert("uncompressed-native-endian"@ != "nellymoser8"@);
    assert("uncompressed-native-endian"@ != "nellymoser"@);
    assert("uncompressed-native-endian"@ != "speex"@);
    assert("adpcm"@ != "mp3"@);
    assert("adpcm"@ != "uncompressed-little-endian"@);
    assert("adpcm"@ != "nellymoser16"@);
    assert("adpcm"@ != "nellymoser8"@);
    assert("adpcm"@ != "nellymoser"@);
    assert("adpcm"@[0] == 'a');
    assert("speex"@[0] == 's');
    assert("adpcm"@ != "speex"@);
    assert("mp3"@ != "uncompressed-little-endian"@);
    assert("mp3"@ != "nellymoser16"@);
    assert("mp3"@ != "nellymoser8"@);
    assert("mp3"@ != "nellymoser"@);
    assert("mp3"@ != "speex"@);
    assert("uncompressed-little-endian"@ != "nellymoser16"@);
    assert("uncompressed-little-endian"@ != "nellymoser8"@);
    assert("uncompressed-little-endian"@ != "nellymoser"@);
    assert("uncompressed-little-endian"@ != "speex"@);
    assert("nellymoser16"@ != "nellymoser8"@);
    assert("nellymoser16"@ != "nellymoser"@);
    assert("nellymoser16"@ != "speex"@);
    assert("nellymoser8"@ != "nellymoser"@);
    assert("nellymoser8"@ != "speex"@);
    assert("nellymoser"@ != "speex"@);
}

/// The nominal sample rate of a sound, in hertz.
#[derive(Copy, Clone, Debug, PartialEq, Eq, Hash, Structural)]
pub enum SoundRate {
    SoundRate5500,
    SoundRate11000,
    SoundRate22000,
    SoundRate44000,
}

/// The symbolic discriminant of a `SoundRate` variant.
pub open spec fn sound_rate_text(x: SoundRate) -> Seq<char> {
    match x {
        SoundRate::SoundRate5500 => "sound-rate5500"@,
        SoundRate::SoundRate11000 => "sound-rate11000"@,
        SoundRate::SoundRate22000 => "sound-rate22000"@,
        SoundRate::SoundRate44000 => "sound-rate44000"@,
    }
}

/// The interchange encoding of a `SoundRate`: its discriminant as text.
pub open spec fn enc_sound_rate(t: SoundRate) -> Val {
    Val::Str(sound_rate_text(t))
}

/// Whether `v` is the discriminant of some `SoundRate` variant.
pub open spec fn dec_ok_sound_rate(v: Val) -> bool {
    ||| v == Val::Str("sound-rate5500"@)
    ||| v == Val::Str("sound-rate11000"@)
    ||| v == Val::Str("sound-rate22000"@)
    ||| v == Val::Str("sound-rate44000"@)
}

impl SoundRate {
    /// Encodes to the interchange form.
    pub fn encode(&self) -> (v: Value)
        ensures
            v@ == enc_sound_rate(*self),
    {
        let s: &str = match self {
            SoundRate::SoundRate5500 => "sound-rate5500",
            SoundRate::SoundRate11000 => "sound-rate11000",
            SoundRate::SoundRate22000 => "sound-rate22000",
            SoundRate::SoundRate44000 => "sound-rate44000",
        };
        Value::Str(s.to_owned())
    }

    /// Decodes from the interchange form; any text outside the closed
    /// variant set is rejected.
    pub fn decode(v: &Value) -> (r: Result<Self, DecodeError>)
        ensures
            r is Ok <==> dec_ok_sound_rate(v@),
            r matches Ok(t) ==> v@ == enc_sound_rate(t),
    {
        let s = match v {
            Value::Str(s) => s,
            _ => {
                return Err(DecodeError::UnknownVariant);
            },
        };
        if str_is(s, "sound-rate5500") {
            Ok(SoundRate::SoundRate5500)
        } else if str_is(s, "sound-rate11000") {
            Ok(SoundRate::SoundRate11000)
        } else if str_is(s, "sound-rate22000") {
            Ok(SoundRate::SoundRate22000)
        } else if str_is(s, "sound-rate44000") {
            Ok(SoundRate::SoundRate44000)
        } else {
            Err(DecodeError::UnknownVariant)
        }
    }
}

/// Field-wise equality of two `SoundRate` values.
pub open spec fn eq_sound_rate(a: SoundRate, b: SoundRate) -> bool {
    a == b
}

/// Round trip: every discriminant is in the closed set and decodes back
/// to the same variant.
pub proof fn lemma_sound_rate_round_trip(a: SoundRate, b: SoundRate)
    ensures
        dec_ok_sound_rate(enc_sound_rate(a)),
        enc_sound_rate(a) == enc_sound_rate(b) ==> a == b,
{
    reveal_strlit("sound-rate5500");
    reveal_strlit("sound-rate11000");
    reveal_strlit("sound-rate22000");
    reveal_strlit("sound-rate44000");
    assert("sound-rate11000"@.len() == 15);
    assert("sound-rate22000"@.len() == 15);
    assert("sound-rate44000"@.len() == 15);
    assert("sound-rate5500"@.len() == 14);
    assert("sound-rate5500"@ != "sound-rate11000"@);
    assert("sound-rate5500"@ != "sound-rate22000"@);
    assert("sound-rate5500"@ != "sound-rate44000"@);
    assert("sound-rate11000"@[10] == '1');
    assert("sound-rate22000"@[10] == '2');
    assert("sound-rate11000"@ != "sound-rate22000"@);
    assert("sound-rate11000"@[10] == '1');
    assert("sound-rate44000"@[10] == '4');
    assert("sound-rate11000"@ != "sound-rate44000"@);
    assert("sound-rate22000"@[10] == '2');
    assert("sound-rate44000"@[10] == '4');
    assert("sound-rate22000"@ != "sound-rate44000"@);
}

/// The sample width of a sound.
#[derive(Copy, Clone, Debug, PartialEq, Eq, Hash, Structural)]
pub enum SoundSize {
    SoundSize8,
    SoundSize16,
}

/// The symbolic discriminant of a `SoundSize` variant.
pub open spec fn sound_size_text(x: SoundSize) -> Seq<char> {
    match x {
        SoundSize::SoundSize8 => "sound-size8"@,
        SoundSize::SoundSize16 => "sound-size16"@,
    }
}

/// The interchange encoding of a `SoundSize`: its discriminant as text.
pub open spec fn enc_sound_size(t: SoundSize) -> Val {
    Val::Str(sound_size_text(t))
}

/// Whether `v` is the discriminant of some `SoundSize` variant.
pub open spec fn dec_ok_sound_size(v: Val) -> bool {
    ||| v == Val::Str("sound-size8"@)
    ||| v == Val::Str("sound-size16"@)
}

impl SoundSize {
    /// Encodes to the interchange form.
    pub fn encode(&self) -> (v: Value)
        ensures
            v@ == enc_sound_size(*self),
    {
        let s: &str = match self {
            SoundSize::SoundSize8 => "sound-size8",
            SoundSize::SoundSize16 => "sound-size16",
        };
        Value::Str(s.to_owned())
    }

    /// Decodes from the interchange form; any text outside the closed
    /// variant set is rejected.
    pub fn decode(v: &Value) -> (r: Result<Self, DecodeError>)
        ensures
            r is Ok <==> dec_ok_sound_size(v@),
            r matches Ok(t) ==> v@ == enc_sound_size(t),
    {
        let s = match v {
            Value::Str(s) => s,
            _ => {
                return Err(DecodeError::UnknownVariant);
            },
        };
        if str_is(s, "sound-size8") {
            Ok(SoundSize::SoundSize8)
        } else if str_is(s, "sound-size16") {
            Ok(SoundSize::SoundSize16)
        } else {
            Err(DecodeError::UnknownVariant)
        }
    }
}

/// Field-wise equality of two `SoundSize` values.
pub open spec fn eq_sound_size(a: SoundSize, b: SoundSize) -> bool {
    a == b
}

/// Round trip: every discriminant is in the closed set and decodes back
/// to the same variant.
pub proof fn lemma_sound_size_round_trip(a: SoundSize, b: SoundSize)
    ensures
        dec_ok_sound_size(enc_sound_size(a)),
        enc_sound_size(a) == enc_sound_size(b) ==> a == b,
{
    reveal_strlit("sound-size8");
    reveal_strlit("sound-size16");
    assert("sound-size16"@.len() == 12);
    assert("sound-size8"@.len() == 11);
    assert("sound-size8"@ != "sound-size16"@);
}

/// The channel layout of a sound.
#[derive(Copy, Clone, Debug, PartialEq, Eq, Hash, Structural)]
pub enum SoundType {
    Mono,
    Stereo,
}

/// The symbolic discriminant of a `SoundType` variant.
pub open spec fn sound_type_text(x: SoundType) -> Seq<char> {
    match x {
        SoundType::Mono => "mono"@,
        SoundType::Stereo => "stereo"@,
    }
}

/// The interchange encoding of a `SoundType`: its discriminant as text.
pub open spec fn enc_sound_type(t: SoundType) -> Val {
    Val::Str(sound_type_text(t))
}

/// Whether `v` is the discriminant of some `SoundType` variant.
pub open spec fn dec_ok_sound_type(v: Val) -> bool {
    ||| v == Val::Str("mono"@)
    ||| v == Val::Str("stereo"@)
}

impl SoundType {
    /// Encodes to the interchange form.
    pub fn encode(&self) -> (v: Value)
        ensures
            v@ == enc_sound_type(*self),
    {
        let s: &str = match self {
            SoundType::Mono => "mono",
            SoundType::Stereo => "stereo",
        };
        Value::Str(s.to_owned())
    }

    /// Decodes from the interchange form; any text outside the closed
    /// variant set is rejected.
    pub fn decode(v: &Value) -> (r: Result<Self, DecodeError>)
        ensures
            r is Ok <==> dec_ok_sound_type(v@),
            r matches Ok(t) ==> v@ == enc_sound_type(t),
    {
        let s = match v {
            Value::Str(s) => s,
            _ => {
                return Err(DecodeError::UnknownVariant);
            },
        };
        if str_is(s, "mono") {
            Ok(SoundType::Mono)
        } else if str_is(s, "stereo") {
            Ok(SoundType::Stereo)
        } else {
            Err(DecodeError::UnknownVariant)
        }
    }
}

/// Field-wise equality of two `SoundType` values.
pub open spec fn eq_sound_type(a: SoundType, b: SoundType) -> bool {
    a == b
}

/// Round trip: every discriminant is in the closed set and decodes back
/// to the same variant.
pub proof fn lemma_sound_type_round_trip(a: SoundType, b: SoundType)
    ensures
        dec_ok_sound_type(enc_sound_type(a)),
        enc_sound_type(a) == enc_sound_type(b) ==> a == b,
{
    reveal_strlit("mono");
    reveal_strlit("stereo");
    assert("mono"@.len() == 4);
    assert("stereo"@.len() == 6);
    assert("mono"@ != "stereo"@);
}

} // verus!
