//! The record kinds of a document's instruction stream.
//!
//! Define-tags register a reusable, id-addressed resource (shape, font,
//! sound, bitmap, sprite, text); control tags place, update or remove
//! characters on the timeline; metadata tags describe the document. An
//! unknown record keeps its code and raw bytes so it survives a round
//! trip untouched.
use vstd::prelude::*;

use crate::value::{DecodeError, Member, Val, Value, all_ints, arr_items, bool_field, elems_view, int_field, key_is, maybe, members_view, obj_members, push_bool, push_int, push_str, push_value, str_at, str_field, str_is, take_bool, take_int, take_str, val_view};
use crate::hex::{hex_decode, hex_encode, hex_of, is_hex_seq};
use crate::basic_types::{ColorTransformWithAlpha, LanguageCode, Matrix, NamedId, Rect, SRgb8, StraightSRgba8, all_dec_ok_named_id, dec_ok_language_code, dec_ok_matrix, dec_ok_named_id, dec_ok_rect, dec_ok_srgb8, enc_language_code, enc_matrix, enc_named_id, enc_rect, enc_srgb8, eq_language_code, eq_matrix, eq_named_id, eq_rect, eq_srgb8, lemma_language_code_round_trip, lemma_matrix_round_trip, lemma_named_id_round_trip, lemma_rect_round_trip, lemma_srgb8_round_trip};
use crate::button::{ButtonCondAction, ButtonRecord, all_dec_ok_button_cond_action, all_dec_ok_button_record, dec_ok_button_cond_action, dec_ok_button_record, enc_button_cond_action, enc_button_record, eq_button_cond_action, eq_button_record, lemma_button_cond_action_round_trip, lemma_button_record_round_trip};
use crate::filters::{BlendMode, Filter};
use crate::shape::{ClipAction, Glyph, MorphShape, Shape, all_dec_ok_glyph, dec_ok_glyph, dec_ok_morph_shape, dec_ok_shape, enc_glyph, enc_morph_shape, enc_shape, eq_glyph, eq_morph_shape, eq_shape, lemma_glyph_round_trip, lemma_morph_shape_round_trip, lemma_shape_round_trip};
use crate::sound::{AudioCodingFormat, SoundRate, SoundSize, SoundType, dec_ok_audio_coding_format, dec_ok_sound_rate, dec_ok_sound_size, dec_ok_sound_type, enc_audio_coding_format, enc_sound_rate, enc_sound_size, enc_sound_type, eq_audio_coding_format, eq_sound_rate, eq_sound_size, eq_sound_type, lemma_audio_coding_format_round_trip, lemma_sound_rate_round_trip, lemma_sound_size_round_trip, lemma_sound_type_round_trip};
use crate::text::{CsmTableHint, FontAlignmentZone, FontLayout, TextAlignment, TextRecord, all_dec_ok_font_alignment_zone, all_dec_ok_text_record, dec_ok_csm_table_hint, dec_ok_font_alignment_zone, dec_ok_font_layout, dec_ok_text_record, enc_csm_table_hint, enc_font_alignment_zone, enc_font_layout, enc_text_record, eq_csm_table_hint, eq_font_alignment_zone, eq_font_layout, eq_text_record, lemma_csm_table_hint_round_trip, lemma_font_alignment_zone_round_trip, lemma_font_layout_round_trip, lemma_text_record_round_trip};

verus! {

broadcast use vstd::std_specs::vec::group_vec_axioms, vstd::seq::group_seq_axioms;

/// The media type of a bitmap payload.
#[derive(Copy, Clone, Debug, PartialEq, Eq, Hash, Structural)]
pub enum ImageType {
    Jpeg,
    Png,
    Gif,
    SwfBmp,
}

/// The symbolic discriminant of a `ImageType` variant.
pub open spec fn image_type_text(x: ImageType) -> Seq<char> {
    match x {
        ImageType::Jpeg => "jpeg"@,
        ImageType::Png => "png"@,
        ImageType::Gif => "gif"@,
        ImageType::SwfBmp => "swf-bmp"@,
    }
}

/// The interchange encoding of a `ImageType`: its discriminant as text.
pub open spec fn enc_image_type(t: ImageType) -> Val {
    Val::Str(image_type_text(t))
}

/// Whether `v` is the discriminant of some `ImageType` variant.
pub open spec fn dec_ok_image_type(v: Val) -> bool {
    ||| v == Val::Str("jpeg"@)
    ||| v == Val::Str("png"@)
    ||| v == Val::Str("gif"@)
    ||| v == Val::Str("swf-bmp"@)
}

impl ImageType {
    /// Encodes to the interchange form.
    pub fn encode(&self) -> (v: Value)
        ensures
            v@ == enc_image_type(*self),
    {
        let s: &str = match self {
            ImageType::Jpeg => "jpeg",
            ImageType::Png => "png",
            ImageType::Gif => "gif",
            ImageType::SwfBmp => "swf-bmp",
        };
        Value::Str(s.to_owned())
    }

    /// Decodes from the interchange form; any text outside the closed
    /// variant set is rejected.
    pub fn decode(v: &Value) -> (r: Result<Self, DecodeError>)
        ensures
            r is Ok <==> dec_ok_image_type(v@),
            r matches Ok(t) ==> v@ == enc_image_type(t),
    {
        let s = match v {
            Value::Str(s) => s,
            _ => {
                return Err(DecodeError::UnknownVariant);
            },
        };
        if str_is(s, "jpeg") {
            Ok(ImageType::Jpeg)
        } else if str_is(s, "png") {
            Ok(ImageType::Png)
        } else if str_is(s, "gif") {
            Ok(ImageType::Gif)
        } else if str_is(s, "swf-bmp") {
            Ok(ImageType::SwfBmp)
        } else {
            Err(DecodeError::UnknownVariant)
        }
    }
}

/// Field-wise equality of two `ImageType` values.
pub open spec fn eq_image_type(a: ImageType, b: ImageType) -> bool {
    a == b
}

/// Round trip: every discriminant is in the closed set and decodes back
/// to the same variant.
pub proof fn lemma_image_type_round_trip(a: ImageType, b: ImageType)
    ensures
        dec_ok_image_type(enc_image_type(a)),
        enc_image_type(a) == enc_image_type(b) ==> a == b,
{
    reveal_strlit("jpeg");
    reveal_strlit("png");
    reveal_strlit("gif");
    reveal_strlit("swf-bmp");
    assert("gif"@.len() == 3);
    assert("jpeg"@.len() == 4);
    assert("png"@.len() == 3);
    assert("swf-bmp"@.len() == 7);
    assert("jpeg"@ != "png"@);
    assert("jpeg"@ != "gif"@);
    assert("jpeg"@ != "swf-bmp"@);
    assert("png"@[0] == 'p');
    assert("gif"@[0] == 'g');
    assert("png"@ != "gif"@);
    assert("png"@ != "swf-bmp"@);
    assert("gif"@ != "swf-bmp"@);
}

/// Registers an opaque binary resource under a 16-bit id.
#[derive(Clone, Debug, PartialEq, Eq)]
pub struct DefineBinaryData {
    pub id: u16,
    pub data: Vec<u8>,
}

/// The interchange encoding of a `DefineBinaryData`.
pub open spec fn enc_define_binary_data(t: DefineBinaryData) -> Val {
    Val::Obj(seq![("id"@, Val::Int(t.id as int)), ("data"@, Val::Str(hex_of(t.data@)))])
}

/// Whether `m` is exactly a well-formed `DefineBinaryData` field list.
pub open spec fn dec_ok_define_binary_data_fields(m: Seq<(Seq<char>, Val)>) -> bool {
    &&& int_field(m, 0, "id"@, 0, u16::MAX as int)
    &&& str_field(m, 1, "data"@) && is_hex_seq(str_at(m, 1))
    &&& m.len() == 2
}

/// Whether `v` is a well-formed `DefineBinaryData` encoding.
pub open spec fn dec_ok_define_binary_data(v: Val) -> bool {
    v is Obj && dec_ok_define_binary_data_fields(obj_members(v))
}

/// Every element is a well-formed `DefineBinaryData` encoding.
pub open spec fn all_dec_ok_define_binary_data(items: Seq<Val>) -> bool {
    forall|k: int| 0 <= k < items.len() ==> dec_ok_define_binary_data(#[trigger] items[k])
}

impl DefineBinaryData {
    /// Appends this record's members to `ms`.
    #[verifier::loop_isolation(false)]
    #[verifier::rlimit(100)]
    #[verifier::spinoff_prover]
    pub fn encode_members(&self, ms: &mut Vec<Member>)
        ensures
            members_view(*final(ms)) == members_view(*old(ms)) + obj_members(enc_define_binary_data(*self)),
    {
        push_int(ms, "id", self.id as i128);
        let hx_1 = hex_encode(&self.data);
        push_str(ms, "data", &hx_1);
        proof {
            assert(members_view(*ms) =~~= members_view(*old(ms)) + obj_members(enc_define_binary_data(*self)));
        }
    }

    /// Encodes to the interchange form.
    pub fn encode(&self) -> (v: Value)
        ensures
            v@ == enc_define_binary_data(*self),
    {
        let mut ms: Vec<Member> = Vec::new();
        self.encode_members(&mut ms);
        let v = Value::Obj(ms);
        proof {
            assert(members_view(ms) =~= obj_members(enc_define_binary_data(*self)));
            assert(v@ == Val::Obj(members_view(ms)));
        }
        v
    }

    /// Decodes this record's members from `ms`, starting at `start`;
    /// succeeds exactly on a well-formed field list reaching the end.
    #[verifier::loop_isolation(false)]
    #[verifier::rlimit(100)]
    #[verifier::spinoff_prover]
    pub fn decode_members(ms: &Vec<Member>, start: usize) -> (r: Result<Self, DecodeError>)
        requires
            start as int <= members_view(*ms).len(),
        ensures
            r is Ok <==> dec_ok_define_binary_data_fields(members_view(*ms).skip(start as int)),
            r matches Ok(t) ==> members_view(*ms).skip(start as int) == obj_members(enc_define_binary_data(t)),
    {
        let ghost gm = members_view(*ms).skip(start as int);
        proof {
            assert(gm.len() == members_view(*ms).len() - start);
        }
        let mut i: usize = start;
        if ms.len() <= i {
            return Err(DecodeError::BadField);
        }
        let x_id: u16 = take_int(ms, i, "id", 0, u16::MAX as i128)? as u16;
        i = i + 1;
        if ms.len() <= i {
            return Err(DecodeError::BadField);
        }
        let s_1 = take_str(ms, i, "data")?;
        let x_data: Vec<u8> = hex_decode(s_1.as_str())?;
        i = i + 1;
        if i != ms.len() {
            return Err(DecodeError::BadField);
        }
        let t = DefineBinaryData { id: x_id, data: x_data };
        proof {
            assert(members_view(*ms).skip(start as int) =~~= obj_members(enc_define_binary_data(t)));
        }
        Ok(t)
    }

    /// Decodes from the interchange form; succeeds exactly on well-formed
    /// encodings and then returns the encoded value.
    #[verifier::rlimit(100)]
    #[verifier::spinoff_prover]
    pub fn decode(v: &Value) -> (r: Result<Self, DecodeError>)
        ensures
            r is Ok <==> dec_ok_define_binary_data(v@),
            r matches Ok(t) ==> v@ == enc_define_binary_data(t),
    {
        let ms = match v {
            Value::Obj(ms) => ms,
            _ => {
                return Err(DecodeError::ExpectedObject);
            },
        };
        let t = Self::decode_members(ms, 0)?;
        proof {
            assert(members_view(*ms).skip(0) =~= members_view(*ms));
            assert(v@ == Val::Obj(members_view(*ms)));
        }
        Ok(t)
    }
}

/// Field-wise equality of two `DefineBinaryData` values (text and payloads by content).
pub open spec fn eq_define_binary_data(a: DefineBinaryData, b: DefineBinaryData) -> bool {
    &&& a.id == b.id
    &&& a.data@ == b.data@
}

/// Round trip: every `DefineBinaryData` encoding is well-formed and decodes back
/// only to a field-wise equal value.
#[verifier::rlimit(100)]
#[verifier::spinoff_prover]
pub proof fn lemma_define_binary_data_round_trip(a: DefineBinaryData, b: DefineBinaryData)
    ensures
        dec_ok_define_binary_data(enc_define_binary_data(a)),
        enc_define_binary_data(a) == enc_define_binary_data(b) ==> eq_define_binary_data(a, b),
{
    reveal_strlit("id");
    reveal_strlit("data");
    crate::hex::lemma_hex_round_trip(a.data@);
    crate::hex::lemma_hex_round_trip(b.data@);
    assert(dec_ok_define_binary_data_fields(obj_members(enc_define_binary_data(a))));
    if enc_define_binary_data(a) == enc_define_binary_data(b) {
        assert(eq_define_binary_data(a, b));
    }
}

/// Registers a bitmap resource; the pixel data stays in the coding
/// given by `media_type`.
#[derive(Clone, Debug, PartialEq, Eq)]
pub struct DefineBitmap {
    pub id: u16,
    pub width: u16,
    pub height: u16,
    pub media_type: ImageType,
    pub data: Vec<u8>,
}

/// The interchange encoding of a `DefineBitmap`.
pub open spec fn enc_define_bitmap(t: DefineBitmap) -> Val {
    Val::Obj(seq![("id"@, Val::Int(t.id as int)), ("width"@, Val::Int(t.width as int)), ("height"@, Val::Int(t.height as int)), ("media_type"@, enc_image_type(t.media_type)), ("data"@, Val::Str(hex_of(t.data@)))])
}

/// Whether `m` is exactly a well-formed `DefineBitmap` field list.
pub open spec fn dec_ok_define_bitmap_fields(m: Seq<(Seq<char>, Val)>) -> bool {
    &&& int_field(m, 0, "id"@, 0, u16::MAX as int)
    &&& int_field(m, 1, "width"@, 0, u16::MAX as int)
    &&& int_field(m, 2, "height"@, 0, u16::MAX as int)
    &&& m[3].0 == "media_type"@ && dec_ok_image_type(m[3].1)
    &&& str_field(m, 4, "data"@) && is_hex_seq(str_at(m, 4))
    &&& m.len() == 5
}

/// Whether `v` is a well-formed `DefineBitmap` encoding.
pub open spec fn dec_ok_define_bitmap(v: Val) -> bool {
    v is Obj && dec_ok_define_bitmap_fields(obj_members(v))
}

/// Every element is a well-formed `DefineBitmap` encoding.
pub open spec fn all_dec_ok_define_bitmap(items: Seq<Val>) -> bool {
    forall|k: int| 0 <= k < items.len() ==> dec_ok_define_bitmap(#[trigger] items[k])
}

impl DefineBitmap {
    /// Appends this record's members to `ms`.
    #[verifier::loop_isolation(false)]
    #[verifier::rlimit(100)]
    #[verifier::spinoff_prover]
    pub fn encode_members(&self, ms: &mut Vec<Member>)
        ensures
            members_view(*final(ms)) == members_view(*old(ms)) + obj_members(enc_define_bitmap(*self)),
    {
        push_int(ms, "id", self.id as i128);
        push_int(ms, "width", self.width as i128);
        push_int(ms, "height", self.height as i128);
        push_value(ms, "media_type", self.media_type.encode());
        let hx_4 = hex_encode(&self.data);
        push_str(ms, "data", &hx_4);
        proof {
            assert(members_view(*ms) =~~= members_view(*old(ms)) + obj_members(enc_define_bitmap(*self)));
        }
    }

    /// Encodes to the interchange form.
    pub fn encode(&self) -> (v: Value)
        ensures
            v@ == enc_define_bitmap(*self),
    {
        let mut ms: Vec<Member> = Vec::new();
        self.encode_members(&mut ms);
        let v = Value::Obj(ms);
        proof {
            assert(members_view(ms) =~= obj_members(enc_define_bitmap(*self)));
            assert(v@ == Val::Obj(members_view(ms)));
        }
        v
    }

    /// Decodes this record's members from `ms`, starting at `start`;
    /// succeeds exactly on a well-formed field list reaching the end.
    #[verifier::loop_isolation(false)]
    #[verifier::rlimit(100)]
    #[verifier::spinoff_prover]
    pub fn decode_members(ms: &Vec<Member>, start: usize) -> (r: Result<Self, DecodeError>)
        requires
            start as int <= members_view(*ms).len(),
        ensures
            r is Ok <==> dec_ok_define_bitmap_fields(members_view(*ms).skip(start as int)),
            r matches Ok(t) ==> members_view(*ms).skip(start as int) == obj_members(enc_define_bitmap(t)),
    {
        let ghost gm = members_view(*ms).skip(start as int);
        proof {
            assert(gm.len() == members_view(*ms).len() - start);
        }
        let mut i: usize = start;
        if ms.len() <= i {
            return Err(DecodeError::BadField);
        }
        let x_id: u16 = take_int(ms, i, "id", 0, u16::MAX as i128)? as u16;
        i = i + 1;
        if ms.len() <= i {
            return Err(DecodeError::BadField);
        }
        let x_width: u16 = take_int(ms, i, "width", 0, u16::MAX as i128)? as u16;
        i = i + 1;
        if ms.len() <= i {
            return Err(DecodeError::BadField);
        }
        let x_height: u16 = take_int(ms, i, "height", 0, u16::MAX as i128)? as u16;
        i = i + 1;
        if ms.len() <= i {
            return Err(DecodeError::BadField);
        }
        if !key_is(ms, i, "media_type") {
            return Err(DecodeError::BadField);
        }
        let x_media_type = ImageType::decode(&ms[i].value)?;
        i = i + 1;
        if ms.len() <= i {
            return Err(DecodeError::BadField);
        }
        let s_4 = take_str(ms, i, "data")?;
        let x_data: Vec<u8> = hex_decode(s_4.as_str())?;
        i = i + 1;
        if i != ms.len() {
            return Err(DecodeError::BadField);
        }
        let t = DefineBitmap { id: x_id, width: x_width, height: x_height, media_type: x_media_type, data: x_data };
        proof {
            assert(members_view(*ms).skip(start as int) =~~= obj_members(enc_define_bitmap(t)));
        }
        Ok(t)
    }

    /// Decodes from the interchange form; succeeds exactly on well-formed
    /// encodings and then returns the encoded value.
    #[verifier::rlimit(100)]
    #[verifier::spinoff_prover]
    pub fn decode(v: &Value) -> (r: Result<Self, DecodeError>)
        ensures
            r is Ok <==> dec_ok_define_bitmap(v@),
            r matches Ok(t) ==> v@ == enc_define_bitmap(t),
    {
        let ms = match v {
            Value::Obj(ms) => ms,
            _ => {
                return Err(DecodeError::ExpectedObject);
            },
        };
        let t = Self::decode_members(ms, 0)?;
        proof {
            assert(members_view(*ms).skip(0) =~= members_view(*ms));
            assert(v@ == Val::Obj(members_view(*ms)));
        }
        Ok(t)
    }
}

/// Field-wise equality of two `DefineBitmap` values (text and payloads by content).
pub open spec fn eq_define_bitmap(a: DefineBitmap, b: DefineBitmap) -> bool {
    &&& a.id == b.id
    &&& a.width == b.width
    &&& a.height == b.height
    &&& eq_image_type(a.media_type, b.media_type)
    &&& a.data@ == b.data@
}

/// Round trip: every `DefineBitmap` encoding is well-formed and decodes back
/// only to a field-wise equal value.
#[verifier::rlimit(100)]
#[verifier::spinoff_prover]
pub proof fn lemma_define_bitmap_round_trip(a: DefineBitmap, b: DefineBitmap)
    ensures
        dec_ok_define_bitmap(enc_define_bitmap(a)),
        enc_define_bitmap(a) == enc_define_bitmap(b) ==> eq_define_bitmap(a, b),
{
    reveal_strlit("id");
    reveal_strlit("width");
    reveal_strlit("height");
    reveal_strlit("media_type");
    reveal_strlit("data");
    lemma_image_type_round_trip(a.media_type, b.media_type);
    lemma_image_type_round_trip(a.media_type, a.media_type);
    lemma_image_type_round_trip(b.media_type, b.media_type);
    crate::hex::lemma_hex_round_trip(a.data@);
    crate::hex::lemma_hex_round_trip(b.data@);
    assert(dec_ok_define_bitmap_fields(obj_members(enc_define_bitmap(a))));
    if enc_define_bitmap(a) == enc_define_bitmap(b) {
        assert(eq_define_bitmap(a, b));
    }
}

/// Registers a button with its state characters and actions.
#[derive(Clone, Debug, PartialEq, Eq)]
pub struct DefineButton {
    pub id: u16,
    pub track_as_menu: bool,
    pub characters: Vec<ButtonRecord>,
    pub actions: Vec<ButtonCondAction>,
}

/// The interchange encoding of a `DefineButton`.
pub open spec fn enc_define_button(t: DefineButton) -> Val {
    Val::Obj(seq![("id"@, Val::Int(t.id as int)), ("track_as_menu"@, Val::Bool(t.track_as_menu)), ("characters"@, Val::Arr(t.characters@.map_values(|y: ButtonRecord| enc_button_record(y)))), ("actions"@, Val::Arr(t.actions@.map_values(|y: ButtonCondAction| enc_button_cond_action(y))))])
}

/// Whether `m` is exactly a well-formed `DefineButton` field list.
pub open spec fn dec_ok_define_button_fields(m: Seq<(Seq<char>, Val)>) -> bool {
    &&& int_field(m, 0, "id"@, 0, u16::MAX as int)
    &&& bool_field(m, 1, "track_as_menu"@)
    &&& m[2].0 == "characters"@ && (m[2].1 is Arr && all_dec_ok_button_record(arr_items(m[2].1)))
    &&& m[3].0 == "actions"@ && (m[3].1 is Arr && all_dec_ok_button_cond_action(arr_items(m[3].1)))
    &&& m.len() == 4
}

/// Whether `v` is a well-formed `DefineButton` encoding.
pub open spec fn dec_ok_define_button(v: Val) -> bool {
    v is Obj && dec_ok_define_button_fields(obj_members(v))
}

/// Every element is a well-formed `DefineButton` encoding.
pub open spec fn all_dec_ok_define_button(items: Seq<Val>) -> bool {
    forall|k: int| 0 <= k < items.len() ==> dec_ok_define_button(#[trigger] items[k])
}

impl DefineButton {
    /// Appends this record's members to `ms`.
    #[verifier::loop_isolation(false)]
    #[verifier::rlimit(100)]
    #[verifier::spinoff_prover]
    pub fn encode_members(&self, ms: &mut Vec<Member>)
        ensures
            members_view(*final(ms)) == members_view(*old(ms)) + obj_members(enc_define_button(*self)),
    {
        push_int(ms, "id", self.id as i128);
        push_bool(ms, "track_as_menu", self.track_as_menu);
        let mut arr_2: Vec<Value> = Vec::new();
        let mut j: usize = 0;
        while j < self.characters.len()
            invariant
                j <= self.characters@.len(),
                arr_2@.len() == j as int,
                forall|k: int| 0 <= k < j ==> #[trigger] val_view(arr_2@[k]) == enc_button_record(self.characters@[k]),
            decreases self.characters@.len() - j,
        {
            arr_2.push(self.characters[j].encode());
            j = j + 1;
        }
        proof {
            let m2 = self.characters@.map_values(|y: ButtonRecord| enc_button_record(y));
            assert(elems_view(arr_2).len() == m2.len());
            assert forall|k: int| 0 <= k < m2.len() implies elems_view(arr_2)[k] == m2[k] by {
                assert(val_view(arr_2@[k]) == enc_button_record(self.characters@[k]));
                assert(m2[k] == enc_button_record(self.characters@[k]));
            }
            assert(elems_view(arr_2) =~~= m2);
        }
        push_value(ms, "characters", Value::Arr(arr_2));
        let mut arr_3: Vec<Value> = Vec::new();
        let mut j: usize = 0;
        while j < self.actions.len()
            invariant
                j <= self.actions@.len(),
                arr_3@.len() == j as int,
                forall|k: int| 0 <= k < j ==> #[trigger] val_view(arr_3@[k]) == enc_button_cond_action(self.actions@[k]),
            decreases self.actions@.len() - j,
        {
            arr_3.push(self.actions[j].encode());
            j = j + 1;
        }
        proof {
            let m2 = self.actions@.map_values(|y: ButtonCondAction| enc_button_cond_action(y));
            assert(elems_view(arr_3).len() == m2.len());
            assert forall|k: int| 0 <= k < m2.len() implies elems_view(arr_3)[k] == m2[k] by {
                assert(val_view(arr_3@[k]) == enc_button_cond_action(self.actions@[k]));
                assert(m2[k] == enc_button_cond_action(self.actions@[k]));
            }
            assert(elems_view(arr_3) =~~= m2);
        }
        push_value(ms, "actions", Value::Arr(arr_3));
        proof {
            assert(members_view(*ms) =~~= members_view(*old(ms)) + obj_members(enc_define_button(*self)));
        }
    }

    /// Encodes to the interchange form.
    pub fn encode(&self) -> (v: Value)
        ensures
            v@ == enc_define_button(*self),
    {
        let mut ms: Vec<Member> = Vec::new();
        self.encode_members(&mut ms);
        let v = Value::Obj(ms);
        proof {
            assert(members_view(ms) =~= obj_members(enc_define_button(*self)));
            assert(v@ == Val::Obj(members_view(ms)));
        }
        v
    }

    /// Decodes this record's members from `ms`, starting at `start`;
    /// succeeds exactly on a well-formed field list reaching the end.
    #[verifier::loop_isolation(false)]
    #[verifier::rlimit(100)]
    #[verifier::spinoff_prover]
    pub fn decode_members(ms: &Vec<Member>, start: usize) -> (r: Result<Self, DecodeError>)
        requires
            start as int <= members_view(*ms).len(),
        ensures
            r is Ok <==> dec_ok_define_button_fields(members_view(*ms).skip(start as int)),
            r matches Ok(t) ==> members_view(*ms).skip(start as int) == obj_members(enc_define_button(t)),
    {
        let ghost gm = members_view(*ms).skip(start as int);
        proof {
            assert(gm.len() == members_view(*ms).len() - start);
        }
        let mut i: usize = start;
        if ms.len() <= i {
            return Err(DecodeError::BadField);
        }
        let x_id: u16 = take_int(ms, i, "id", 0, u16::MAX as i128)? as u16;
        i = i + 1;
        if ms.len() <= i {
            return Err(DecodeError::BadField);
        }
        let x_track_as_menu: bool = take_bool(ms, i, "track_as_menu")?;
        i = i + 1;
        if ms.len() <= i {
            return Err(DecodeError::BadField);
        }
        if !key_is(ms, i, "characters") {
            return Err(DecodeError::BadField);
        }
        let items_2 = match &ms[i].value {
            Value::Arr(a) => a,
            _ => {
                return Err(DecodeError::BadField);
            },
        };
        proof {
            assert(members_view(*ms)[i as int].1 == Val::Arr(elems_view(*items_2)));
            assert(arr_items(gm[(i - start) as int].1) == elems_view(*items_2));
        }
        let mut out_2: Vec<ButtonRecord> = Vec::new();
        let mut j: usize = 0;
        while j < items_2.len()
            invariant
                j <= items_2@.len(),
                out_2@.len() == j as int,
                forall|k: int| 0 <= k < j ==> #[trigger] elems_view(*items_2)[k] == enc_button_record(out_2@[k]),
                forall|k: int| 0 <= k < j ==> dec_ok_button_record(#[trigger] elems_view(*items_2)[k]),
            decreases items_2@.len() - j,
        {
            let x = match ButtonRecord::decode(&items_2[j]) {
                Ok(x) => x,
                Err(e) => {
                    proof {
                        assert(!dec_ok_button_record(elems_view(*items_2)[j as int]));
                        assert(!all_dec_ok_button_record(elems_view(*items_2)));
                    }
                    return Err(e);
                },
            };
            out_2.push(x);
            j = j + 1;
        }
        proof {
            assert(elems_view(*items_2) =~~= out_2@.map_values(|y: ButtonRecord| enc_button_record(y)));
            assert(all_dec_ok_button_record(elems_view(*items_2)));
        }
        let x_characters = out_2;
        i = i + 1;
        if ms.len() <= i {
            return Err(DecodeError::BadField);
        }
        if !key_is(ms, i, "actions") {
            return Err(DecodeError::BadField);
        }
        let items_3 = match &ms[i].value {
            Value::Arr(a) => a,
            _ => {
                return Err(DecodeError::BadField);
            },
        };
        proof {
            assert(members_view(*ms)[i as int].1 == Val::Arr(elems_view(*items_3)));
            assert(arr_items(gm[(i - start) as int].1) == elems_view(*items_3));
        }
        let mut out_3: Vec<ButtonCondAction> = Vec::new();
        let mut j: usize = 0;
        while j < items_3.len()
            invariant
                j <= items_3@.len(),
                out_3@.len() == j as int,
                forall|k: int| 0 <= k < j ==> #[trigger] elems_view(*items_3)[k] == enc_button_cond_action(out_3@[k]),
                forall|k: int| 0 <= k < j ==> dec_ok_button_cond_action(#[trigger] elems_view(*items_3)[k]),
            decreases items_3@.len() - j,
        {
            let x = match ButtonCondAction::decode(&items_3[j]) {
                Ok(x) => x,
                Err(e) => {
                    proof {
                        assert(!dec_ok_button_cond_action(elems_view(*items_3)[j as int]));
                        assert(!all_dec_ok_button_cond_action(elems_view(*items_3)));
                    }
                    return Err(e);
                },
            };
            out_3.push(x);
            j = j + 1;
        }
        proof {
            assert(elems_view(*items_3) =~~= out_3@.map_values(|y: ButtonCondAction| enc_button_cond_action(y)));
            assert(all_dec_ok_button_cond_action(elems_view(*items_3)));
        }
        let x_actions = out_3;
        i = i + 1;
        if i != ms.len() {
            return Err(DecodeError::BadField);
        }
        let t = DefineButton { id: x_id, track_as_menu: x_track_as_menu, characters: x_characters, actions: x_actions };
        proof {
            assert(members_view(*ms).skip(start as int) =~~= obj_members(enc_define_button(t)));
        }
        Ok(t)
    }

    /// Decodes from the interchange form; succeeds exactly on well-formed
    /// encodings and then returns the encoded value.
    #[verifier::rlimit(100)]
    #[verifier::spinoff_prover]
    pub fn decode(v: &Value) -> (r: Result<Self, DecodeError>)
        ensures
            r is Ok <==> dec_ok_define_button(v@),
            r matches Ok(t) ==> v@ == enc_define_button(t),
    {
        let ms = match v {
            Value::Obj(ms) => ms,
            _ => {
                return Err(DecodeError::ExpectedObject);
            },
        };
        let t = Self::decode_members(ms, 0)?;
        proof {
            assert(members_view(*ms).skip(0) =~= members_view(*ms));
            assert(v@ == Val::Obj(members_view(*ms)));
        }
        Ok(t)
    }
}

/// Field-wise equality of two `DefineButton` values (text and payloads by content).
pub open spec fn eq_define_button(a: DefineButton, b: DefineButton) -> bool {
    &&& a.id == b.id
    &&& a.track_as_menu == b.track_as_menu
    &&& (a.characters@.len() == b.characters@.len() && (forall|k: int| 0 <= k < a.characters@.len() ==> eq_button_record(#[trigger] a.characters@[k], b.characters@[k])))
    &&& (a.actions@.len() == b.actions@.len() && (forall|k: int| 0 <= k < a.actions@.len() ==> eq_button_cond_action(#[trigger] a.actions@[k], b.actions@[k])))
}

/// Round trip: every `DefineButton` encoding is well-formed and decodes back
/// only to a field-wise equal value.
#[verifier::rlimit(100)]
#[verifier::spinoff_prover]
pub proof fn lemma_define_button_round_trip(a: DefineButton, b: DefineButton)
    ensures
        dec_ok_define_button(enc_define_button(a)),
        enc_define_button(a) == enc_define_button(b) ==> eq_define_button(a, b),
{
    reveal_strlit("id");
    reveal_strlit("track_as_menu");
    reveal_strlit("characters");
    reveal_strlit("actions");
    {
        let ea0 = a.characters@.map_values(|y: ButtonRecord| enc_button_record(y));
        assert forall|k: int| 0 <= k < ea0.len() implies dec_ok_button_record(#[trigger] ea0[k]) by {
            lemma_button_record_round_trip(a.characters@[k], a.characters@[k]);
        }
        assert(all_dec_ok_button_record(ea0));
    }
    {
        let ea = a.characters@.map_values(|y: ButtonRecord| enc_button_record(y));
        let eb = b.characters@.map_values(|y: ButtonRecord| enc_button_record(y));
        if ea == eb {
            assert forall|k: int| 0 <= k < a.characters@.len() implies eq_button_record(#[trigger] a.characters@[k], b.characters@[k]) by {
                assert(ea[k] == eb[k]);
                lemma_button_record_round_trip(a.characters@[k], b.characters@[k]);
            }
        }
    }
    {
        let ea0 = a.actions@.map_values(|y: ButtonCondAction| enc_button_cond_action(y));
        assert forall|k: int| 0 <= k < ea0.len() implies dec_ok_button_cond_action(#[trigger] ea0[k]) by {
            lemma_button_cond_action_round_trip(a.actions@[k], a.actions@[k]);
        }
        assert(all_dec_ok_button_cond_action(ea0));
    }
    {
        let ea = a.actions@.map_values(|y: ButtonCondAction| enc_button_cond_action(y));
        let eb = b.actions@.map_values(|y: ButtonCondAction| enc_button_cond_action(y));
        if ea == eb {
            assert forall|k: int| 0 <= k < a.actions@.len() implies eq_button_cond_action(#[trigger] a.actions@[k], b.actions@[k]) by {
                assert(ea[k] == eb[k]);
                lemma_button_cond_action_round_trip(a.actions@[k], b.actions@[k]);
            }
        }
    }
    assert(dec_ok_define_button_fields(obj_members(enc_define_button(a))));
    if enc_define_button(a) == enc_define_button(b) {
        assert(eq_define_button(a, b));
    }
}

/// Registers a font whose outlines are an opaque CFF payload.
#[derive(Clone, Debug, PartialEq, Eq)]
pub struct DefineCffFont {
    pub id: u16,
    pub font_name: String,
    pub is_italic: bool,
    pub is_bold: bool,
    pub data: Vec<u8>,
}

/// The interchange encoding of a `DefineCffFont`.
pub open spec fn enc_define_cff_font(t: DefineCffFont) -> Val {
    Val::Obj(seq![("id"@, Val::Int(t.id as int)), ("font_name"@, Val::Str(t.font_name@)), ("is_italic"@, Val::Bool(t.is_italic)), ("is_bold"@, Val::Bool(t.is_bold)), ("data"@, Val::Str(hex_of(t.data@)))])
}

/// Whether `m` is exactly a well-formed `DefineCffFont` field list.
pub open spec fn dec_ok_define_cff_font_fields(m: Seq<(Seq<char>, Val)>) -> bool {
    &&& int_field(m, 0, "id"@, 0, u16::MAX as int)
    &&& str_field(m, 1, "font_name"@)
    &&& bool_field(m, 2, "is_italic"@)
    &&& bool_field(m, 3, "is_bold"@)
    &&& str_field(m, 4, "data"@) && is_hex_seq(str_at(m, 4))
    &&& m.len() == 5
}

/// Whether `v` is a well-formed `DefineCffFont` encoding.
pub open spec fn dec_ok_define_cff_font(v: Val) -> bool {
    v is Obj && dec_ok_define_cff_font_fields(obj_members(v))
}

/// Every element is a well-formed `DefineCffFont` encoding.
pub open spec fn all_dec_ok_define_cff_font(items: Seq<Val>) -> bool {
    forall|k: int| 0 <= k < items.len() ==> dec_ok_define_cff_font(#[trigger] items[k])
}

impl DefineCffFont {
    /// Appends this record's members to `ms`.
    #[verifier::loop_isolation(false)]
    #[verifier::rlimit(100)]
    #[verifier::spinoff_prover]
    pub fn encode_members(&self, ms: &mut Vec<Member>)
        ensures
            members_view(*final(ms)) == members_view(*old(ms)) + obj_members(enc_define_cff_font(*self)),
    {
        push_int(ms, "id", self.id as i128);
        push_str(ms, "font_name", &self.font_name);
        push_bool(ms, "is_italic", self.is_italic);
        push_bool(ms, "is_bold", self.is_bold);
        let hx_4 = hex_encode(&self.data);
        push_str(ms, "data", &hx_4);
        proof {
            assert(members_view(*ms) =~~= members_view(*old(ms)) + obj_members(enc_define_cff_font(*self)));
        }
    }

    /// Encodes to the interchange form.
    pub fn encode(&self) -> (v: Value)
        ensures
            v@ == enc_define_cff_font(*self),
    {
        let mut ms: Vec<Member> = Vec::new();
        self.encode_members(&mut ms);
        let v = Value::Obj(ms);
        proof {
            assert(members_view(ms) =~= obj_members(enc_define_cff_font(*self)));
            assert(v@ == Val::Obj(members_view(ms)));
        }
        v
    }

    /// Decodes this record's members from `ms`, starting at `start`;
    /// succeeds exactly on a well-formed field list reaching the end.
    #[verifier::loop_isolation(false)]
    #[verifier::rlimit(100)]
    #[verifier::spinoff_prover]
    pub fn decode_members(ms: &Vec<Member>, start: usize) -> (r: Result<Self, DecodeError>)
        requires
            start as int <= members_view(*ms).len(),
        ensures
            r is Ok <==> dec_ok_define_cff_font_fields(members_view(*ms).skip(start as int)),
            r matches Ok(t) ==> members_view(*ms).skip(start as int) == obj_members(enc_define_cff_font(t)),
    {
        let ghost gm = members_view(*ms).skip(start as int);
        proof {
            assert(gm.len() == members_view(*ms).len() - start);
        }
        let mut i: usize = start;
        if ms.len() <= i {
            return Err(DecodeError::BadField);
        }
        let x_id: u16 = take_int(ms, i, "id", 0, u16::MAX as i128)? as u16;
        i = i + 1;
        if ms.len() <= i {
            return Err(DecodeError::BadField);
        }
        let x_font_name: String = take_str(ms, i, "font_name")?;
        i = i + 1;
        if ms.len() <= i {
            return Err(DecodeError::BadField);
        }
        let x_is_italic: bool = take_bool(ms, i, "is_italic")?;
        i = i + 1;
        if ms.len() <= i {
            return Err(DecodeError::BadField);
        }
        let x_is_bold: bool = take_bool(ms, i, "is_bold")?;
        i = i + 1;
        if ms.len() <= i {
            return Err(DecodeError::BadField);
        }
        let s_4 = take_str(ms, i, "data")?;
        let x_data: Vec<u8> = hex_decode(s_4.as_str())?;
        i = i + 1;
        if i != ms.len() {
            return Err(DecodeError::BadField);
        }
        let t = DefineCffFont { id: x_id, font_name: x_font_name, is_italic: x_is_italic, is_bold: x_is_bold, data: x_data };
        proof {
            assert(members_view(*ms).skip(start as int) =~~= obj_members(enc_define_cff_font(t)));
        }
        Ok(t)
    }

    /// Decodes from the interchange form; succeeds exactly on well-formed
    /// encodings and then returns the encoded value.
    #[verifier::rlimit(100)]
    #[verifier::spinoff_prover]
    pub fn decode(v: &Value) -> (r: Result<Self, DecodeError>)
        ensures
            r is Ok <==> dec_ok_define_cff_font(v@),
            r matches Ok(t) ==> v@ == enc_define_cff_font(t),
    {
        let ms = match v {
            Value::Obj(ms) => ms,
            _ => {
                return Err(DecodeError::ExpectedObject);
            },
        };
        let t = Self::decode_members(ms, 0)?;
        proof {
            assert(members_view(*ms).skip(0) =~= members_view(*ms));
            assert(v@ == Val::Obj(members_view(*ms)));
        }
        Ok(t)
    }
}

/// Field-wise equality of two `DefineCffFont` values (text and payloads by content).
pub open spec fn eq_define_cff_font(a: DefineCffFont, b: DefineCffFont) -> bool {
    &&& a.id == b.id
    &&& a.font_name@ == b.font_name@
    &&& a.is_italic == b.is_italic
    &&& a.is_bold == b.is_bold
    &&& a.data@ == b.data@
}

/// Round trip: every `DefineCffFont` encoding is well-formed and decodes back
/// only to a field-wise equal value.
#[verifier::rlimit(100)]
#[verifier::spinoff_prover]
pub proof fn lemma_define_cff_font_round_trip(a: DefineCffFont, b: DefineCffFont)
    ensures
        dec_ok_define_cff_font(enc_define_cff_font(a)),
        enc_define_cff_font(a) == enc_define_cff_font(b) ==> eq_define_cff_font(a, b),
{
    reveal_strlit("id");
    reveal_strlit("font_name");
    reveal_strlit("is_italic");
    reveal_strlit("is_bold");
    reveal_strlit("data");
    crate::hex::lemma_hex_round_trip(a.data@);
    crate::hex::lemma_hex_round_trip(b.data@);
    assert(dec_ok_define_cff_font_fields(obj_members(enc_define_cff_font(a))));
    if enc_define_cff_font(a) == enc_define_cff_font(b) {
        assert(eq_define_cff_font(a, b));
    }
}

/// Registers an editable text field and its layout.
#[derive(Clone, Debug, PartialEq, Eq)]
pub struct DefineDynamicText {
    pub id: u16,
    pub bounds: Rect,
    pub word_wrap: bool,
    pub multiline: bool,
    pub password: bool,
    pub readonly: bool,
    pub auto_size: bool,
    pub no_select: bool,
    pub border: bool,
    pub was_static: bool,
    pub html: bool,
    pub use_glyph_font: bool,
    pub font_id: Option<u16>,
    pub font_class: Option<String>,
    pub font_size: Option<u16>,
    pub color: Option<StraightSRgba8>,
    pub max_length: Option<usize>,
    pub align: Option<TextAlignment>,
    pub margin_left: u16,
    pub margin_right: u16,
    pub indent: u16,
    pub leading: i16,
    pub variable_name: Option<String>,
    pub text: Option<String>,
}

/// Registers a font; glyph outlines, code units and layout are each
/// independently optional.
#[derive(Clone, Debug, PartialEq, Eq)]
pub struct DefineFont {
    pub id: u16,
    pub font_name: String,
    pub is_bold: bool,
    pub is_italic: bool,
    pub is_ansi: bool,
    pub is_small: bool,
    pub is_shift_jis: bool,
    pub language: LanguageCode,
    pub glyphs: Option<Vec<Glyph>>,
    pub code_units: Option<Vec<u16>>,
    pub layout: Option<FontLayout>,
}

/// The interchange encoding of a `DefineFont`.
pub open spec fn enc_define_font(t: DefineFont) -> Val {
    Val::Obj(seq![("id"@, Val::Int(t.id as int)), ("font_name"@, Val::Str(t.font_name@)), ("is_bold"@, Val::Bool(t.is_bold)), ("is_italic"@, Val::Bool(t.is_italic)), ("is_ansi"@, Val::Bool(t.is_ansi)), ("is_small"@, Val::Bool(t.is_small)), ("is_shift_jis"@, Val::Bool(t.is_shift_jis)), ("language"@, enc_language_code(t.language))] + maybe("glyphs"@, match t.glyphs { Option::Some(x) => Option::Some(Val::Arr(x@.map_values(|y: Glyph| enc_glyph(y)))), Option::None => Option::None }) + maybe("code_units"@, match t.code_units { Option::Some(x) => Option::Some(Val::Arr(x@.map_values(|y: u16| Val::Int(y as int)))), Option::None => Option::None }) + maybe("layout"@, match t.layout { Option::Some(x) => Option::Some(enc_font_layout(x)), Option::None => Option::None }))
}

/// Whether `m` is exactly a well-formed `DefineFont` field list.
pub open spec fn dec_ok_define_font_fields(m: Seq<(Seq<char>, Val)>) -> bool {
    let has_glyphs = m.len() > 8 && m[8].0 == "glyphs"@;
    let j1 = if has_glyphs { 8 + 1int } else { 8 };
    let has_code_units = m.len() > j1 && m[j1].0 == "code_units"@;
    let j2 = if has_code_units { j1 + 1int } else { j1 };
    let has_layout = m.len() > j2 && m[j2].0 == "layout"@;
    let j3 = if has_layout { j2 + 1int } else { j2 };
    &&& int_field(m, 0, "id"@, 0, u16::MAX as int)
    &&& str_field(m, 1, "font_name"@)
    &&& bool_field(m, 2, "is_bold"@)
    &&& bool_field(m, 3, "is_italic"@)
    &&& bool_field(m, 4, "is_ansi"@)
    &&& bool_field(m, 5, "is_small"@)
    &&& bool_field(m, 6, "is_shift_jis"@)
    &&& m[7].0 == "language"@ && dec_ok_language_code(m[7].1)
    &&& has_glyphs ==> ((m[8].1 is Arr && all_dec_ok_glyph(arr_items(m[8].1))))
    &&& has_code_units ==> ((m[j1].1 is Arr && all_ints(arr_items(m[j1].1), 0, u16::MAX as int)))
    &&& has_layout ==> (dec_ok_font_layout(m[j2].1))
    &&& m.len() == j3
}

/// Whether `v` is a well-formed `DefineFont` encoding.
pub open spec fn dec_ok_define_font(v: Val) -> bool {
    v is Obj && dec_ok_define_font_fields(obj_members(v))
}

/// Every element is a well-formed `DefineFont` encoding.
pub open spec fn all_dec_ok_define_font(items: Seq<Val>) -> bool {
    forall|k: int| 0 <= k < items.len() ==> dec_ok_define_font(#[trigger] items[k])
}

impl DefineFont {
    /// Appends this record's members to `ms`.
    #[verifier::loop_isolation(false)]
    #[verifier::rlimit(100)]
    #[verifier::spinoff_prover]
    pub fn encode_members(&self, ms: &mut Vec<Member>)
        ensures
            members_view(*final(ms)) == members_view(*old(ms)) + obj_members(enc_define_font(*self)),
    {
        push_int(ms, "id", self.id as i128);
        push_str(ms, "font_name", &self.font_name);
        push_bool(ms, "is_bold", self.is_bold);
        push_bool(ms, "is_italic", self.is_italic);
        push_bool(ms, "is_ansi", self.is_ansi);
        push_bool(ms, "is_small", self.is_small);
        push_bool(ms, "is_shift_jis", self.is_shift_jis);
        push_value(ms, "language", self.language.encode());
        if let Some(x) = &self.glyphs {
            let mut arr_8: Vec<Value> = Vec::new();
            let mut j: usize = 0;
            while j < (*x).len()
                invariant
                    j <= (*x)@.len(),
                    arr_8@.len() == j as int,
                    forall|k: int| 0 <= k < j ==> #[trigger] val_view(arr_8@[k]) == enc_glyph((*x)@[k]),
                decreases (*x)@.len() - j,
            {
                arr_8.push((*x)[j].encode());
                j = j + 1;
            }
            proof {
                let m2 = (*x)@.map_values(|y: Glyph| enc_glyph(y));
                assert(elems_view(arr_8).len() == m2.len());
                assert forall|k: int| 0 <= k < m2.len() implies elems_view(arr_8)[k] == m2[k] by {
                    assert(val_view(arr_8@[k]) == enc_glyph((*x)@[k]));
                    assert(m2[k] == enc_glyph((*x)@[k]));
                }
                assert(elems_view(arr_8) =~~= m2);
            }
            push_value(ms, "glyphs", Value::Arr(arr_8));
        }
        if let Some(x) = &self.code_units {
            let mut arr_9: Vec<Value> = Vec::new();
            let mut j: usize = 0;
            while j < (*x).len()
                invariant
                    j <= (*x)@.len(),
                    arr_9@.len() == j as int,
                    forall|k: int| 0 <= k < j ==> #[trigger] val_view(arr_9@[k]) == Val::Int((*x)@[k] as int),
                decreases (*x)@.len() - j,
            {
                arr_9.push(Value::Int((*x)[j] as i128));
                j = j + 1;
            }
            proof {
                let m2 = (*x)@.map_values(|y: u16| Val::Int(y as int));
                assert(elems_view(arr_9).len() == m2.len());
                assert forall|k: int| 0 <= k < m2.len() implies elems_view(arr_9)[k] == m2[k] by {
                    assert(val_view(arr_9@[k]) == Val::Int((*x)@[k] as int));
                    assert(m2[k] == Val::Int((*x)@[k] as int));
                }
                assert(elems_view(arr_9) =~~= m2);
            }
            push_value(ms, "code_units", Value::Arr(arr_9));
        }
        if let Some(x) = &self.layout {
            push_value(ms, "layout", (*x).encode());
        }
        proof {
            assert(members_view(*ms) =~~= members_view(*old(ms)) + obj_members(enc_define_font(*self)));
        }
    }

    /// Encodes to the interchange form.
    pub fn encode(&self) -> (v: Value)
        ensures
            v@ == enc_define_font(*self),
    {
        let mut ms: Vec<Member> = Vec::new();
        self.encode_members(&mut ms);
        let v = Value::Obj(ms);
        proof {
            assert(members_view(ms) =~= obj_members(enc_define_font(*self)));
            assert(v@ == Val::Obj(members_view(ms)));
        }
        v
    }

}
/// Field-wise equality of two `DefineFont` values (text and payloads by content).
pub open spec fn eq_define_font(a: DefineFont, b: DefineFont) -> bool {
    &&& a.id == b.id
    &&& a.font_name@ == b.font_name@
    &&& a.is_bold == b.is_bold
    &&& a.is_italic == b.is_italic
    &&& a.is_ansi == b.is_ansi
    &&& a.is_small == b.is_small
    &&& a.is_shift_jis == b.is_shift_jis
    &&& eq_language_code(a.language, b.language)
    &&& (match (a.glyphs, b.glyphs) { (Option::Some(x), Option::Some(y)) => (x@.len() == y@.len() && (forall|k: int| 0 <= k < x@.len() ==> eq_glyph(#[trigger] x@[k], y@[k]))), (Option::None, Option::None) => true, _ => false })
    &&& (match (a.code_units, b.code_units) { (Option::Some(x), Option::Some(y)) => x@ == y@, (Option::None, Option::None) => true, _ => false })
    &&& (match (a.layout, b.layout) { (Option::Some(x), Option::Some(y)) => eq_font_layout(x, y), (Option::None, Option::None) => true, _ => false })
}

/// Round trip: every `DefineFont` encoding is well-formed and decodes back
/// only to a field-wise equal value.
#[verifier::rlimit(100)]
#[verifier::spinoff_prover]
pub proof fn lemma_define_font_round_trip(a: DefineFont, b: DefineFont)
    ensures
        dec_ok_define_font(enc_define_font(a)),
        enc_define_font(a) == enc_define_font(b) ==> eq_define_font(a, b),
{
    reveal_strlit("id");
    reveal_strlit("font_name");
    reveal_strlit("is_bold");
    reveal_strlit("is_italic");
    reveal_strlit("is_ansi");
    reveal_strlit("is_small");
    reveal_strlit("is_shift_jis");
    reveal_strlit("language");
    reveal_strlit("glyphs");
    reveal_strlit("code_units");
    reveal_strlit("layout");
    assert("code_units"@.len() == 10);
    assert("font_name"@.len() == 9);
    assert("glyphs"@.len() == 6);
    assert("id"@.len() == 2);
    assert("is_ansi"@.len() == 7);
    assert("is_bold"@.len() == 7);
    assert("is_italic"@.len() == 9);
    assert("is_shift_jis"@.len() == 12);
    assert("is_small"@.len() == 8);
    assert("language"@.len() == 8);
    assert("layout"@.len() == 6);
    assert("id"@ != "font_name"@);
    assert("id"@ != "is_bold"@);
    assert("id"@ != "is_italic"@);
    assert("id"@ != "is_ansi"@);
    assert("id"@ != "is_small"@);
    assert("id"@ != "is_shift_jis"@);
    assert("id"@ != "language"@);
    assert("id"@ != "glyphs"@);
    assert("id"@ != "code_units"@);
    assert("id"@ != "layout"@);
    assert("font_name"@ != "is_bold"@);
    assert("font_name"@[0] == 'f');
    assert("is_italic"@[0] == 'i');
    assert("font_name"@ != "is_italic"@);
    assert("font_name"@ != "is_ansi"@);
    assert("font_name"@ != "is_small"@);
    assert("font_name"@ != "is_shift_jis"@);
    assert("font_name"@ != "language"@);
    assert("font_name"@ != "glyphs"@);
    assert("font_name"@ != "code_units"@);
    assert("font_name"@ != "layout"@);
    assert("is_bold"@ != "is_italic"@);
    assert("is_bold"@[3] == 'b');
    assert("is_ansi"@[3] == 'a');
    assert("is_bold"@ != "is_ansi"@);
    assert("is_bold"@ != "is_small"@);
    assert("is_bold"@ != "is_shift_jis"@);
    assert("is_bold"@ != "language"@);
    assert("is_bold"@ != "glyphs"@);
    assert("is_bold"@ != "code_units"@);
    assert("is_bold"@ != "layout"@);
    assert("is_italic"@ != "is_ansi"@);
    assert("is_italic"@ != "is_small"@);
    assert("is_italic"@ != "is_shift_jis"@);
    assert("is_italic"@ != "language"@);
    assert("is_italic"@ != "glyphs"@);
    assert("is_italic"@ != "code_units"@);
    assert("is_italic"@ != "layout"@);
    assert("is_ansi"@ != "is_small"@);
    assert("is_ansi"@ != "is_shift_jis"@);
    assert("is_ansi"@ != "language"@);
    assert("is_ansi"@ != "glyphs"@);
    assert("is_ansi"@ != "code_units"@);
    assert("is_ansi"@ != "layout"@);
    assert("is_small"@ != "is_shift_jis"@);
    assert("is_small"@[0] == 'i');
    assert("language"@[0] == 'l');
    assert("is_small"@ != "language"@);
    assert("is_small"@ != "glyphs"@);
    assert("is_small"@ != "code_units"@);
    assert("is_small"@ != "layout"@);
    assert("is_shift_jis"@ != "language"@);
    assert("is_shift_jis"@ != "glyphs"@);
    assert("is_shift_jis"@ != "code_units"@);
    assert("is_shift_jis"@ != "layout"@);
    assert("language"@ != "glyphs"@);
    assert("language"@ != "code_units"@);
    assert("language"@ != "layout"@);
    assert("glyphs"@ != "code_units"@);
    assert("glyphs"@[0] == 'g');
    assert("layout"@[0] == 'l');
    assert("glyphs"@ != "layout"@);
    assert("code_units"@ != "layout"@);
    lemma_language_code_round_trip(a.language, b.language);
    lemma_language_code_round_trip(a.language, a.language);
    lemma_language_code_round_trip(b.language, b.language);
    if let Option::Some(x) = a.glyphs {
        let exa = x@.map_values(|y: Glyph| enc_glyph(y));
        assert forall|k: int| 0 <= k < exa.len() implies dec_ok_glyph(#[trigger] exa[k]) by {
            lemma_glyph_round_trip(x@[k], x@[k]);
        }
        assert(all_dec_ok_glyph(exa));
    }
    if let (Option::Some(xa), Option::Some(xb)) = (a.glyphs, b.glyphs) {
        let ea = xa@.map_values(|y: Glyph| enc_glyph(y));
        let eb = xb@.map_values(|y: Glyph| enc_glyph(y));
        if ea == eb {
            assert forall|k: int| 0 <= k < xa@.len() implies eq_glyph(#[trigger] xa@[k], xb@[k]) by {
                assert(ea[k] == eb[k]);
                lemma_glyph_round_trip(xa@[k], xb@[k]);
            }
        }
    }
    if let Option::Some(xa) = a.code_units {
        let exa_code_units = xa@.map_values(|y: u16| Val::Int(y as int));
        assert forall|k: int| 0 <= k < exa_code_units.len() implies (#[trigger] exa_code_units[k] matches Val::Int(z) && 0 <= z <= u16::MAX as int) by {
            assert(exa_code_units[k] == Val::Int(xa@[k] as int));
        }
        assert(all_ints(exa_code_units, 0, u16::MAX as int));
    }
    if let (Option::Some(xa), Option::Some(xb)) = (a.code_units, b.code_units) {
        let ea_code_units = xa@.map_values(|y: u16| Val::Int(y as int));
        let eb_code_units = xb@.map_values(|y: u16| Val::Int(y as int));
        if ea_code_units == eb_code_units {
            assert(xa@.len() == xb@.len());
            assert forall|k: int| 0 <= k < xa@.len() implies xa@[k] == xb@[k] by {
                assert(ea_code_units[k] == Val::Int(xa@[k] as int));
                assert(eb_code_units[k] == Val::Int(xb@[k] as int));
                assert(xa@[k] as int == xb@[k] as int);
            }
            assert(xa@ =~= xb@);
        }
    }
    if let (Option::Some(x), Option::Some(y)) = (a.layout, b.layout) { lemma_font_layout_round_trip(x, y); }
    if let Option::Some(x) = a.layout { lemma_font_layout_round_trip(x, x); }
    if let Option::Some(x) = b.layout { lemma_font_layout_round_trip(x, x); }
    assert(dec_ok_define_font_fields(obj_members(enc_define_font(a))));
    if enc_define_font(a) == enc_define_font(b) {
        assert(eq_define_font(a, b));
    }
}

/// Adds advanced-rendering alignment zones to a font.
#[derive(Clone, Debug, PartialEq, Eq)]
pub struct DefineFontAlignZones {
    pub font_id: u16,
    pub csm_table_hint: CsmTableHint,
    pub zones: Vec<FontAlignmentZone>,
}

/// The interchange encoding of a `DefineFontAlignZones`.
pub open spec fn enc_define_font_align_zones(t: DefineFontAlignZones) -> Val {
    Val::Obj(seq![("font_id"@, Val::Int(t.font_id as int)), ("csm_table_hint"@, enc_csm_table_hint(t.csm_table_hint)), ("zones"@, Val::Arr(t.zones@.map_values(|y: FontAlignmentZone| enc_font_alignment_zone(y))))])
}

/// Whether `m` is exactly a well-formed `DefineFontAlignZones` field list.
pub open spec fn dec_ok_define_font_align_zones_fields(m: Seq<(Seq<char>, Val)>) -> bool {
    &&& int_field(m, 0, "font_id"@, 0, u16::MAX as int)
    &&& m[1].0 == "csm_table_hint"@ && dec_ok_csm_table_hint(m[1].1)
    &&& m[2].0 == "zones"@ && (m[2].1 is Arr && all_dec_ok_font_alignment_zone(arr_items(m[2].1)))
    &&& m.len() == 3
}

/// Whether `v` is a well-formed `DefineFontAlignZones` encoding.
pub open spec fn dec_ok_define_font_align_zones(v: Val) -> bool {
    v is Obj && dec_ok_define_font_align_zones_fields(obj_members(v))
}

/// Every element is a well-formed `DefineFontAlignZones` encoding.
pub open spec fn all_dec_ok_define_font_align_zones(items: Seq<Val>) -> bool {
    forall|k: int| 0 <= k < items.len() ==> dec_ok_define_font_align_zones(#[trigger] items[k])
}

impl DefineFontAlignZones {
    /// Appends this record's members to `ms`.
    #[verifier::loop_isolation(false)]
    #[verifier::rlimit(100)]
    #[verifier::spinoff_prover]
    pub fn encode_members(&self, ms: &mut Vec<Member>)
        ensures
            members_view(*final(ms)) == members_view(*old(ms)) + obj_members(enc_define_font_align_zones(*self)),
    {
        push_int(ms, "font_id", self.font_id as i128);
        push_value(ms, "csm_table_hint", self.csm_table_hint.encode());
        let mut arr_2: Vec<Value> = Vec::new();
        let mut j: usize = 0;
        while j < self.zones.len()
            invariant
                j <= self.zones@.len(),
                arr_2@.len() == j as int,
                forall|k: int| 0 <= k < j ==> #[trigger] val_view(arr_2@[k]) == enc_font_alignment_zone(self.zones@[k]),
            decreases self.zones@.len() - j,
        {
            arr_2.push(self.zones[j].encode());
            j = j + 1;
        }
        proof {
            let m2 = self.zones@.map_values(|y: FontAlignmentZone| enc_font_alignment_zone(y));
            assert(elems_view(arr_2).len() == m2.len());
            assert forall|k: int| 0 <= k < m2.len() implies elems_view(arr_2)[k] == m2[k] by {
                assert(val_view(arr_2@[k]) == enc_font_alignment_zone(self.zones@[k]));
                assert(m2[k] == enc_font_alignment_zone(self.zones@[k]));
            }
            assert(elems_view(arr_2) =~~= m2);
        }
        push_value(ms, "zones", Value::Arr(arr_2));
        proof {
            assert(members_view(*ms) =~~= members_view(*old(ms)) + obj_members(enc_define_font_align_zones(*self)));
        }
    }

    /// Encodes to the interchange form.
    pub fn encode(&self) -> (v: Value)
        ensures
            v@ == enc_define_font_align_zones(*self),
    {
        let mut ms: Vec<Member> = Vec::new();
        self.encode_members(&mut ms);
        let v = Value::Obj(ms);
        proof {
            assert(members_view(ms) =~= obj_members(enc_define_font_align_zones(*self)));
            assert(v@ == Val::Obj(members_view(ms)));
        }
        v
    }

    /// Decodes this record's members from `ms`, starting at `start`;
    /// succeeds exactly on a well-formed field list reaching the end.
    #[verifier::loop_isolation(false)]
    #[verifier::rlimit(100)]
    #[verifier::spinoff_prover]
    pub fn decode_members(ms: &Vec<Member>, start: usize) -> (r: Result<Self, DecodeError>)
        requires
            start as int <= members_view(*ms).len(),
        ensures
            r is Ok <==> dec_ok_define_font_align_zones_fields(members_view(*ms).skip(start as int)),
            r matches Ok(t) ==> members_view(*ms).skip(start as int) == obj_members(enc_define_font_align_zones(t)),
    {
        let ghost gm = members_view(*ms).skip(start as int);
        proof {
            assert(gm.len() == members_view(*ms).len() - start);
        }
        let mut i: usize = start;
        if ms.len() <= i {
            return Err(DecodeError::BadField);
        }
        let x_font_id: u16 = take_int(ms, i, "font_id", 0, u16::MAX as i128)? as u16;
        i = i + 1;
        if ms.len() <= i {
            return Err(DecodeError::BadField);
        }
        if !key_is(ms, i, "csm_table_hint") {
            return Err(DecodeError::BadField);
        }
        let x_csm_table_hint = CsmTableHint::decode(&ms[i].value)?;
        i = i + 1;
        if ms.len() <= i {
            return Err(DecodeError::BadField);
        }
        if !key_is(ms, i, "zones") {
            return Err(DecodeError::BadField);
        }
        let items_2 = match &ms[i].value {
            Value::Arr(a) => a,
            _ => {
                return Err(DecodeError::BadField);
            },
        };
        proof {
            assert(members_view(*ms)[i as int].1 == Val::Arr(elems_view(*items_2)));
            assert(arr_items(gm[(i - start) as int].1) == elems_view(*items_2));
        }
        let mut out_2: Vec<FontAlignmentZone> = Vec::new();
        let mut j: usize = 0;
        while j < items_2.len()
            invariant
                j <= items_2@.len(),
                out_2@.len() == j as int,
                forall|k: int| 0 <= k < j ==> #[trigger] elems_view(*items_2)[k] == enc_font_alignment_zone(out_2@[k]),
                forall|k: int| 0 <= k < j ==> dec_ok_font_alignment_zone(#[trigger] elems_view(*items_2)[k]),
            decreases items_2@.len() - j,
        {
            let x = match FontAlignmentZone::decode(&items_2[j]) {
                Ok(x) => x,
                Err(e) => {
                    proof {
                        assert(!dec_ok_font_alignment_zone(elems_view(*items_2)[j as int]));
                        assert(!all_dec_ok_font_alignment_zone(elems_view(*items_2)));
                    }
                    return Err(e);
                },
            };
            out_2.push(x);
            j = j + 1;
        }
        proof {
            assert(elems_view(*items_2) =~~= out_2@.map_values(|y: FontAlignmentZone| enc_font_alignment_zone(y)));
            assert(all_dec_ok_font_alignment_zone(elems_view(*items_2)));
        }
        let x_zones = out_2;
        i = i + 1;
        if i != ms.len() {
            return Err(DecodeError::BadField);
        }
        let t = DefineFontAlignZones { font_id: x_font_id, csm_table_hint: x_csm_table_hint, zones: x_zones };
        proof {
            assert(members_view(*ms).skip(start as int) =~~= obj_members(enc_define_font_align_zones(t)));
        }
        Ok(t)
    }

    /// Decodes from the interchange form; succeeds exactly on well-formed
    /// encodings and then returns the encoded value.
    #[verifier::rlimit(100)]
    #[verifier::spinoff_prover]
    pub fn decode(v: &Value) -> (r: Result<Self, DecodeError>)
        ensures
            r is Ok <==> dec_ok_define_font_align_zones(v@),
            r matches Ok(t) ==> v@ == enc_define_font_align_zones(t),
    {
        let ms = match v {
            Value::Obj(ms) => ms,
            _ => {
                return Err(DecodeError::ExpectedObject);
            },
        };
        let t = Self::decode_members(ms, 0)?;
        proof {
            assert(members_view(*ms).skip(0) =~= members_view(*ms));
            assert(v@ == Val::Obj(members_view(*ms)));
        }
        Ok(t)
    }
}

/// Field-wise equality of two `DefineFontAlignZones` values (text and payloads by content).
pub open spec fn eq_define_font_align_zones(a: DefineFontAlignZones, b: DefineFontAlignZones) -> bool {
    &&& a.font_id == b.font_id
    &&& eq_csm_table_hint(a.csm_table_hint, b.csm_table_hint)
    &&& (a.zones@.len() == b.zones@.len() && (forall|k: int| 0 <= k < a.zones@.len() ==> eq_font_alignment_zone(#[trigger] a.zones@[k], b.zones@[k])))
}

/// Round trip: every `DefineFontAlignZones` encoding is well-formed and decodes back
/// only to a field-wise equal value.
#[verifier::rlimit(100)]
#[verifier::spinoff_prover]
pub proof fn lemma_define_font_align_zones_round_trip(a: DefineFontAlignZones, b: DefineFontAlignZones)
    ensures
        dec_ok_define_font_align_zones(enc_define_font_align_zones(a)),
        enc_define_font_align_zones(a) == enc_define_font_align_zones(b) ==> eq_define_font_align_zones(a, b),
{
    reveal_strlit("font_id");
    reveal_strlit("csm_table_hint");
    reveal_strlit("zones");
    lemma_csm_table_hint_round_trip(a.csm_table_hint, b.csm_table_hint);
    lemma_csm_table_hint_round_trip(a.csm_table_hint, a.csm_table_hint);
    lemma_csm_table_hint_round_trip(b.csm_table_hint, b.csm_table_hint);
    {
        let ea0 = a.zones@.map_values(|y: FontAlignmentZone| enc_font_alignment_zone(y));
        assert forall|k: int| 0 <= k < ea0.len() implies dec_ok_font_alignment_zone(#[trigger] ea0[k]) by {
            lemma_font_alignment_zone_round_trip(a.zones@[k], a.zones@[k]);
        }
        assert(all_dec_ok_font_alignment_zone(ea0));
    }
    {
        let ea = a.zones@.map_values(|y: FontAlignmentZone| enc_font_alignment_zone(y));
        let eb = b.zones@.map_values(|y: FontAlignmentZone| enc_font_alignment_zone(y));
        if ea == eb {
            assert forall|k: int| 0 <= k < a.zones@.len() implies eq_font_alignment_zone(#[trigger] a.zones@[k], b.zones@[k]) by {
                assert(ea[k] == eb[k]);
                lemma_font_alignment_zone_round_trip(a.zones@[k], b.zones@[k]);
            }
        }
    }
    assert(dec_ok_define_font_align_zones_fields(obj_members(enc_define_font_align_zones(a))));
    if enc_define_font_align_zones(a) == enc_define_font_align_zones(b) {
        assert(eq_define_font_align_zones(a, b));
    }
}

/// Maps a font's glyph indices to code units.
#[derive(Clone, Debug, PartialEq, Eq)]
pub struct DefineFontInfo {
    pub font_id: u16,
    pub font_name: String,
    pub is_small: bool,
    pub is_shift_jis: bool,
    pub is_ansi: bool,
    pub is_italic: bool,
    pub is_bold: bool,
    pub language: Option<LanguageCode>,
    pub code_units: Vec<u16>,
}

/// The interchange encoding of a `DefineFontInfo`.
pub open spec fn enc_define_font_info(t: DefineFontInfo) -> Val {
    Val::Obj(seq![("font_id"@, Val::Int(t.font_id as int)), ("font_name"@, Val::Str(t.font_name@)), ("is_small"@, Val::Bool(t.is_small)), ("is_shift_jis"@, Val::Bool(t.is_shift_jis)), ("is_ansi"@, Val::Bool(t.is_ansi)), ("is_italic"@, Val::Bool(t.is_italic)), ("is_bold"@, Val::Bool(t.is_bold))] + maybe("language"@, match t.language { Option::Some(x) => Option::Some(enc_language_code(x)), Option::None => Option::None }) + seq![("code_units"@, Val::Arr(t.code_units@.map_values(|y: u16| Val::Int(y as int))))])
}

/// Whether `m` is exactly a well-formed `DefineFontInfo` field list.
pub open spec fn dec_ok_define_font_info_fields(m: Seq<(Seq<char>, Val)>) -> bool {
    let has_language = m.len() > 7 && m[7].0 == "language"@;
    let j1 = if has_language { 7 + 1int } else { 7 };
    &&& int_field(m, 0, "font_id"@, 0, u16::MAX as int)
    &&& str_field(m, 1, "font_name"@)
    &&& bool_field(m, 2, "is_small"@)
    &&& bool_field(m, 3, "is_shift_jis"@)
    &&& bool_field(m, 4, "is_ansi"@)
    &&& bool_field(m, 5, "is_italic"@)
    &&& bool_field(m, 6, "is_bold"@)
    &&& has_language ==> (dec_ok_language_code(m[7].1))
    &&& m[j1].0 == "code_units"@ && (m[j1].1 is Arr && all_ints(arr_items(m[j1].1), 0, u16::MAX as int))
    &&& m.len() == j1 + 1
}

/// Whether `v` is a well-formed `DefineFontInfo` encoding.
pub open spec fn dec_ok_define_font_info(v: Val) -> bool {
    v is Obj && dec_ok_define_font_info_fields(obj_members(v))
}

/// Every element is a well-formed `DefineFontInfo` encoding.
pub open spec fn all_dec_ok_define_font_info(items: Seq<Val>) -> bool {
    forall|k: int| 0 <= k < items.len() ==> dec_ok_define_font_info(#[trigger] items[k])
}

impl DefineFontInfo {
    /// Appends this record's members to `ms`.
    #[verifier::loop_isolation(false)]
    #[verifier::rlimit(100)]
    #[verifier::spinoff_prover]
    pub fn encode_members(&self, ms: &mut Vec<Member>)
        ensures
            members_view(*final(ms)) == members_view(*old(ms)) + obj_members(enc_define_font_info(*self)),
    {
        push_int(ms, "font_id", self.font_id as i128);
        push_str(ms, "font_name", &self.font_name);
        push_bool(ms, "is_small", self.is_small);
        push_bool(ms, "is_shift_jis", self.is_shift_jis);
        push_bool(ms, "is_ansi", self.is_ansi);
        push_bool(ms, "is_italic", self.is_italic);
        push_bool(ms, "is_bold", self.is_bold);
        if let Some(x) = &self.language {
            push_value(ms, "language", (*x).encode());
        }
        let mut arr_8: Vec<Value> = Vec::new();
        let mut j: usize = 0;
        while j < self.code_units.len()
            invariant
                j <= self.code_units@.len(),
                arr_8@.len() == j as int,
                forall|k: int| 0 <= k < j ==> #[trigger] val_view(arr_8@[k]) == Val::Int(self.code_units@[k] as int),
            decreases self.code_units@.len() - j,
        {
            arr_8.push(Value::Int(self.code_units[j] as i128));
            j = j + 1;
        }
        proof {
            let m2 = self.code_units@.map_values(|y: u16| Val::Int(y as int));
            assert(elems_view(arr_8).len() == m2.len());
            assert forall|k: int| 0 <= k < m2.len() implies elems_view(arr_8)[k] == m2[k] by {
                assert(val_view(arr_8@[k]) == Val::Int(self.code_units@[k] as int));
                assert(m2[k] == Val::Int(self.code_units@[k] as int));
            }
            assert(elems_view(arr_8) =~~= m2);
        }
        push_value(ms, "code_units", Value::Arr(arr_8));
        proof {
            assert(members_view(*ms) =~~= members_view(*old(ms)) + obj_members(enc_define_font_info(*self)));
        }
    }

    /// Encodes to the interchange form.
    pub fn encode(&self) -> (v: Value)
        ensures
            v@ == enc_define_font_info(*self),
    {
        let mut ms: Vec<Member> = Vec::new();
        self.encode_members(&mut ms);
        let v = Value::Obj(ms);
        proof {
            assert(members_view(ms) =~= obj_members(enc_define_font_info(*self)));
            assert(v@ == Val::Obj(members_view(ms)));
        }
        v
    }

    /// Decodes this record's members from `ms`, starting at `start`;
    /// succeeds exactly on a well-formed field list reaching the end.
    #[verifier::loop_isolation(false)]
    #[verifier::rlimit(100)]
    #[verifier::spinoff_prover]
    pub fn decode_members(ms: &Vec<Member>, start: usize) -> (r: Result<Self, DecodeError>)
        requires
            start as int <= members_view(*ms).len(),
        ensures
            r is Ok <==> dec_ok_define_font_info_fields(members_view(*ms).skip(start as int)),
            r matches Ok(t) ==> members_view(*ms).skip(start as int) == obj_members(enc_define_font_info(t)),
    {
        let ghost gm = members_view(*ms).skip(start as int);
        proof {
            assert(gm.len() == members_view(*ms).len() - start);
        }
        let mut i: usize = start;
        if ms.len() <= i {
            return Err(DecodeError::BadField);
        }
        let x_font_id: u16 = take_int(ms, i, "font_id", 0, u16::MAX as i128)? as u16;
        i = i + 1;
        if ms.len() <= i {
            return Err(DecodeError::BadField);
        }
        let x_font_name: String = take_str(ms, i, "font_name")?;
        i = i + 1;
        if ms.len() <= i {
            return Err(DecodeError::BadField);
        }
        let x_is_small: bool = take_bool(ms, i, "is_small")?;
        i = i + 1;
        if ms.len() <= i {
            return Err(DecodeError::BadField);
        }
        let x_is_shift_jis: bool = take_bool(ms, i, "is_shift_jis")?;
        i = i + 1;
        if ms.len() <= i {
            return Err(DecodeError::BadField);
        }
        let x_is_ansi: bool = take_bool(ms, i, "is_ansi")?;
        i = i + 1;
        if ms.len() <= i {
            return Err(DecodeError::BadField);
        }
        let x_is_italic: bool = take_bool(ms, i, "is_italic")?;
        i = i + 1;
        if ms.len() <= i {
            return Err(DecodeError::BadField);
        }
        let x_is_bold: bool = take_bool(ms, i, "is_bold")?;
        i = i + 1;
        let x_language: Option<LanguageCode>;
        if i < ms.len() && key_is(ms, i, "language") {
            if ms.len() <= i {
                return Err(DecodeError::BadField);
            }
            if !key_is(ms, i, "language") {
                return Err(DecodeError::BadField);
            }
            let inner_language = LanguageCode::decode(&ms[i].value)?;
            i = i + 1;
            x_language = Some(inner_language);
        } else {
            x_language = None;
        }
        if ms.len() <= i {
            return Err(DecodeError::BadField);
        }
        if !key_is(ms, i, "code_units") {
            return Err(DecodeError::BadField);
        }
        let items_8 = match &ms[i].value {
            Value::Arr(a) => a,
            _ => {
                return Err(DecodeError::BadField);
            },
        };
        proof {
            assert(members_view(*ms)[i as int].1 == Val::Arr(elems_view(*items_8)));
            assert(arr_items(gm[(i - start) as int].1) == elems_view(*items_8));
        }
        let mut out_8: Vec<u16> = Vec::new();
        let mut j: usize = 0;
        while j < items_8.len()
            invariant
                j <= items_8@.len(),
                out_8@.len() == j as int,
                forall|k: int| 0 <= k < j ==> #[trigger] elems_view(*items_8)[k] == Val::Int(out_8@[k] as int),
            decreases items_8@.len() - j,
        {
            let x: u16 = match &items_8[j] {
                Value::Int(y) => {
                    if 0 <= *y && *y <= u16::MAX as i128 {
                        *y as u16
                    } else {
                        proof {
                            assert(!({ let q = elems_view(*items_8)[j as int]; q matches Val::Int(z) && 0 <= z <= u16::MAX as int }));
                            assert(!all_ints(elems_view(*items_8), 0, u16::MAX as int));
                        }
                        return Err(DecodeError::OutOfRange);
                    }
                },
                _ => {
                    proof {
                        assert(!({ let q = elems_view(*items_8)[j as int]; q matches Val::Int(z) && 0 <= z <= u16::MAX as int }));
                        assert(!all_ints(elems_view(*items_8), 0, u16::MAX as int));
                    }
                    return Err(DecodeError::BadField);
                },
            };
            out_8.push(x);
            j = j + 1;
        }
        proof {
            assert(elems_view(*items_8) =~~= out_8@.map_values(|y: u16| Val::Int(y as int)));
            assert(all_ints(elems_view(*items_8), 0, u16::MAX as int));
        }
        let x_code_units = out_8;
        i = i + 1;
        if i != ms.len() {
            return Err(DecodeError::BadField);
        }
        let t = DefineFontInfo { font_id: x_font_id, font_name: x_font_name, is_small: x_is_small, is_shift_jis: x_is_shift_jis, is_ansi: x_is_ansi, is_italic: x_is_italic, is_bold: x_is_bold, language: x_language, code_units: x_code_units };
        proof {
            assert(members_view(*ms).skip(start as int) =~~= obj_members(enc_define_font_info(t)));
        }
        Ok(t)
    }

    /// Decodes from the interchange form; succeeds exactly on well-formed
    /// encodings and then returns the encoded value.
    #[verifier::rlimit(100)]
    #[verifier::spinoff_prover]
    pub fn decode(v: &Value) -> (r: Result<Self, DecodeError>)
        ensures
            r is Ok <==> dec_ok_define_font_info(v@),
            r matches Ok(t) ==> v@ == enc_define_font_info(t),
    {
        let ms = match v {
            Value::Obj(ms) => ms,
            _ => {
                return Err(DecodeError::ExpectedObject);
            },
        };
        let t = Self::decode_members(ms, 0)?;
        proof {
            assert(members_view(*ms).skip(0) =~= members_view(*ms));
            assert(v@ == Val::Obj(members_view(*ms)));
        }
        Ok(t)
    }
}

/// Field-wise equality of two `DefineFontInfo` values (text and payloads by content).
pub open spec fn eq_define_font_info(a: DefineFontInfo, b: DefineFontInfo) -> bool {
    &&& a.font_id == b.font_id
    &&& a.font_name@ == b.font_name@
    &&& a.is_small == b.is_small
    &&& a.is_shift_jis == b.is_shift_jis
    &&& a.is_ansi == b.is_ansi
    &&& a.is_italic == b.is_italic
    &&& a.is_bold == b.is_bold
    &&& (match (a.language, b.language) { (Option::Some(x), Option::Some(y)) => eq_language_code(x, y), (Option::None, Option::None) => true, _ => false })
    &&& a.code_units@ == b.code_units@
}

/// Round trip: every `DefineFontInfo` encoding is well-formed and decodes back
/// only to a field-wise equal value.
#[verifier::rlimit(100)]
#[verifier::spinoff_prover]
pub proof fn lemma_define_font_info_round_trip(a: DefineFontInfo, b: DefineFontInfo)
    ensures
        dec_ok_define_font_info(enc_define_font_info(a)),
        enc_define_font_info(a) == enc_define_font_info(b) ==> eq_define_font_info(a, b),
{
    reveal_strlit("font_id");
    reveal_strlit("font_name");
    reveal_strlit("is_small");
    reveal_strlit("is_shift_jis");
    reveal_strlit("is_ansi");
    reveal_strlit("is_italic");
    reveal_strlit("is_bold");
    reveal_strlit("language");
    reveal_strlit("code_units");
    assert("code_units"@.len() == 10);
    assert("font_id"@.len() == 7);
    assert("font_name"@.len() == 9);
    assert("is_ansi"@.len() == 7);
    assert("is_bold"@.len() == 7);
    assert("is_italic"@.len() == 9);
    assert("is_shift_jis"@.len() == 12);
    assert("is_small"@.len() == 8);
    assert("language"@.len() == 8);
    assert("font_id"@ != "font_name"@);
    assert("font_id"@ != "is_small"@);
    assert("font_id"@ != "is_shift_jis"@);
    assert("font_id"@[0] == 'f');
    assert("is_ansi"@[0] == 'i');
    assert("font_id"@ != "is_ansi"@);
    assert("font_id"@ != "is_italic"@);
    assert("font_id"@[0] == 'f');
    assert("is_bold"@[0] == 'i');
    assert("font_id"@ != "is_bold"@);
    assert("font_id"@ != "language"@);
    assert("font_id"@ != "code_units"@);
    assert("font_name"@ != "is_small"@);
    assert("font_name"@ != "is_shift_jis"@);
    assert("font_name"@ != "is_ansi"@);
    assert("font_name"@[0] == 'f');
    assert("is_italic"@[0] == 'i');
    assert("font_name"@ != "is_italic"@);
    assert("font_name"@ != "is_bold"@);
    assert("font_name"@ != "language"@);
    assert("font_name"@ != "code_units"@);
    assert("is_small"@ != "is_shift_jis"@);
    assert("is_small"@ != "is_ansi"@);
    assert("is_small"@ != "is_italic"@);
    assert("is_small"@ != "is_bold"@);
    assert("is_small"@[0] == 'i');
    assert("language"@[0] == 'l');
    assert("is_small"@ != "language"@);
    assert("is_small"@ != "code_units"@);
    assert("is_shift_jis"@ != "is_ansi"@);
    assert("is_shift_jis"@ != "is_italic"@);
    assert("is_shift_jis"@ != "is_bold"@);
    assert("is_shift_jis"@ != "language"@);
    assert("is_shift_jis"@ != "code_units"@);
    assert("is_ansi"@ != "is_italic"@);
    assert("is_ansi"@[3] == 'a');
    assert("is_bold"@[3] == 'b');
    assert("is_ansi"@ != "is_bold"@);
    assert("is_ansi"@ != "language"@);
    assert("is_ansi"@ != "code_units"@);
    assert("is_italic"@ != "is_bold"@);
    assert("is_italic"@ != "language"@);
    assert("is_italic"@ != "code_units"@);
    assert("is_bold"@ != "language"@);
    assert("is_bold"@ != "code_units"@);
    assert("language"@ != "code_units"@);
    if let (Option::Some(x), Option::Some(y)) = (a.language, b.language) { lemma_language_code_round_trip(x, y); }
    if let Option::Some(x) = a.language { lemma_language_code_round_trip(x, x); }
    if let Option::Some(x) = b.language { lemma_language_code_round_trip(x, x); }
    {
        let ea_code_units = a.code_units@.map_values(|y: u16| Val::Int(y as int));
        let eb_code_units = b.code_units@.map_values(|y: u16| Val::Int(y as int));
        assert forall|k: int| 0 <= k < ea_code_units.len() implies (#[trigger] ea_code_units[k] matches Val::Int(z) && 0 <= z <= u16::MAX as int) by {
            assert(ea_code_units[k] == Val::Int(a.code_units@[k] as int));
        }
        assert(all_ints(ea_code_units, 0, u16::MAX as int));
        if ea_code_units == eb_code_units {
            assert forall|k: int| 0 <= k < a.code_units@.len() implies a.code_units@[k] == b.code_units@[k] by {
                assert(ea_code_units[k] == Val::Int(a.code_units@[k] as int));
                assert(eb_code_units[k] == Val::Int(b.code_units@[k] as int));
                assert(a.code_units@[k] as int == b.code_units@[k] as int);
            }
            assert(a.code_units@ =~= b.code_units@);
        }
    }
    assert(dec_ok_define_font_info_fields(obj_members(enc_define_font_info(a))));
    if enc_define_font_info(a) == enc_define_font_info(b) {
        assert(eq_define_font_info(a, b));
    }
}

/// Names a font and carries its copyright notice.
#[derive(Clone, Debug, PartialEq, Eq)]
pub struct DefineFontName {
    pub font_id: u16,
    pub name: String,
    pub copyright: String,
}

/// The interchange encoding of a `DefineFontName`.
pub open spec fn enc_define_font_name(t: DefineFontName) -> Val {
    Val::Obj(seq![("font_id"@, Val::Int(t.font_id as int)), ("name"@, Val::Str(t.name@)), ("copyright"@, Val::Str(t.copyright@))])
}

/// Whether `m` is exactly a well-formed `DefineFontName` field list.
pub open spec fn dec_ok_define_font_name_fields(m: Seq<(Seq<char>, Val)>) -> bool {
    &&& int_field(m, 0, "font_id"@, 0, u16::MAX as int)
    &&& str_field(m, 1, "name"@)
    &&& str_field(m, 2, "copyright"@)
    &&& m.len() == 3
}

/// Whether `v` is a well-formed `DefineFontName` encoding.
pub open spec fn dec_ok_define_font_name(v: Val) -> bool {
    v is Obj && dec_ok_define_font_name_fields(obj_members(v))
}

/// Every element is a well-formed `DefineFontName` encoding.
pub open spec fn all_dec_ok_define_font_name(items: Seq<Val>) -> bool {
    forall|k: int| 0 <= k < items.len() ==> dec_ok_define_font_name(#[trigger] items[k])
}

impl DefineFontName {
    /// Appends this record's members to `ms`.
    #[verifier::loop_isolation(false)]
    #[verifier::rlimit(100)]
    #[verifier::spinoff_prover]
    pub fn encode_members(&self, ms: &mut Vec<Member>)
        ensures
            members_view(*final(ms)) == members_view(*old(ms)) + obj_members(enc_define_font_name(*self)),
    {
        push_int(ms, "font_id", self.font_id as i128);
        push_str(ms, "name", &self.name);
        push_str(ms, "copyright", &self.copyright);
        proof {
            assert(members_view(*ms) =~~= members_view(*old(ms)) + obj_members(enc_define_font_name(*self)));
        }
    }

    /// Encodes to the interchange form.
    pub fn encode(&self) -> (v: Value)
        ensures
            v@ == enc_define_font_name(*self),
    {
        let mut ms: Vec<Member> = Vec::new();
        self.encode_members(&mut ms);
        let v = Value::Obj(ms);
        proof {
            assert(members_view(ms) =~= obj_members(enc_define_font_name(*self)));
            assert(v@ == Val::Obj(members_view(ms)));
        }
        v
    }

    /// Decodes this record's members from `ms`, starting at `start`;
    /// succeeds exactly on a well-formed field list reaching the end.
    #[verifier::loop_isolation(false)]
    #[verifier::rlimit(100)]
    #[verifier::spinoff_prover]
    pub fn decode_members(ms: &Vec<Member>, start: usize) -> (r: Result<Self, DecodeError>)
        requires
            start as int <= members_view(*ms).len(),
        ensures
            r is Ok <==> dec_ok_define_font_name_fields(members_view(*ms).skip(start as int)),
            r matches Ok(t) ==> members_view(*ms).skip(start as int) == obj_members(enc_define_font_name(t)),
    {
        let ghost gm = members_view(*ms).skip(start as int);
        proof {
            assert(gm.len() == members_view(*ms).len() - start);
        }
        let mut i: usize = start;
        if ms.len() <= i {
            return Err(DecodeError::BadField);
        }
        let x_font_id: u16 = take_int(ms, i, "font_id", 0, u16::MAX as i128)? as u16;
        i = i + 1;
        if ms.len() <= i {
            return Err(DecodeError::BadField);
        }
        let x_name: String = take_str(ms, i, "name")?;
        i = i + 1;
        if ms.len() <= i {
            return Err(DecodeError::BadField);
        }
        let x_copyright: String = take_str(ms, i, "copyright")?;
        i = i + 1;
        if i != ms.len() {
            return Err(DecodeError::BadField);
        }
        let t = DefineFontName { font_id: x_font_id, name: x_name, copyright: x_copyright };
        proof {
            assert(members_view(*ms).skip(start as int) =~~= obj_members(enc_define_font_name(t)));
        }
        Ok(t)
    }

    /// Decodes from the interchange form; succeeds exactly on well-formed
    /// encodings and then returns the encoded value.
    #[verifier::rlimit(100)]
    #[verifier::spinoff_prover]
    pub fn decode(v: &Value) -> (r: Result<Self, DecodeError>)
        ensures
            r is Ok <==> dec_ok_define_font_name(v@),
            r matches Ok(t) ==> v@ == enc_define_font_name(t),
    {
        let ms = match v {
            Value::Obj(ms) => ms,
            _ => {
                return Err(DecodeError::ExpectedObject);
            },
        };
        let t = Self::decode_members(ms, 0)?;
        proof {
            assert(members_view(*ms).skip(0) =~= members_view(*ms));
            assert(v@ == Val::Obj(members_view(*ms)));
        }
        Ok(t)
    }
}

/// Field-wise equality of two `DefineFontName` values (text and payloads by content).
pub open spec fn eq_define_font_name(a: DefineFontName, b: DefineFontName) -> bool {
    &&& a.font_id == b.font_id
    &&& a.name@ == b.name@
    &&& a.copyright@ == b.copyright@
}

/// Round trip: every `DefineFontName` encoding is well-formed and decodes back
/// only to a field-wise equal value.
#[verifier::rlimit(100)]
#[verifier::spinoff_prover]
pub proof fn lemma_define_font_name_round_trip(a: DefineFontName, b: DefineFontName)
    ensures
        dec_ok_define_font_name(enc_define_font_name(a)),
        enc_define_font_name(a) == enc_define_font_name(b) ==> eq_define_font_name(a, b),
{
    reveal_strlit("font_id");
    reveal_strlit("name");
    reveal_strlit("copyright");

    assert(dec_ok_define_font_name_fields(obj_members(enc_define_font_name(a))));
    if enc_define_font_name(a) == enc_define_font_name(b) {
        assert(eq_define_font_name(a, b));
    }
}

/// The shared JPEG encoding tables of a document.
#[derive(Clone, Debug, PartialEq, Eq)]
pub struct DefineJpegTables {
    pub data: Vec<u8>,
}

/// The interchange encoding of a `DefineJpegTables`.
pub open spec fn enc_define_jpeg_tables(t: DefineJpegTables) -> Val {
    Val::Obj(seq![("data"@, Val::Str(hex_of(t.data@)))])
}

/// Whether `m` is exactly a well-formed `DefineJpegTables` field list.
pub open spec fn dec_ok_define_jpeg_tables_fields(m: Seq<(Seq<char>, Val)>) -> bool {
    &&& str_field(m, 0, "data"@) && is_hex_seq(str_at(m, 0))
    &&& m.len() == 1
}

/// Whether `v` is a well-formed `DefineJpegTables` encoding.
pub open spec fn dec_ok_define_jpeg_tables(v: Val) -> bool {
    v is Obj && dec_ok_define_jpeg_tables_fields(obj_members(v))
}

/// Every element is a well-formed `DefineJpegTables` encoding.
pub open spec fn all_dec_ok_define_jpeg_tables(items: Seq<Val>) -> bool {
    forall|k: int| 0 <= k < items.len() ==> dec_ok_define_jpeg_tables(#[trigger] items[k])
}

impl DefineJpegTables {
    /// Appends this record's members to `ms`.
    #[verifier::loop_isolation(false)]
    #[verifier::rlimit(100)]
    #[verifier::spinoff_prover]
    pub fn encode_members(&self, ms: &mut Vec<Member>)
        ensures
            members_view(*final(ms)) == members_view(*old(ms)) + obj_members(enc_define_jpeg_tables(*self)),
    {
        let hx_0 = hex_encode(&self.data);
        push_str(ms, "data", &hx_0);
        proof {
            assert(members_view(*ms) =~~= members_view(*old(ms)) + obj_members(enc_define_jpeg_tables(*self)));
        }
    }

    /// Encodes to the interchange form.
    pub fn encode(&self) -> (v: Value)
        ensures
            v@ == enc_define_jpeg_tables(*self),
    {
        let mut ms: Vec<Member> = Vec::new();
        self.encode_members(&mut ms);
        let v = Value::Obj(ms);
        proof {
            assert(members_view(ms) =~= obj_members(enc_define_jpeg_tables(*self)));
            assert(v@ == Val::Obj(members_view(ms)));
        }
        v
    }

    /// Decodes this record's members from `ms`, starting at `start`;
    /// succeeds exactly on a well-formed field list reaching the end.
    #[verifier::loop_isolation(false)]
    #[verifier::rlimit(100)]
    #[verifier::spinoff_prover]
    pub fn decode_members(ms: &Vec<Member>, start: usize) -> (r: Result<Self, DecodeError>)
        requires
            start as int <= members_view(*ms).len(),
        ensures
            r is Ok <==> dec_ok_define_jpeg_tables_fields(members_view(*ms).skip(start as int)),
            r matches Ok(t) ==> members_view(*ms).skip(start as int) == obj_members(enc_define_jpeg_tables(t)),
    {
        let ghost gm = members_view(*ms).skip(start as int);
        proof {
            assert(gm.len() == members_view(*ms).len() - start);
        }
        let mut i: usize = start;
        if ms.len() <= i {
            return Err(DecodeError::BadField);
        }
        let s_0 = take_str(ms, i, "data")?;
        let x_data: Vec<u8> = hex_decode(s_0.as_str())?;
        i = i + 1;
        if i != ms.len() {
            return Err(DecodeError::BadField);
        }
        let t = DefineJpegTables { data: x_data };
        proof {
            assert(members_view(*ms).skip(start as int) =~~= obj_members(enc_define_jpeg_tables(t)));
        }
        Ok(t)
    }

    /// Decodes from the interchange form; succeeds exactly on well-formed
    /// encodings and then returns the encoded value.
    #[verifier::rlimit(100)]
    #[verifier::spinoff_prover]
    pub fn decode(v: &Value) -> (r: Result<Self, DecodeError>)
        ensures
            r is Ok <==> dec_ok_define_jpeg_tables(v@),
            r matches Ok(t) ==> v@ == enc_define_jpeg_tables(t),
    {
        let ms = match v {
            Value::Obj(ms) => ms,
            _ => {
                return Err(DecodeError::ExpectedObject);
            },
        };
        let t = Self::decode_members(ms, 0)?;
        proof {
            assert(members_view(*ms).skip(0) =~= members_view(*ms));
            assert(v@ == Val::Obj(members_view(*ms)));
        }
        Ok(t)
    }
}

/// Field-wise equality of two `DefineJpegTables` values (text and payloads by content).
pub open spec fn eq_define_jpeg_tables(a: DefineJpegTables, b: DefineJpegTables) -> bool {
    &&& a.data@ == b.data@
}

/// Round trip: every `DefineJpegTables` encoding is well-formed and decodes back
/// only to a field-wise equal value.
#[verifier::rlimit(100)]
#[verifier::spinoff_prover]
pub proof fn lemma_define_jpeg_tables_round_trip(a: DefineJpegTables, b: DefineJpegTables)
    ensures
        dec_ok_define_jpeg_tables(enc_define_jpeg_tables(a)),
        enc_define_jpeg_tables(a) == enc_define_jpeg_tables(b) ==> eq_define_jpeg_tables(a, b),
{
    reveal_strlit("data");
    crate::hex::lemma_hex_round_trip(a.data@);
    crate::hex::lemma_hex_round_trip(b.data@);
    assert(dec_ok_define_jpeg_tables_fields(obj_members(enc_define_jpeg_tables(a))));
    if enc_define_jpeg_tables(a) == enc_define_jpeg_tables(b) {
        assert(eq_define_jpeg_tables(a, b));
    }
}

/// Registers a shape that morphs between a start and an end outline.
#[derive(Clone, Debug, PartialEq, Eq)]
pub struct DefineMorphShape {
    pub id: u16,
    pub bounds: Rect,
    pub morph_bounds: Rect,
    pub edge_bounds: Option<Rect>,
    pub morph_edge_bounds: Option<Rect>,
    pub has_non_scaling_strokes: bool,
    pub has_scaling_strokes: bool,
    pub shape: MorphShape,
}

/// The interchange encoding of a `DefineMorphShape`.
pub open spec fn enc_define_morph_shape(t: DefineMorphShape) -> Val {
    Val::Obj(seq![("id"@, Val::Int(t.id as int)), ("bounds"@, enc_rect(t.bounds)), ("morph_bounds"@, enc_rect(t.morph_bounds))] + maybe("edge_bounds"@, match t.edge_bounds { Option::Some(x) => Option::Some(enc_rect(x)), Option::None => Option::None }) + maybe("morph_edge_bounds"@, match t.morph_edge_bounds { Option::Some(x) => Option::Some(enc_rect(x)), Option::None => Option::None }) + seq![("has_non_scaling_strokes"@, Val::Bool(t.has_non_scaling_strokes)), ("has_scaling_strokes"@, Val::Bool(t.has_scaling_strokes)), ("shape"@, enc_morph_shape(t.shape))])
}

/// Whether `m` is exactly a well-formed `DefineMorphShape` field list.
pub open spec fn dec_ok_define_morph_shape_fields(m: Seq<(Seq<char>, Val)>) -> bool {
    let has_edge_bounds = m.len() > 3 && m[3].0 == "edge_bounds"@;
    let j1 = if has_edge_bounds { 3 + 1int } else { 3 };
    let has_morph_edge_bounds = m.len() > j1 && m[j1].0 == "morph_edge_bounds"@;
    let j2 = if has_morph_edge_bounds { j1 + 1int } else { j1 };
    &&& int_field(m, 0, "id"@, 0, u16::MAX as int)
    &&& m[1].0 == "bounds"@ && dec_ok_rect(m[1].1)
    &&& m[2].0 == "morph_bounds"@ && dec_ok_rect(m[2].1)
    &&& has_edge_bounds ==> (dec_ok_rect(m[3].1))
    &&& has_morph_edge_bounds ==> (dec_ok_rect(m[j1].1))
    &&& bool_field(m, j2, "has_non_scaling_strokes"@)
    &&& bool_field(m, j2 + 1, "has_scaling_strokes"@)
    &&& m[j2 + 2].0 == "shape"@ && dec_ok_morph_shape(m[j2 + 2].1)
    &&& m.len() == j2 + 3
}

/// Whether `v` is a well-formed `DefineMorphShape` encoding.
pub open spec fn dec_ok_define_morph_shape(v: Val) -> bool {
    v is Obj && dec_ok_define_morph_shape_fields(obj_members(v))
}

/// Every element is a well-formed `DefineMorphShape` encoding.
pub open spec fn all_dec_ok_define_morph_shape(items: Seq<Val>) -> bool {
    forall|k: int| 0 <= k < items.len() ==> dec_ok_define_morph_shape(#[trigger] items[k])
}

impl DefineMorphShape {
    /// Appends this record's members to `ms`.
    #[verifier::loop_isolation(false)]
    #[verifier::rlimit(100)]
    #[verifier::spinoff_prover]
    pub fn encode_members(&self, ms: &mut Vec<Member>)
        ensures
            members_view(*final(ms)) == members_view(*old(ms)) + obj_members(enc_define_morph_shape(*self)),
    {
        push_int(ms, "id", self.id as i128);
        push_value(ms, "bounds", self.bounds.encode());
        push_value(ms, "morph_bounds", self.morph_bounds.encode());
        if let Some(x) = &self.edge_bounds {
            push_value(ms, "edge_bounds", (*x).encode());
        }
        if let Some(x) = &self.morph_edge_bounds {
            push_value(ms, "morph_edge_bounds", (*x).encode());
        }
        push_bool(ms, "has_non_scaling_strokes", self.has_non_scaling_strokes);
        push_bool(ms, "has_scaling_strokes", self.has_scaling_strokes);
        push_value(ms, "shape", self.shape.encode());
        proof {
            assert(members_view(*ms) =~~= members_view(*old(ms)) + obj_members(enc_define_morph_shape(*self)));
        }
    }

    /// Encodes to the interchange form.
    pub fn encode(&self) -> (v: Value)
        ensures
            v@ == enc_define_morph_shape(*self),
    {
        let mut ms: Vec<Member> = Vec::new();
        self.encode_members(&mut ms);
        let v = Value::Obj(ms);
        proof {
            assert(members_view(ms) =~= obj_members(enc_define_morph_shape(*self)));
            assert(v@ == Val::Obj(members_view(ms)));
        }
        v
    }

    /// Decodes this record's members from `ms`, starting at `start`;
    /// succeeds exactly on a well-formed field list reaching the end.
    #[verifier::loop_isolation(false)]
    #[verifier::rlimit(100)]
    #[verifier::spinoff_prover]
    pub fn decode_members(ms: &Vec<Member>, start: usize) -> (r: Result<Self, DecodeError>)
        requires
            start as int <= members_view(*ms).len(),
        ensures
            r is Ok <==> dec_ok_define_morph_shape_fields(members_view(*ms).skip(start as int)),
            r matches Ok(t) ==> members_view(*ms).skip(start as int) == obj_members(enc_define_morph_shape(t)),
    {
        let ghost gm = members_view(*ms).skip(start as int);
        proof {
            assert(gm.len() == members_view(*ms).len() - start);
        }
        let mut i: usize = start;
        if ms.len() <= i {
            return Err(DecodeError::BadField);
        }
        let x_id: u16 = take_int(ms, i, "id", 0, u16::MAX as i128)? as u16;
        i = i + 1;
        if ms.len() <= i {
            return Err(DecodeError::BadField);
        }
        if !key_is(ms, i, "bounds") {
            return Err(DecodeError::BadField);
        }
        let x_bounds = Rect::decode(&ms[i].value)?;
        i = i + 1;
        if ms.len() <= i {
            return Err(DecodeError::BadField);
        }
        if !key_is(ms, i, "morph_bounds") {
            return Err(DecodeError::BadField);
        }
        let x_morph_bounds = Rect::decode(&ms[i].value)?;
        i = i + 1;
        let x_edge_bounds: Option<Rect>;
        if i < ms.len() && key_is(ms, i, "edge_bounds") {
            if ms.len() <= i {
                return Err(DecodeError::BadField);
            }
            if !key_is(ms, i, "edge_bounds") {
                return Err(DecodeError::BadField);
            }
            let inner_edge_bounds = Rect::decode(&ms[i].value)?;
            i = i + 1;
            x_edge_bounds = Some(inner_edge_bounds);
        } else {
            x_edge_bounds = None;
        }
        let x_morph_edge_bounds: Option<Rect>;
        if i < ms.len() && key_is(ms, i, "morph_edge_bounds") {
            if ms.len() <= i {
                return Err(DecodeError::BadField);
            }
            if !key_is(ms, i, "morph_edge_bounds") {
                return Err(DecodeError::BadField);
            }
            let inner_morph_edge_bounds = Rect::decode(&ms[i].value)?;
            i = i + 1;
            x_morph_edge_bounds = Some(inner_morph_edge_bounds);
        } else {
            x_morph_edge_bounds = None;
        }
        if ms.len() <= i {
            return Err(DecodeError::BadField);
        }
        let x_has_non_scaling_strokes: bool = take_bool(ms, i, "has_non_scaling_strokes")?;
        i = i + 1;
        if ms.len() <= i {
            return Err(DecodeError::BadField);
        }
        let x_has_scaling_strokes: bool = take_bool(ms, i, "has_scaling_strokes")?;
        i = i + 1;
        if ms.len() <= i {
            return Err(DecodeError::BadField);
        }
        if !key_is(ms, i, "shape") {
            return Err(DecodeError::BadField);
        }
        let x_shape = MorphShape::decode(&ms[i].value)?;
        i = i + 1;
        if i != ms.len() {
            return Err(DecodeError::BadField);
        }
        let t = DefineMorphShape { id: x_id, bounds: x_bounds, morph_bounds: x_morph_bounds, edge_bounds: x_edge_bounds, morph_edge_bounds: x_morph_edge_bounds, has_non_scaling_strokes: x_has_non_scaling_strokes, has_scaling_strokes: x_has_scaling_strokes, shape: x_shape };
        proof {
            assert(members_view(*ms).skip(start as int) =~~= obj_members(enc_define_morph_shape(t)));
        }
        Ok(t)
    }

    /// Decodes from the interchange form; succeeds exactly on well-formed
    /// encodings and then returns the encoded value.
    #[verifier::rlimit(100)]
    #[verifier::spinoff_prover]
    pub fn decode(v: &Value) -> (r: Result<Self, DecodeError>)
        ensures
            r is Ok <==> dec_ok_define_morph_shape(v@),
            r matches Ok(t) ==> v@ == enc_define_morph_shape(t),
    {
        let ms = match v {
            Value::Obj(ms) => ms,
            _ => {
                return Err(DecodeError::ExpectedObject);
            },
        };
        let t = Self::decode_members(ms, 0)?;
        proof {
            assert(members_view(*ms).skip(0) =~= members_view(*ms));
            assert(v@ == Val::Obj(members_view(*ms)));
        }
        Ok(t)
    }
}

/// Field-wise equality of two `DefineMorphShape` values (text and payloads by content).
pub open spec fn eq_define_morph_shape(a: DefineMorphShape, b: DefineMorphShape) -> bool {
    &&& a.id == b.id
    &&& eq_rect(a.bounds, b.bounds)
    &&& eq_rect(a.morph_bounds, b.morph_bounds)
    &&& (match (a.edge_bounds, b.edge_bounds) { (Option::Some(x), Option::Some(y)) => eq_rect(x, y), (Option::None, Option::None) => true, _ => false })
    &&& (match (a.morph_edge_bounds, b.morph_edge_bounds) { (Option::Some(x), Option::Some(y)) => eq_rect(x, y), (Option::None, Option::None) => true, _ => false })
    &&& a.has_non_scaling_strokes == b.has_non_scaling_strokes
    &&& a.has_scaling_strokes == b.has_scaling_strokes
    &&& eq_morph_shape(a.shape, b.shape)
}

/// Round trip: every `DefineMorphShape` encoding is well-formed and decodes back
/// only to a field-wise equal value.
#[verifier::rlimit(100)]
#[verifier::spinoff_prover]
pub proof fn lemma_define_morph_shape_round_trip(a: DefineMorphShape, b: DefineMorphShape)
    ensures
        dec_ok_define_morph_shape(enc_define_morph_shape(a)),
        enc_define_morph_shape(a) == enc_define_morph_shape(b) ==> eq_define_morph_shape(a, b),
{
    reveal_strlit("id");
    reveal_strlit("bounds");
    reveal_strlit("morph_bounds");
    reveal_strlit("edge_bounds");
    reveal_strlit("morph_edge_bounds");
    reveal_strlit("has_non_scaling_strokes");
    reveal_strlit("has_scaling_strokes");
    reveal_strlit("shape");
    assert("bounds"@.len() == 6);
    assert("edge_bounds"@.len() == 11);
    assert("has_non_scaling_strokes"@.len() == 23);
    assert("has_scaling_strokes"@.len() == 19);
    assert("id"@.len() == 2);
    assert("morph_bounds"@.len() == 12);
    assert("morph_edge_bounds"@.len() == 17);
    assert("shape"@.len() == 5);
    assert("id"@ != "bounds"@);
    assert("id"@ != "morph_bounds"@);
    assert("id"@ != "edge_bounds"@);
    assert("id"@ != "morph_edge_bounds"@);
    assert("id"@ != "has_non_scaling_strokes"@);
    assert("id"@ != "has_scaling_strokes"@);
    assert("id"@ != "shape"@);
    assert("bounds"@ != "morph_bounds"@);
    assert("bounds"@ != "edge_bounds"@);
    assert("bounds"@ != "morph_edge_bounds"@);
    assert("bounds"@ != "has_non_scaling_strokes"@);
    assert("bounds"@ != "has_scaling_strokes"@);
    assert("bounds"@ != "shape"@);
    assert("morph_bounds"@ != "edge_bounds"@);
    assert("morph_bounds"@ != "morph_edge_bounds"@);
    assert("morph_bounds"@ != "has_non_scaling_strokes"@);
    assert("morph_bounds"@ != "has_scaling_strokes"@);
    assert("morph_bounds"@ != "shape"@);
    assert("edge_bounds"@ != "morph_edge_bounds"@);
    assert("edge_bounds"@ != "has_non_scaling_strokes"@);
    assert("edge_bounds"@ != "has_scaling_strokes"@);
    assert("edge_bounds"@ != "shape"@);
    assert("morph_edge_bounds"@ != "has_non_scaling_strokes"@);
    assert("morph_edge_bounds"@ != "has_scaling_strokes"@);
    assert("morph_edge_bounds"@ != "shape"@);
    assert("has_non_scaling_strokes"@ != "has_scaling_strokes"@);
    assert("has_non_scaling_strokes"@ != "shape"@);
    assert("has_scaling_strokes"@ != "shape"@);
    lemma_rect_round_trip(a.bounds, b.bounds);
    lemma_rect_round_trip(a.bounds, a.bounds);
    lemma_rect_round_trip(b.bounds, b.bounds);
    lemma_rect_round_trip(a.morph_bounds, b.morph_bounds);
    lemma_rect_round_trip(a.morph_bounds, a.morph_bounds);
    lemma_rect_round_trip(b.morph_bounds, b.morph_bounds);
    if let (Option::Some(x), Option::Some(y)) = (a.edge_bounds, b.edge_bounds) { lemma_rect_round_trip(x, y); }
    if let Option::Some(x) = a.edge_bounds { lemma_rect_round_trip(x, x); }
    if let Option::Some(x) = b.edge_bounds { lemma_rect_round_trip(x, x); }
    if let (Option::Some(x), Option::Some(y)) = (a.morph_edge_bounds, b.morph_edge_bounds) { lemma_rect_round_trip(x, y); }
    if let Option::Some(x) = a.morph_edge_bounds { lemma_rect_round_trip(x, x); }
    if let Option::Some(x) = b.morph_edge_bounds { lemma_rect_round_trip(x, x); }
    lemma_morph_shape_round_trip(a.shape, b.shape);
    lemma_morph_shape_round_trip(a.shape, a.shape);
    lemma_morph_shape_round_trip(b.shape, b.shape);
    assert(dec_ok_define_morph_shape_fields(obj_members(enc_define_morph_shape(a))));
    if enc_define_morph_shape(a) == enc_define_morph_shape(b) {
        assert(eq_define_morph_shape(a, b));
    }
}

/// Registers a font that carries glyph outlines only.
#[derive(Clone, Debug, PartialEq, Eq)]
pub struct DefinePartialFont {
    pub id: u16,
    pub glyphs: Vec<Glyph>,
}

/// The interchange encoding of a `DefinePartialFont`.
pub open spec fn enc_define_partial_font(t: DefinePartialFont) -> Val {
    Val::Obj(seq![("id"@, Val::Int(t.id as int)), ("glyphs"@, Val::Arr(t.glyphs@.map_values(|y: Glyph| enc_glyph(y))))])
}

/// Whether `m` is exactly a well-formed `DefinePartialFont` field list.
pub open spec fn dec_ok_define_partial_font_fields(m: Seq<(Seq<char>, Val)>) -> bool {
    &&& int_field(m, 0, "id"@, 0, u16::MAX as int)
    &&& m[1].0 == "glyphs"@ && (m[1].1 is Arr && all_dec_ok_glyph(arr_items(m[1].1)))
    &&& m.len() == 2
}

/// Whether `v` is a well-formed `DefinePartialFont` encoding.
pub open spec fn dec_ok_define_partial_font(v: Val) -> bool {
    v is Obj && dec_ok_define_partial_font_fields(obj_members(v))
}

/// Every element is a well-formed `DefinePartialFont` encoding.
pub open spec fn all_dec_ok_define_partial_font(items: Seq<Val>) -> bool {
    forall|k: int| 0 <= k < items.len() ==> dec_ok_define_partial_font(#[trigger] items[k])
}

impl DefinePartialFont {
    /// Appends this record's members to `ms`.
    #[verifier::loop_isolation(false)]
    #[verifier::rlimit(100)]
    #[verifier::spinoff_prover]
    pub fn encode_members(&self, ms: &mut Vec<Member>)
        ensures
            members_view(*final(ms)) == members_view(*old(ms)) + obj_members(enc_define_partial_font(*self)),
    {
        push_int(ms, "id", self.id as i128);
        let mut arr_1: Vec<Value> = Vec::new();
        let mut j: usize = 0;
        while j < self.glyphs.len()
            invariant
                j <= self.glyphs@.len(),
                arr_1@.len() == j as int,
                forall|k: int| 0 <= k < j ==> #[trigger] val_view(arr_1@[k]) == enc_glyph(self.glyphs@[k]),
            decreases self.glyphs@.len() - j,
        {
            arr_1.push(self.glyphs[j].encode());
            j = j + 1;
        }
        proof {
            let m2 = self.glyphs@.map_values(|y: Glyph| enc_glyph(y));
            assert(elems_view(arr_1).len() == m2.len());
            assert forall|k: int| 0 <= k < m2.len() implies elems_view(arr_1)[k] == m2[k] by {
                assert(val_view(arr_1@[k]) == enc_glyph(self.glyphs@[k]));
                assert(m2[k] == enc_glyph(self.glyphs@[k]));
            }
            assert(elems_view(arr_1) =~~= m2);
        }
        push_value(ms, "glyphs", Value::Arr(arr_1));
        proof {
            assert(members_view(*ms) =~~= members_view(*old(ms)) + obj_members(enc_define_partial_font(*self)));
        }
    }

    /// Encodes to the interchange form.
    pub fn encode(&self) -> (v: Value)
        ensures
            v@ == enc_define_partial_font(*self),
    {
        let mut ms: Vec<Member> = Vec::new();
        self.encode_members(&mut ms);
        let v = Value::Obj(ms);
        proof {
            assert(members_view(ms) =~= obj_members(enc_define_partial_font(*self)));
            assert(v@ == Val::Obj(members_view(ms)));
        }
        v
    }

    /// Decodes this record's members from `ms`, starting at `start`;
    /// succeeds exactly on a well-formed field list reaching the end.
    #[verifier::loop_isolation(false)]
    #[verifier::rlimit(100)]
    #[verifier::spinoff_prover]
    pub fn decode_members(ms: &Vec<Member>, start: usize) -> (r: Result<Self, DecodeError>)
        requires
            start as int <= members_view(*ms).len(),
        ensures
            r is Ok <==> dec_ok_define_partial_font_fields(members_view(*ms).skip(start as int)),
            r matches Ok(t) ==> members_view(*ms).skip(start as int) == obj_members(enc_define_partial_font(t)),
    {
        let ghost gm = members_view(*ms).skip(start as int);
        proof {
            assert(gm.len() == members_view(*ms).len() - start);
        }
        let mut i: usize = start;
        if ms.len() <= i {
            return Err(DecodeError::BadField);
        }
        let x_id: u16 = take_int(ms, i, "id", 0, u16::MAX as i128)? as u16;
        i = i + 1;
        if ms.len() <= i {
            return Err(DecodeError::BadField);
        }
        if !key_is(ms, i, "glyphs") {
            return Err(DecodeError::BadField);
        }
        let items_1 = match &ms[i].value {
            Value::Arr(a) => a,
            _ => {
                return Err(DecodeError::BadField);
            },
        };
        proof {
            assert(members_view(*ms)[i as int].1 == Val::Arr(elems_view(*items_1)));
            assert(arr_items(gm[(i - start) as int].1) == elems_view(*items_1));
        }
        let mut out_1: Vec<Glyph> = Vec::new();
        let mut j: usize = 0;
        while j < items_1.len()
            invariant
                j <= items_1@.len(),
                out_1@.len() == j as int,
                forall|k: int| 0 <= k < j ==> #[trigger] elems_view(*items_1)[k] == enc_glyph(out_1@[k]),
                forall|k: int| 0 <= k < j ==> dec_ok_glyph(#[trigger] elems_view(*items_1)[k]),
            decreases items_1@.len() - j,
        {
            let x = match Glyph::decode(&items_1[j]) {
                Ok(x) => x,
                Err(e) => {
                    proof {
                        assert(!dec_ok_glyph(elems_view(*items_1)[j as int]));
                        assert(!all_dec_ok_glyph(elems_view(*items_1)));
                    }
                    return Err(e);
                },
            };
            out_1.push(x);
            j = j + 1;
        }
        proof {
            assert(elems_view(*items_1) =~~= out_1@.map_values(|y: Glyph| enc_glyph(y)));
            assert(all_dec_ok_glyph(elems_view(*items_1)));
        }
        let x_glyphs = out_1;
        i = i + 1;
        if i != ms.len() {
            return Err(DecodeError::BadField);
        }
        let t = DefinePartialFont { id: x_id, glyphs: x_glyphs };
        proof {
            assert(members_view(*ms).skip(start as int) =~~= obj_members(enc_define_partial_font(t)));
        }
        Ok(t)
    }

    /// Decodes from the interchange form; succeeds exactly on well-formed
    /// encodings and then returns the encoded value.
    #[verifier::rlimit(100)]
    #[verifier::spinoff_prover]
    pub fn decode(v: &Value) -> (r: Result<Self, DecodeError>)
        ensures
            r is Ok <==> dec_ok_define_partial_font(v@),
            r matches Ok(t) ==> v@ == enc_define_partial_font(t),
    {
        let ms = match v {
            Value::Obj(ms) => ms,
            _ => {
                return Err(DecodeError::ExpectedObject);
            },
        };
        let t = Self::decode_members(ms, 0)?;
        proof {
            assert(members_view(*ms).skip(0) =~= members_view(*ms));
            assert(v@ == Val::Obj(members_view(*ms)));
        }
        Ok(t)
    }
}

/// Field-wise equality of two `DefinePartialFont` values (text and payloads by content).
pub open spec fn eq_define_partial_font(a: DefinePartialFont, b: DefinePartialFont) -> bool {
    &&& a.id == b.id
    &&& (a.glyphs@.len() == b.glyphs@.len() && (forall|k: int| 0 <= k < a.glyphs@.len() ==> eq_glyph(#[trigger] a.glyphs@[k], b.glyphs@[k])))
}

/// Round trip: every `DefinePartialFont` encoding is well-formed and decodes back
/// only to a field-wise equal value.
#[verifier::rlimit(100)]
#[verifier::spinoff_prover]
pub proof fn lemma_define_partial_font_round_trip(a: DefinePartialFont, b: DefinePartialFont)
    ensures
        dec_ok_define_partial_font(enc_define_partial_font(a)),
        enc_define_partial_font(a) == enc_define_partial_font(b) ==> eq_define_partial_font(a, b),
{
    reveal_strlit("id");
    reveal_strlit("glyphs");
    {
        let ea0 = a.glyphs@.map_values(|y: Glyph| enc_glyph(y));
        assert forall|k: int| 0 <= k < ea0.len() implies dec_ok_glyph(#[trigger] ea0[k]) by {
            lemma_glyph_round_trip(a.glyphs@[k], a.glyphs@[k]);
        }
        assert(all_dec_ok_glyph(ea0));
    }
    {
        let ea = a.glyphs@.map_values(|y: Glyph| enc_glyph(y));
        let eb = b.glyphs@.map_values(|y: Glyph| enc_glyph(y));
        if ea == eb {
            assert forall|k: int| 0 <= k < a.glyphs@.len() implies eq_glyph(#[trigger] a.glyphs@[k], b.glyphs@[k]) by {
                assert(ea[k] == eb[k]);
                lemma_glyph_round_trip(a.glyphs@[k], b.glyphs@[k]);
            }
        }
    }
    assert(dec_ok_define_partial_font_fields(obj_members(enc_define_partial_font(a))));
    if enc_define_partial_font(a) == enc_define_partial_font(b) {
        assert(eq_define_partial_font(a, b));
    }
}

/// A named scene starting at a frame offset.
#[derive(Clone, Debug, PartialEq, Eq)]
pub struct Scene {
    pub offset: u32,
    pub name: String,
}

/// The interchange encoding of a `Scene`.
pub open spec fn enc_scene(t: Scene) -> Val {
    Val::Obj(seq![("offset"@, Val::Int(t.offset as int)), ("name"@, Val::Str(t.name@))])
}

/// Whether `m` is exactly a well-formed `Scene` field list.
pub open spec fn dec_ok_scene_fields(m: Seq<(Seq<char>, Val)>) -> bool {
    &&& int_field(m, 0, "offset"@, 0, u32::MAX as int)
    &&& str_field(m, 1, "name"@)
    &&& m.len() == 2
}

/// Whether `v` is a well-formed `Scene` encoding.
pub open spec fn dec_ok_scene(v: Val) -> bool {
    v is Obj && dec_ok_scene_fields(obj_members(v))
}

/// Every element is a well-formed `Scene` encoding.
pub open spec fn all_dec_ok_scene(items: Seq<Val>) -> bool {
    forall|k: int| 0 <= k < items.len() ==> dec_ok_scene(#[trigger] items[k])
}

impl Scene {
    /// Appends this record's members to `ms`.
    #[verifier::loop_isolation(false)]
    #[verifier::rlimit(100)]
    #[verifier::spinoff_prover]
    pub fn encode_members(&self, ms: &mut Vec<Member>)
        ensures
            members_view(*final(ms)) == members_view(*old(ms)) + obj_members(enc_scene(*self)),
    {
        push_int(ms, "offset", self.offset as i128);
        push_str(ms, "name", &self.name);
        proof {
            assert(members_view(*ms) =~~= members_view(*old(ms)) + obj_members(enc_scene(*self)));
        }
    }

    /// Encodes to the interchange form.
    pub fn encode(&self) -> (v: Value)
        ensures
            v@ == enc_scene(*self),
    {
        let mut ms: Vec<Member> = Vec::new();
        self.encode_members(&mut ms);
        let v = Value::Obj(ms);
        proof {
            assert(members_view(ms) =~= obj_members(enc_scene(*self)));
            assert(v@ == Val::Obj(members_view(ms)));
        }
        v
    }

    /// Decodes this record's members from `ms`, starting at `start`;
    /// succeeds exactly on a well-formed field list reaching the end.
    #[verifier::loop_isolation(false)]
    #[verifier::rlimit(100)]
    #[verifier::spinoff_prover]
    pub fn decode_members(ms: &Vec<Member>, start: usize) -> (r: Result<Self, DecodeError>)
        requires
            start as int <= members_view(*ms).len(),
        ensures
            r is Ok <==> dec_ok_scene_fields(members_view(*ms).skip(start as int)),
            r matches Ok(t) ==> members_view(*ms).skip(start as int) == obj_members(enc_scene(t)),
    {
        let ghost gm = members_view(*ms).skip(start as int);
        proof {
            assert(gm.len() == members_view(*ms).len() - start);
        }
        let mut i: usize = start;
        if ms.len() <= i {
            return Err(DecodeError::BadField);
        }
        let x_offset: u32 = take_int(ms, i, "offset", 0, u32::MAX as i128)? as u32;
        i = i + 1;
        if ms.len() <= i {
            return Err(DecodeError::BadField);
        }
        let x_name: String = take_str(ms, i, "name")?;
        i = i + 1;
        if i != ms.len() {
            return Err(DecodeError::BadField);
        }
        let t = Scene { offset: x_offset, name: x_name };
        proof {
            assert(members_view(*ms).skip(start as int) =~~= obj_members(enc_scene(t)));
        }
        Ok(t)
    }

    /// Decodes from the interchange form; succeeds exactly on well-formed
    /// encodings and then returns the encoded value.
    #[verifier::rlimit(100)]
    #[verifier::spinoff_prover]
    pub fn decode(v: &Value) -> (r: Result<Self, DecodeError>)
        ensures
            r is Ok <==> dec_ok_scene(v@),
            r matches Ok(t) ==> v@ == enc_scene(t),
    {
        let ms = match v {
            Value::Obj(ms) => ms,
            _ => {
                return Err(DecodeError::ExpectedObject);
            },
        };
        let t = Self::decode_members(ms, 0)?;
        proof {
            assert(members_view(*ms).skip(0) =~= members_view(*ms));
            assert(v@ == Val::Obj(members_view(*ms)));
        }
        Ok(t)
    }
}

/// Field-wise equality of two `Scene` values (text and payloads by content).
pub open spec fn eq_scene(a: Scene, b: Scene) -> bool {
    &&& a.offset == b.offset
    &&& a.name@ == b.name@
}

/// Round trip: every `Scene` encoding is well-formed and decodes back
/// only to a field-wise equal value.
#[verifier::rlimit(100)]
#[verifier::spinoff_prover]
pub proof fn lemma_scene_round_trip(a: Scene, b: Scene)
    ensures
        dec_ok_scene(enc_scene(a)),
        enc_scene(a) == enc_scene(b) ==> eq_scene(a, b),
{
    reveal_strlit("offset");
    reveal_strlit("name");

    assert(dec_ok_scene_fields(obj_members(enc_scene(a))));
    if enc_scene(a) == enc_scene(b) {
        assert(eq_scene(a, b));
    }
}

/// A named frame.
#[derive(Clone, Debug, PartialEq, Eq)]
pub struct Label {
    pub frame: u32,
    pub name: String,
}

/// The interchange encoding of a `Label`.
pub open spec fn enc_label(t: Label) -> Val {
    Val::Obj(seq![("frame"@, Val::Int(t.frame as int)), ("name"@, Val::Str(t.name@))])
}

/// Whether `m` is exactly a well-formed `Label` field list.
pub open spec fn dec_ok_label_fields(m: Seq<(Seq<char>, Val)>) -> bool {
    &&& int_field(m, 0, "frame"@, 0, u32::MAX as int)
    &&& str_field(m, 1, "name"@)
    &&& m.len() == 2
}

/// Whether `v` is a well-formed `Label` encoding.
pub open spec fn dec_ok_label(v: Val) -> bool {
    v is Obj && dec_ok_label_fields(obj_members(v))
}

/// Every element is a well-formed `Label` encoding.
pub open spec fn all_dec_ok_label(items: Seq<Val>) -> bool {
    forall|k: int| 0 <= k < items.len() ==> dec_ok_label(#[trigger] items[k])
}

impl Label {
    /// Appends this record's members to `ms`.
    #[verifier::loop_isolation(false)]
    #[verifier::rlimit(100)]
    #[verifier::spinoff_prover]
    pub fn encode_members(&self, ms: &mut Vec<Member>)
        ensures
            members_view(*final(ms)) == members_view(*old(ms)) + obj_members(enc_label(*self)),
    {
        push_int(ms, "frame", self.frame as i128);
        push_str(ms, "name", &self.name);
        proof {
            assert(members_view(*ms) =~~= members_view(*old(ms)) + obj_members(enc_label(*self)));
        }
    }

    /// Encodes to the interchange form.
    pub fn encode(&self) -> (v: Value)
        ensures
            v@ == enc_label(*self),
    {
        let mut ms: Vec<Member> = Vec::new();
        self.encode_members(&mut ms);
        let v = Value::Obj(ms);
        proof {
            assert(members_view(ms) =~= obj_members(enc_label(*self)));
            assert(v@ == Val::Obj(members_view(ms)));
        }
        v
    }

    /// Decodes this record's members from `ms`, starting at `start`;
    /// succeeds exactly on a well-formed field list reaching the end.
    #[verifier::loop_isolation(false)]
    #[verifier::rlimit(100)]
    #[verifier::spinoff_prover]
    pub fn decode_members(ms: &Vec<Member>, start: usize) -> (r: Result<Self, DecodeError>)
        requires
            start as int <= members_view(*ms).len(),
        ensures
            r is Ok <==> dec_ok_label_fields(members_view(*ms).skip(start as int)),
            r matches Ok(t) ==> members_view(*ms).skip(start as int) == obj_members(enc_label(t)),
    {
        let ghost gm = members_view(*ms).skip(start as int);
        proof {
            assert(gm.len() == members_view(*ms).len() - start);
        }
        let mut i: usize = start;
        if ms.len() <= i {
            return Err(DecodeError::BadField);
        }
        let x_frame: u32 = take_int(ms, i, "frame", 0, u32::MAX as i128)? as u32;
        i = i + 1;
        if ms.len() <= i {
            return Err(DecodeError::BadField);
        }
        let x_name: String = take_str(ms, i, "name")?;
        i = i + 1;
        if i != ms.len() {
            return Err(DecodeError::BadField);
        }
        let t = Label { frame: x_frame, name: x_name };
        proof {
            assert(members_view(*ms).skip(start as int) =~~= obj_members(enc_label(t)));
        }
        Ok(t)
    }

    /// Decodes from the interchange form; succeeds exactly on well-formed
    /// encodings and then returns the encoded value.
    #[verifier::rlimit(100)]
    #[verifier::spinoff_prover]
    pub fn decode(v: &Value) -> (r: Result<Self, DecodeError>)
        ensures
            r is Ok <==> dec_ok_label(v@),
            r matches Ok(t) ==> v@ == enc_label(t),
    {
        let ms = match v {
            Value::Obj(ms) => ms,
            _ => {
                return Err(DecodeError::ExpectedObject);
            },
        };
        let t = Self::decode_members(ms, 0)?;
        proof {
            assert(members_view(*ms).skip(0) =~= members_view(*ms));
            assert(v@ == Val::Obj(members_view(*ms)));
        }
        Ok(t)
    }
}

/// Field-wise equality of two `Label` values (text and payloads by content).
pub open spec fn eq_label(a: Label, b: Label) -> bool {
    &&& a.frame == b.frame
    &&& a.name@ == b.name@
}

/// Round trip: every `Label` encoding is well-formed and decodes back
/// only to a field-wise equal value.
#[verifier::rlimit(100)]
#[verifier::spinoff_prover]
pub proof fn lemma_label_round_trip(a: Label, b: Label)
    ensures
        dec_ok_label(enc_label(a)),
        enc_label(a) == enc_label(b) ==> eq_label(a, b),
{
    reveal_strlit("frame");
    reveal_strlit("name");

    assert(dec_ok_label_fields(obj_members(enc_label(a))));
    if enc_label(a) == enc_label(b) {
        assert(eq_label(a, b));
    }
}

/// The scene starts and frame labels of the main timeline.
#[derive(Clone, Debug, PartialEq, Eq)]
pub struct DefineSceneAndFrameLabelData {
    pub scenes: Vec<Scene>,
    pub labels: Vec<Label>,
}

/// The interchange encoding of a `DefineSceneAndFrameLabelData`.
pub open spec fn enc_define_scene_and_frame_label_data(t: DefineSceneAndFrameLabelData) -> Val {
    Val::Obj(seq![("scenes"@, Val::Arr(t.scenes@.map_values(|y: Scene| enc_scene(y)))), ("labels"@, Val::Arr(t.labels@.map_values(|y: Label| enc_label(y))))])
}

/// Whether `m` is exactly a well-formed `DefineSceneAndFrameLabelData` field list.
pub open spec fn dec_ok_define_scene_and_frame_label_data_fields(m: Seq<(Seq<char>, Val)>) -> bool {
    &&& m[0].0 == "scenes"@ && (m[0].1 is Arr && all_dec_ok_scene(arr_items(m[0].1)))
    &&& m[1].0 == "labels"@ && (m[1].1 is Arr && all_dec_ok_label(arr_items(m[1].1)))
    &&& m.len() == 2
}

/// Whether `v` is a well-formed `DefineSceneAndFrameLabelData` encoding.
pub open spec fn dec_ok_define_scene_and_frame_label_data(v: Val) -> bool {
    v is Obj && dec_ok_define_scene_and_frame_label_data_fields(obj_members(v))
}

/// Every element is a well-formed `DefineSceneAndFrameLabelData` encoding.
pub open spec fn all_dec_ok_define_scene_and_frame_label_data(items: Seq<Val>) -> bool {
    forall|k: int| 0 <= k < items.len() ==> dec_ok_define_scene_and_frame_label_data(#[trigger] items[k])
}

impl DefineSceneAndFrameLabelData {
    /// Appends this record's members to `ms`.
    #[verifier::loop_isolation(false)]
    #[verifier::rlimit(100)]
    #[verifier::spinoff_prover]
    pub fn encode_members(&self, ms: &mut Vec<Member>)
        ensures
            members_view(*final(ms)) == members_view(*old(ms)) + obj_members(enc_define_scene_and_frame_label_data(*self)),
    {
        let mut arr_0: Vec<Value> = Vec::new();
        let mut j: usize = 0;
        while j < self.scenes.len()
            invariant
                j <= self.scenes@.len(),
                arr_0@.len() == j as int,
                forall|k: int| 0 <= k < j ==> #[trigger] val_view(arr_0@[k]) == enc_scene(self.scenes@[k]),
            decreases self.scenes@.len() - j,
        {
            arr_0.push(self.scenes[j].encode());
            j = j + 1;
        }
        proof {
            let m2 = self.scenes@.map_values(|y: Scene| enc_scene(y));
            assert(elems_view(arr_0).len() == m2.len());
            assert forall|k: int| 0 <= k < m2.len() implies elems_view(arr_0)[k] == m2[k] by {
                assert(val_view(arr_0@[k]) == enc_scene(self.scenes@[k]));
                assert(m2[k] == enc_scene(self.scenes@[k]));
            }
            assert(elems_view(arr_0) =~~= m2);
        }
        push_value(ms, "scenes", Value::Arr(arr_0));
        let mut arr_1: Vec<Value> = Vec::new();
        let mut j: usize = 0;
        while j < self.labels.len()
            invariant
                j <= self.labels@.len(),
                arr_1@.len() == j as int,
                forall|k: int| 0 <= k < j ==> #[trigger] val_view(arr_1@[k]) == enc_label(self.labels@[k]),
            decreases self.labels@.len() - j,
        {
            arr_1.push(self.labels[j].encode());
            j = j + 1;
        }
        proof {
            let m2 = self.labels@.map_values(|y: Label| enc_label(y));
            assert(elems_view(arr_1).len() == m2.len());
            assert forall|k: int| 0 <= k < m2.len() implies elems_view(arr_1)[k] == m2[k] by {
                assert(val_view(arr_1@[k]) == enc_label(self.labels@[k]));
                assert(m2[k] == enc_label(self.labels@[k]));
            }
            assert(elems_view(arr_1) =~~= m2);
        }
        push_value(ms, "labels", Value::Arr(arr_1));
        proof {
            assert(members_view(*ms) =~~= members_view(*old(ms)) + obj_members(enc_define_scene_and_frame_label_data(*self)));
        }
    }

    /// Encodes to the interchange form.
    pub fn encode(&self) -> (v: Value)
        ensures
            v@ == enc_define_scene_and_frame_label_data(*self),
    {
        let mut ms: Vec<Member> = Vec::new();
        self.encode_members(&mut ms);
        let v = Value::Obj(ms);
        proof {
            assert(members_view(ms) =~= obj_members(enc_define_scene_and_frame_label_data(*self)));
            assert(v@ == Val::Obj(members_view(ms)));
        }
        v
    }

    /// Decodes this record's members from `ms`, starting at `start`;
    /// succeeds exactly on a well-formed field list reaching the end.
    #[verifier::loop_isolation(false)]
    #[verifier::rlimit(100)]
    #[verifier::spinoff_prover]
    pub fn decode_members(ms: &Vec<Member>, start: usize) -> (r: Result<Self, DecodeError>)
        requires
            start as int <= members_view(*ms).len(),
        ensures
            r is Ok <==> dec_ok_define_scene_and_frame_label_data_fields(members_view(*ms).skip(start as int)),
            r matches Ok(t) ==> members_view(*ms).skip(start as int) == obj_members(enc_define_scene_and_frame_label_data(t)),
    {
        let ghost gm = members_view(*ms).skip(start as int);
        proof {
            assert(gm.len() == members_view(*ms).len() - start);
        }
        let mut i: usize = start;
        if ms.len() <= i {
            return Err(DecodeError::BadField);
        }
        if !key_is(ms, i, "scenes") {
            return Err(DecodeError::BadField);
        }
        let items_0 = match &ms[i].value {
            Value::Arr(a) => a,
            _ => {
                return Err(DecodeError::BadField);
            },
        };
        proof {
            assert(members_view(*ms)[i as int].1 == Val::Arr(elems_view(*items_0)));
            assert(arr_items(gm[(i - start) as int].1) == elems_view(*items_0));
        }
        let mut out_0: Vec<Scene> = Vec::new();
        let mut j: usize = 0;
        while j < items_0.len()
            invariant
                j <= items_0@.len(),
                out_0@.len() == j as int,
                forall|k: int| 0 <= k < j ==> #[trigger] elems_view(*items_0)[k] == enc_scene(out_0@[k]),
                forall|k: int| 0 <= k < j ==> dec_ok_scene(#[trigger] elems_view(*items_0)[k]),
            decreases items_0@.len() - j,
        {
            let x = match Scene::decode(&items_0[j]) {
                Ok(x) => x,
                Err(e) => {
                    proof {
                        assert(!dec_ok_scene(elems_view(*items_0)[j as int]));
                        assert(!all_dec_ok_scene(elems_view(*items_0)));
                    }
                    return Err(e);
                },
            };
            out_0.push(x);
            j = j + 1;
        }
        proof {
            assert(elems_view(*items_0) =~~= out_0@.map_values(|y: Scene| enc_scene(y)));
            assert(all_dec_ok_scene(elems_view(*items_0)));
        }
        let x_scenes = out_0;
        i = i + 1;
        if ms.len() <= i {
            return Err(DecodeError::BadField);
        }
        if !key_is(ms, i, "labels") {
            return Err(DecodeError::BadField);
        }
        let items_1 = match &ms[i].value {
            Value::Arr(a) => a,
            _ => {
                return Err(DecodeError::BadField);
            },
        };
        proof {
            assert(members_view(*ms)[i as int].1 == Val::Arr(elems_view(*items_1)));
            assert(arr_items(gm[(i - start) as int].1) == elems_view(*items_1));
        }
        let mut out_1: Vec<Label> = Vec::new();
        let mut j: usize = 0;
        while j < items_1.len()
            invariant
                j <= items_1@.len(),
                out_1@.len() == j as int,
                forall|k: int| 0 <= k < j ==> #[trigger] elems_view(*items_1)[k] == enc_label(out_1@[k]),
                forall|k: int| 0 <= k < j ==> dec_ok_label(#[trigger] elems_view(*items_1)[k]),
            decreases items_1@.len() - j,
        {
            let x = match Label::decode(&items_1[j]) {
                Ok(x) => x,
                Err(e) => {
                    proof {
                        assert(!dec_ok_label(elems_view(*items_1)[j as int]));
                        assert(!all_dec_ok_label(elems_view(*items_1)));
                    }
                    return Err(e);
                },
            };
            out_1.push(x);
            j = j + 1;
        }
        proof {
            assert(elems_view(*items_1) =~~= out_1@.map_values(|y: Label| enc_label(y)));
            assert(all_dec_ok_label(elems_view(*items_1)));
        }
        let x_labels = out_1;
        i = i + 1;
        if i != ms.len() {
            return Err(DecodeError::BadField);
        }
        let t = DefineSceneAndFrameLabelData { scenes: x_scenes, labels: x_labels };
        proof {
            assert(members_view(*ms).skip(start as int) =~~= obj_members(enc_define_scene_and_frame_label_data(t)));
        }
        Ok(t)
    }

    /// Decodes from the interchange form; succeeds exactly on well-formed
    /// encodings and then returns the encoded value.
    #[verifier::rlimit(100)]
    #[verifier::spinoff_prover]
    pub fn decode(v: &Value) -> (r: Result<Self, DecodeError>)
        ensures
            r is Ok <==> dec_ok_define_scene_and_frame_label_data(v@),
            r matches Ok(t) ==> v@ == enc_define_scene_and_frame_label_data(t),
    {
        let ms = match v {
            Value::Obj(ms) => ms,
            _ => {
                return Err(DecodeError::ExpectedObject);
            },
        };
        let t = Self::decode_members(ms, 0)?;
        proof {
            assert(members_view(*ms).skip(0) =~= members_view(*ms));
            assert(v@ == Val::Obj(members_view(*ms)));
        }
        Ok(t)
    }
}

/// Field-wise equality of two `DefineSceneAndFrameLabelData` values (text and payloads by content).
pub open spec fn eq_define_scene_and_frame_label_data(a: DefineSceneAndFrameLabelData, b: DefineSceneAndFrameLabelData) -> bool {
    &&& (a.scenes@.len() == b.scenes@.len() && (forall|k: int| 0 <= k < a.scenes@.len() ==> eq_scene(#[trigger] a.scenes@[k], b.scenes@[k])))
    &&& (a.labels@.len() == b.labels@.len() && (forall|k: int| 0 <= k < a.labels@.len() ==> eq_label(#[trigger] a.labels@[k], b.labels@[k])))
}

/// Registers a vector shape.
#[derive(Clone, Debug, PartialEq, Eq)]
pub struct DefineShape {
    pub id: u16,
    pub bounds: Rect,
    pub edge_bounds: Option<Rect>,
    pub has_fill_winding: bool,
    pub has_non_scaling_strokes: bool,
    pub has_scaling_strokes: bool,
    pub shape: Shape,
}

/// The interchange encoding of a `DefineShape`.
pub open spec fn enc_define_shape(t: DefineShape) -> Val {
    Val::Obj(seq![("id"@, Val::Int(t.id as int)), ("bounds"@, enc_rect(t.bounds))] + maybe("edge_bounds"@, match t.edge_bounds { Option::Some(x) => Option::Some(enc_rect(x)), Option::None => Option::None }) + seq![("has_fill_winding"@, Val::Bool(t.has_fill_winding)), ("has_non_scaling_strokes"@, Val::Bool(t.has_non_scaling_strokes)), ("has_scaling_strokes"@, Val::Bool(t.has_scaling_strokes)), ("shape"@, enc_shape(t.shape))])
}

/// Whether `m` is exactly a well-formed `DefineShape` field list.
pub open spec fn dec_ok_define_shape_fields(m: Seq<(Seq<char>, Val)>) -> bool {
    let has_edge_bounds = m.len() > 2 && m[2].0 == "edge_bounds"@;
    let j1 = if has_edge_bounds { 2 + 1int } else { 2 };
    &&& int_field(m, 0, "id"@, 0, u16::MAX as int)
    &&& m[1].0 == "bounds"@ && dec_ok_rect(m[1].1)
    &&& has_edge_bounds ==> (dec_ok_rect(m[2].1))
    &&& bool_field(m, j1, "has_fill_winding"@)
    &&& bool_field(m, j1 + 1, "has_non_scaling_strokes"@)
    &&& bool_field(m, j1 + 2, "has_scaling_strokes"@)
    &&& m[j1 + 3].0 == "shape"@ && dec_ok_shape(m[j1 + 3].1)
    &&& m.len() == j1 + 4
}

/// Whether `v` is a well-formed `DefineShape` encoding.
pub open spec fn dec_ok_define_shape(v: Val) -> bool {
    v is Obj && dec_ok_define_shape_fields(obj_members(v))
}

/// Every element is a well-formed `DefineShape` encoding.
pub open spec fn all_dec_ok_define_shape(items: Seq<Val>) -> bool {
    forall|k: int| 0 <= k < items.len() ==> dec_ok_define_shape(#[trigger] items[k])
}

impl DefineShape {
    /// Appends this record's members to `ms`.
    #[verifier::loop_isolation(false)]
    #[verifier::rlimit(100)]
    #[verifier::spinoff_prover]
    pub fn encode_members(&self, ms: &mut Vec<Member>)
        ensures
            members_view(*final(ms)) == members_view(*old(ms)) + obj_members(enc_define_shape(*self)),
    {
        push_int(ms, "id", self.id as i128);
        push_value(ms, "bounds", self.bounds.encode());
        if let Some(x) = &self.edge_bounds {
            push_value(ms, "edge_bounds", (*x).encode());
        }
        push_bool(ms, "has_fill_winding", self.has_fill_winding);
        push_bool(ms, "has_non_scaling_strokes", self.has_non_scaling_strokes);
        push_bool(ms, "has_scaling_strokes", self.has_scaling_strokes);
        push_value(ms, "shape", self.shape.encode());
        proof {
            assert(members_view(*ms) =~~= members_view(*old(ms)) + obj_members(enc_define_shape(*self)));
        }
    }

    /// Encodes to the interchange form.
    pub fn encode(&self) -> (v: Value)
        ensures
            v@ == enc_define_shape(*self),
    {
        let mut ms: Vec<Member> = Vec::new();
        self.encode_members(&mut ms);
        let v = Value::Obj(ms);
        proof {
            assert(members_view(ms) =~= obj_members(enc_define_shape(*self)));
            assert(v@ == Val::Obj(members_view(ms)));
        }
        v
    }

    /// Decodes this record's members from `ms`, starting at `start`;
    /// succeeds exactly on a well-formed field list reaching the end.
    #[verifier::loop_isolation(false)]
    #[verifier::rlimit(100)]
    #[verifier::spinoff_prover]
    pub fn decode_members(ms: &Vec<Member>, start: usize) -> (r: Result<Self, DecodeError>)
        requires
            start as int <= members_view(*ms).len(),
        ensures
            r is Ok <==> dec_ok_define_shape_fields(members_view(*ms).skip(start as int)),
            r matches Ok(t) ==> members_view(*ms).skip(start as int) == obj_members(enc_define_shape(t)),
    {
        let ghost gm = members_view(*ms).skip(start as int);
        proof {
            assert(gm.len() == members_view(*ms).len() - start);
        }
        let mut i: usize = start;
        if ms.len() <= i {
            return Err(DecodeError::BadField);
        }
        let x_id: u16 = take_int(ms, i, "id", 0, u16::MAX as i128)? as u16;
        i = i + 1;
        if ms.len() <= i {
            return Err(DecodeError::BadField);
        }
        if !key_is(ms, i, "bounds") {
            return Err(DecodeError::BadField);
        }
        let x_bounds = Rect::decode(&ms[i].value)?;
        i = i + 1;
        let x_edge_bounds: Option<Rect>;
        if i < ms.len() && key_is(ms, i, "edge_bounds") {
            if ms.len() <= i {
                return Err(DecodeError::BadField);
            }
            if !key_is(ms, i, "edge_bounds") {
                return Err(DecodeError::BadField);
            }
            let inner_edge_bounds = Rect::decode(&ms[i].value)?;
            i = i + 1;
            x_edge_bounds = Some(inner_edge_bounds);
        } else {
            x_edge_bounds = None;
        }
        if ms.len() <= i {
            return Err(DecodeError::BadField);
        }
        let x_has_fill_winding: bool = take_bool(ms, i, "has_fill_winding")?;
        i = i + 1;
        if ms.len() <= i {
            return Err(DecodeError::BadField);
        }
        let x_has_non_scaling_strokes: bool = take_bool(ms, i, "has_non_scaling_strokes")?;
        i = i + 1;
        if ms.len() <= i {
            return Err(DecodeError::BadField);
        }
        let x_has_scaling_strokes: bool = take_bool(ms, i, "has_scaling_strokes")?;
        i = i + 1;
        if ms.len() <= i {
            return Err(DecodeError::BadField);
        }
        if !key_is(ms, i, "shape") {
            return Err(DecodeError::BadField);
        }
        let x_shape = Shape::decode(&ms[i].value)?;
        i = i + 1;
        if i != ms.len() {
            return Err(DecodeError::BadField);
        }
        let t = DefineShape { id: x_id, bounds: x_bounds, edge_bounds: x_edge_bounds, has_fill_winding: x_has_fill_winding, has_non_scaling_strokes: x_has_non_scaling_strokes, has_scaling_strokes: x_has_scaling_strokes, shape: x_shape };
        proof {
            assert(members_view(*ms).skip(start as int) =~~= obj_members(enc_define_shape(t)));
        }
        Ok(t)
    }

    /// Decodes from the interchange form; succeeds exactly on well-formed
    /// encodings and then returns the encoded value.
    #[verifier::rlimit(100)]
    #[verifier::spinoff_prover]
    pub fn decode(v: &Value) -> (r: Result<Self, DecodeError>)
        ensures
            r is Ok <==> dec_ok_define_shape(v@),
            r matches Ok(t) ==> v@ == enc_define_shape(t),
    {
        let ms = match v {
            Value::Obj(ms) => ms,
            _ => {
                return Err(DecodeError::ExpectedObject);
            },
        };
        let t = Self::decode_members(ms, 0)?;
        proof {
            assert(members_view(*ms).skip(0) =~= members_view(*ms));
            assert(v@ == Val::Obj(members_view(*ms)));
        }
        Ok(t)
    }
}

/// Field-wise equality of two `DefineShape` values (text and payloads by content).
pub open spec fn eq_define_shape(a: DefineShape, b: DefineShape) -> bool {
    &&& a.id == b.id
    &&& eq_rect(a.bounds, b.bounds)
    &&& (match (a.edge_bounds, b.edge_bounds) { (Option::Some(x), Option::Some(y)) => eq_rect(x, y), (Option::None, Option::None) => true, _ => false })
    &&& a.has_fill_winding == b.has_fill_winding
    &&& a.has_non_scaling_strokes == b.has_non_scaling_strokes
    &&& a.has_scaling_strokes == b.has_scaling_strokes
    &&& eq_shape(a.shape, b.shape)
}

/// Round trip: every `DefineShape` encoding is well-formed and decodes back
/// only to a field-wise equal value.
#[verifier::rlimit(100)]
#[verifier::spinoff_prover]
pub proof fn lemma_define_shape_round_trip(a: DefineShape, b: DefineShape)
    ensures
        dec_ok_define_shape(enc_define_shape(a)),
        enc_define_shape(a) == enc_define_shape(b) ==> eq_define_shape(a, b),
{
    reveal_strlit("id");
    reveal_strlit("bounds");
    reveal_strlit("edge_bounds");
    reveal_strlit("has_fill_winding");
    reveal_strlit("has_non_scaling_strokes");
    reveal_strlit("has_scaling_strokes");
    reveal_strlit("shape");
    assert("bounds"@.len() == 6);
    assert("edge_bounds"@.len() == 11);
    assert("has_fill_winding"@.len() == 16);
    assert("has_non_scaling_strokes"@.len() == 23);
    assert("has_scaling_strokes"@.len() == 19);
    assert("id"@.len() == 2);
    assert("shape"@.len() == 5);
    assert("id"@ != "bounds"@);
    assert("id"@ != "edge_bounds"@);
    assert("id"@ != "has_fill_winding"@);
    assert("id"@ != "has_non_scaling_strokes"@);
    assert("id"@ != "has_scaling_strokes"@);
    assert("id"@ != "shape"@);
    assert("bounds"@ != "edge_bounds"@);
    assert("bounds"@ != "has_fill_winding"@);
    assert("bounds"@ != "has_non_scaling_strokes"@);
    assert("bounds"@ != "has_scaling_strokes"@);
    assert("bounds"@ != "shape"@);
    assert("edge_bounds"@ != "has_fill_winding"@);
    assert("edge_bounds"@ != "has_non_scaling_strokes"@);
    assert("edge_bounds"@ != "has_scaling_strokes"@);
    assert("edge_bounds"@ != "shape"@);
    assert("has_fill_winding"@ != "has_non_scaling_strokes"@);
    assert("has_fill_winding"@ != "has_scaling_strokes"@);
    assert("has_fill_winding"@ != "shape"@);
    assert("has_non_scaling_strokes"@ != "has_scaling_strokes"@);
    assert("has_non_scaling_strokes"@ != "shape"@);
    assert("has_scaling_strokes"@ != "shape"@);
    lemma_rect_round_trip(a.bounds, b.bounds);
    lemma_rect_round_trip(a.bounds, a.bounds);
    lemma_rect_round_trip(b.bounds, b.bounds);
    if let (Option::Some(x), Option::Some(y)) = (a.edge_bounds, b.edge_bounds) { lemma_rect_round_trip(x, y); }
    if let Option::Some(x) = a.edge_bounds { lemma_rect_round_trip(x, x); }
    if let Option::Some(x) = b.edge_bounds { lemma_rect_round_trip(x, x); }
    lemma_shape_round_trip(a.shape, b.shape);
    lemma_shape_round_trip(a.shape, a.shape);
    lemma_shape_round_trip(b.shape, b.shape);
    assert(dec_ok_define_shape_fields(obj_members(enc_define_shape(a))));
    if enc_define_shape(a) == enc_define_shape(b) {
        assert(eq_define_shape(a, b));
    }
}

/// Registers a sound; the sample data stays in the coding given by
/// `format`.
#[derive(Clone, Debug, PartialEq, Eq)]
pub struct DefineSound {
    pub id: u16,
    pub format: AudioCodingFormat,
    pub sound_rate: SoundRate,
    pub sound_size: SoundSize,
    pub sound_type: SoundType,
    pub sample_count: u32,
    pub data: Vec<u8>,
}

/// The interchange encoding of a `DefineSound`.
pub open spec fn enc_define_sound(t: DefineSound) -> Val {
    Val::Obj(seq![("id"@, Val::Int(t.id as int)), ("format"@, enc_audio_coding_format(t.format)), ("sound_rate"@, enc_sound_rate(t.sound_rate)), ("sound_size"@, enc_sound_size(t.sound_size)), ("sound_type"@, enc_sound_type(t.sound_type)), ("sample_count"@, Val::Int(t.sample_count as int)), ("data"@, Val::Str(hex_of(t.data@)))])
}

/// Whether `m` is exactly a well-formed `DefineSound` field list.
pub open spec fn dec_ok_define_sound_fields(m: Seq<(Seq<char>, Val)>) -> bool {
    &&& int_field(m, 0, "id"@, 0, u16::MAX as int)
    &&& m[1].0 == "format"@ && dec_ok_audio_coding_format(m[1].1)
    &&& m[2].0 == "sound_rate"@ && dec_ok_sound_rate(m[2].1)
    &&& m[3].0 == "sound_size"@ && dec_ok_sound_size(m[3].1)
    &&& m[4].0 == "sound_type"@ && dec_ok_sound_type(m[4].1)
    &&& int_field(m, 5, "sample_count"@, 0, u32::MAX as int)
    &&& str_field(m, 6, "data"@) && is_hex_seq(str_at(m, 6))
    &&& m.len() == 7
}

/// Whether `v` is a well-formed `DefineSound` encoding.
pub open spec fn dec_ok_define_sound(v: Val) -> bool {
    v is Obj && dec_ok_define_sound_fields(obj_members(v))
}

/// Every element is a well-formed `DefineSound` encoding.
pub open spec fn all_dec_ok_define_sound(items: Seq<Val>) -> bool {
    forall|k: int| 0 <= k < items.len() ==> dec_ok_define_sound(#[trigger] items[k])
}

impl DefineSound {
    /// Appends this record's members to `ms`.
    #[verifier::loop_isolation(false)]
    #[verifier::rlimit(100)]
    #[verifier::spinoff_prover]
    pub fn encode_members(&self, ms: &mut Vec<Member>)
        ensures
            members_view(*final(ms)) == members_view(*old(ms)) + obj_members(enc_define_sound(*self)),
    {
        push_int(ms, "id", self.id as i128);
        push_value(ms, "format", self.format.encode());
        push_value(ms, "sound_rate", self.sound_rate.encode());
        push_value(ms, "sound_size", self.sound_size.encode());
        push_value(ms, "sound_type", self.sound_type.encode());
        push_int(ms, "sample_count", self.sample_count as i128);
        let hx_6 = hex_encode(&self.data);
        push_str(ms, "data", &hx_6);
        proof {
            assert(members_view(*ms) =~~= members_view(*old(ms)) + obj_members(enc_define_sound(*self)));
        }
    }

    /// Encodes to the interchange form.
    pub fn encode(&self) -> (v: Value)
        ensures
            v@ == enc_define_sound(*self),
    {
        let mut ms: Vec<Member> = Vec::new();
        self.encode_members(&mut ms);
        let v = Value::Obj(ms);
        proof {
            assert(members_view(ms) =~= obj_members(enc_define_sound(*self)));
            assert(v@ == Val::Obj(members_view(ms)));
        }
        v
    }

    /// Decodes this record's members from `ms`, starting at `start`;
    /// succeeds exactly on a well-formed field list reaching the end.
    #[verifier::loop_isolation(false)]
    #[verifier::rlimit(100)]
    #[verifier::spinoff_prover]
    pub fn decode_members(ms: &Vec<Member>, start: usize) -> (r: Result<Self, DecodeError>)
        requires
            start as int <= members_view(*ms).len(),
        ensures
            r is Ok <==> dec_ok_define_sound_fields(members_view(*ms).skip(start as int)),
            r matches Ok(t) ==> members_view(*ms).skip(start as int) == obj_members(enc_define_sound(t)),
    {
        let ghost gm = members_view(*ms).skip(start as int);
        proof {
            assert(gm.len() == members_view(*ms).len() - start);
        }
        let mut i: usize = start;
        if ms.len() <= i {
            return Err(DecodeError::BadField);
        }
        let x_id: u16 = take_int(ms, i, "id", 0, u16::MAX as i128)? as u16;
        i = i + 1;
        if ms.len() <= i {
            return Err(DecodeError::BadField);
        }
        if !key_is(ms, i, "format") {
            return Err(DecodeError::BadField);
        }
        let x_format = AudioCodingFormat::decode(&ms[i].value)?;
        i = i + 1;
        if ms.len() <= i {
            return Err(DecodeError::BadField);
        }
        if !key_is(ms, i, "sound_rate") {
            return Err(DecodeError::BadField);
        }
        let x_sound_rate = SoundRate::decode(&ms[i].value)?;
        i = i + 1;
        if ms.len() <= i {
            return Err(DecodeError::BadField);
        }
        if !key_is(ms, i, "sound_size") {
            return Err(DecodeError::BadField);
        }
        let x_sound_size = SoundSize::decode(&ms[i].value)?;
        i = i + 1;
        if ms.len() <= i {
            return Err(DecodeError::BadField);
        }
        if !key_is(ms, i, "sound_type") {
            return Err(DecodeError::BadField);
        }
        let x_sound_type = SoundType::decode(&ms[i].value)?;
        i = i + 1;
        if ms.len() <= i {
            return Err(DecodeError::BadField);
        }
        let x_sample_count: u32 = take_int(ms, i, "sample_count", 0, u32::MAX as i128)? as u32;
        i = i + 1;
        if ms.len() <= i {
            return Err(DecodeError::BadField);
        }
        let s_6 = take_str(ms, i, "data")?;
        let x_data: Vec<u8> = hex_decode(s_6.as_str())?;
        i = i + 1;
        if i != ms.len() {
            return Err(DecodeError::BadField);
        }
        let t = DefineSound { id: x_id, format: x_format, sound_rate: x_sound_rate, sound_size: x_sound_size, sound_type: x_sound_type, sample_count: x_sample_count, data: x_data };
        proof {
            assert(members_view(*ms).skip(start as int) =~~= obj_members(enc_define_sound(t)));
        }
        Ok(t)
    }

    /// Decodes from the interchange form; succeeds exactly on well-formed
    /// encodings and then returns the encoded value.
    #[verifier::rlimit(100)]
    #[verifier::spinoff_prover]
    pub fn decode(v: &Value) -> (r: Result<Self, DecodeError>)
        ensures
            r is Ok <==> dec_ok_define_sound(v@),
            r matches Ok(t) ==> v@ == enc_define_sound(t),
    {
        let ms = match v {
            Value::Obj(ms) => ms,
            _ => {
                return Err(DecodeError::ExpectedObject);
            },
        };
        let t = Self::decode_members(ms, 0)?;
        proof {
            assert(members_view(*ms).skip(0) =~= members_view(*ms));
            assert(v@ == Val::Obj(members_view(*ms)));
        }
        Ok(t)
    }
}

/// Field-wise equality of two `DefineSound` values (text and payloads by content).
pub open spec fn eq_define_sound(a: DefineSound, b: DefineSound) -> bool {
    &&& a.id == b.id
    &&& eq_audio_coding_format(a.format, b.format)
    &&& eq_sound_rate(a.sound_rate, b.sound_rate)
    &&& eq_sound_size(a.sound_size, b.sound_size)
    &&& eq_sound_type(a.sound_type, b.sound_type)
    &&& a.sample_count == b.sample_count
    &&& a.data@ == b.data@
}

/// Round trip: every `DefineSound` encoding is well-formed and decodes back
/// only to a field-wise equal value.
#[verifier::rlimit(100)]
#[verifier::spinoff_prover]
pub proof fn lemma_define_sound_round_trip(a: DefineSound, b: DefineSound)
    ensures
        dec_ok_define_sound(enc_define_sound(a)),
        enc_define_sound(a) == enc_define_sound(b) ==> eq_define_sound(a, b),
{
    reveal_strlit("id");
    reveal_strlit("format");
    reveal_strlit("sound_rate");
    reveal_strlit("sound_size");
    reveal_strlit("sound_type");
    reveal_strlit("sample_count");
    reveal_strlit("data");
    lemma_audio_coding_format_round_trip(a.format, b.format);
    lemma_audio_coding_format_round_trip(a.format, a.format);
    lemma_audio_coding_format_round_trip(b.format, b.format);
    lemma_sound_rate_round_trip(a.sound_rate, b.sound_rate);
    lemma_sound_rate_round_trip(a.sound_rate, a.sound_rate);
    lemma_sound_rate_round_trip(b.sound_rate, b.sound_rate);
    lemma_sound_size_round_trip(a.sound_size, b.sound_size);
    lemma_sound_size_round_trip(a.sound_size, a.sound_size);
    lemma_sound_size_round_trip(b.sound_size, b.sound_size);
    lemma_sound_type_round_trip(a.sound_type, b.sound_type);
    lemma_sound_type_round_trip(a.sound_type, a.sound_type);
    lemma_sound_type_round_trip(b.sound_type, b.sound_type);
    crate::hex::lemma_hex_round_trip(a.data@);
    crate::hex::lemma_hex_round_trip(b.data@);
    assert(dec_ok_define_sound_fields(obj_members(enc_define_sound(a))));
    if enc_define_sound(a) == enc_define_sound(b) {
        assert(eq_define_sound(a, b));
    }
}

/// Registers a static text block.
#[derive(Clone, Debug, PartialEq, Eq)]
pub struct DefineText {
    pub id: u16,
    pub bounds: Rect,
    pub matrix: Matrix,
    pub records: Vec<TextRecord>,
}

/// The interchange encoding of a `DefineText`.
pub open spec fn enc_define_text(t: DefineText) -> Val {
    Val::Obj(seq![("id"@, Val::Int(t.id as int)), ("bounds"@, enc_rect(t.bounds)), ("matrix"@, enc_matrix(t.matrix)), ("records"@, Val::Arr(t.records@.map_values(|y: TextRecord| enc_text_record(y))))])
}

/// Whether `m` is exactly a well-formed `DefineText` field list.
pub open spec fn dec_ok_define_text_fields(m: Seq<(Seq<char>, Val)>) -> bool {
    &&& int_field(m, 0, "id"@, 0, u16::MAX as int)
    &&& m[1].0 == "bounds"@ && dec_ok_rect(m[1].1)
    &&& m[2].0 == "matrix"@ && dec_ok_matrix(m[2].1)
    &&& m[3].0 == "records"@ && (m[3].1 is Arr && all_dec_ok_text_record(arr_items(m[3].1)))
    &&& m.len() == 4
}

/// Whether `v` is a well-formed `DefineText` encoding.
pub open spec fn dec_ok_define_text(v: Val) -> bool {
    v is Obj && dec_ok_define_text_fields(obj_members(v))
}

/// Every element is a well-formed `DefineText` encoding.
pub open spec fn all_dec_ok_define_text(items: Seq<Val>) -> bool {
    forall|k: int| 0 <= k < items.len() ==> dec_ok_define_text(#[trigger] items[k])
}

impl DefineText {
    /// Appends this record's members to `ms`.
    #[verifier::loop_isolation(false)]
    #[verifier::rlimit(100)]
    #[verifier::spinoff_prover]
    pub fn encode_members(&self, ms: &mut Vec<Member>)
        ensures
            members_view(*final(ms)) == members_view(*old(ms)) + obj_members(enc_define_text(*self)),
    {
        push_int(ms, "id", self.id as i128);
        push_value(ms, "bounds", self.bounds.encode());
        push_value(ms, "matrix", self.matrix.encode());
        let mut arr_3: Vec<Value> = Vec::new();
        let mut j: usize = 0;
        while j < self.records.len()
            invariant
                j <= self.records@.len(),
                arr_3@.len() == j as int,
                forall|k: int| 0 <= k < j ==> #[trigger] val_view(arr_3@[k]) == enc_text_record(self.records@[k]),
            decreases self.records@.len() - j,
        {
            arr_3.push(self.records[j].encode());
            j = j + 1;
        }
        proof {
            let m2 = self.records@.map_values(|y: TextRecord| enc_text_record(y));
            assert(elems_view(arr_3).len() == m2.len());
            assert forall|k: int| 0 <= k < m2.len() implies elems_view(arr_3)[k] == m2[k] by {
                assert(val_view(arr_3@[k]) == enc_text_record(self.records@[k]));
                assert(m2[k] == enc_text_record(self.records@[k]));
            }
            assert(elems_view(arr_3) =~~= m2);
        }
        push_value(ms, "records", Value::Arr(arr_3));
        proof {
            assert(members_view(*ms) =~~= members_view(*old(ms)) + obj_members(enc_define_text(*self)));
        }
    }

    /// Encodes to the interchange form.
    pub fn encode(&self) -> (v: Value)
        ensures
            v@ == enc_define_text(*self),
    {
        let mut ms: Vec<Member> = Vec::new();
        self.encode_members(&mut ms);
        let v = Value::Obj(ms);
        proof {
            assert(members_view(ms) =~= obj_members(enc_define_text(*self)));
            assert(v@ == Val::Obj(members_view(ms)));
        }
        v
    }

    /// Decodes this record's members from `ms`, starting at `start`;
    /// succeeds exactly on a well-formed field list reaching the end.
    #[verifier::loop_isolation(false)]
    #[verifier::rlimit(100)]
    #[verifier::spinoff_prover]
    pub fn decode_members(ms: &Vec<Member>, start: usize) -> (r: Result<Self, DecodeError>)
        requires
            start as int <= members_view(*ms).len(),
        ensures
            r is Ok <==> dec_ok_define_text_fields(members_view(*ms).skip(start as int)),
            r matches Ok(t) ==> members_view(*ms).skip(start as int) == obj_members(enc_define_text(t)),
    {
        let ghost gm = members_view(*ms).skip(start as int);
        proof {
            assert(gm.len() == members_view(*ms).len() - start);
        }
        let mut i: usize = start;
        if ms.len() <= i {
            return Err(DecodeError::BadField);
        }
        let x_id: u16 = take_int(ms, i, "id", 0, u16::MAX as i128)? as u16;
        i = i + 1;
        if ms.len() <= i {
            return Err(DecodeError::BadField);
        }
        if !key_is(ms, i, "bounds") {
            return Err(DecodeError::BadField);
        }
        let x_bounds = Rect::decode(&ms[i].value)?;
        i = i + 1;
        if ms.len() <= i {
            return Err(DecodeError::BadField);
        }
        if !key_is(ms, i, "matrix") {
            return Err(DecodeError::BadField);
        }
        let x_matrix = Matrix::decode(&ms[i].value)?;
        i = i + 1;
        if ms.len() <= i {
            return Err(DecodeError::BadField);
        }
        if !key_is(ms, i, "records") {
            return Err(DecodeError::BadField);
        }
        let items_3 = match &ms[i].value {
            Value::Arr(a) => a,
            _ => {
                return Err(DecodeError::BadField);
            },
        };
        proof {
            assert(members_view(*ms)[i as int].1 == Val::Arr(elems_view(*items_3)));
            assert(arr_items(gm[(i - start) as int].1) == elems_view(*items_3));
        }
        let mut out_3: Vec<TextRecord> = Vec::new();
        let mut j: usize = 0;
        while j < items_3.len()
            invariant
                j <= items_3@.len(),
                out_3@.len() == j as int,
                forall|k: int| 0 <= k < j ==> #[trigger] elems_view(*items_3)[k] == enc_text_record(out_3@[k]),
                forall|k: int| 0 <= k < j ==> dec_ok_text_record(#[trigger] elems_view(*items_3)[k]),
            decreases items_3@.len() - j,
        {
            let x = match TextRecord::decode(&items_3[j]) {
                Ok(x) => x,
                Err(e) => {
                    proof {
                        assert(!dec_ok_text_record(elems_view(*items_3)[j as int]));
                        assert(!all_dec_ok_text_record(elems_view(*items_3)));
                    }
                    return Err(e);
                },
            };
            out_3.push(x);
            j = j + 1;
        }
        proof {
            assert(elems_view(*items_3) =~~= out_3@.map_values(|y: TextRecord| enc_text_record(y)));
            assert(all_dec_ok_text_record(elems_view(*items_3)));
        }
        let x_records = out_3;
        i = i + 1;
        if i != ms.len() {
            return Err(DecodeError::BadField);
        }
        let t = DefineText { id: x_id, bounds: x_bounds, matrix: x_matrix, records: x_records };
        proof {
            assert(members_view(*ms).skip(start as int) =~~= obj_members(enc_define_text(t)));
        }
        Ok(t)
    }

    /// Decodes from the interchange form; succeeds exactly on well-formed
    /// encodings and then returns the encoded value.
    #[verifier::rlimit(100)]
    #[verifier::spinoff_prover]
    pub fn decode(v: &Value) -> (r: Result<Self, DecodeError>)
        ensures
            r is Ok <==> dec_ok_define_text(v@),
            r matches Ok(t) ==> v@ == enc_define_text(t),
    {
        let ms = match v {
            Value::Obj(ms) => ms,
            _ => {
                return Err(DecodeError::ExpectedObject);
            },
        };
        let t = Self::decode_members(ms, 0)?;
        proof {
            assert(members_view(*ms).skip(0) =~= members_view(*ms));
            assert(v@ == Val::Obj(members_view(*ms)));
        }
        Ok(t)
    }
}

/// Field-wise equality of two `DefineText` values (text and payloads by content).
pub open spec fn eq_define_text(a: DefineText, b: DefineText) -> bool {
    &&& a.id == b.id
    &&& eq_rect(a.bounds, b.bounds)
    &&& eq_matrix(a.matrix, b.matrix)
    &&& (a.records@.len() == b.records@.len() && (forall|k: int| 0 <= k < a.records@.len() ==> eq_text_record(#[trigger] a.records@[k], b.records@[k])))
}

/// Round trip: every `DefineText` encoding is well-formed and decodes back
/// only to a field-wise equal value.
#[verifier::rlimit(100)]
#[verifier::spinoff_prover]
pub proof fn lemma_define_text_round_trip(a: DefineText, b: DefineText)
    ensures
        dec_ok_define_text(enc_define_text(a)),
        enc_define_text(a) == enc_define_text(b) ==> eq_define_text(a, b),
{
    reveal_strlit("id");
    reveal_strlit("bounds");
    reveal_strlit("matrix");
    reveal_strlit("records");
    lemma_rect_round_trip(a.bounds, b.bounds);
    lemma_rect_round_trip(a.bounds, a.bounds);
    lemma_rect_round_trip(b.bounds, b.bounds);
    lemma_matrix_round_trip(a.matrix, b.matrix);
    lemma_matrix_round_trip(a.matrix, a.matrix);
    lemma_matrix_round_trip(b.matrix, b.matrix);
    {
        let ea0 = a.records@.map_values(|y: TextRecord| enc_text_record(y));
        assert forall|k: int| 0 <= k < ea0.len() implies dec_ok_text_record(#[trigger] ea0[k]) by {
            lemma_text_record_round_trip(a.records@[k], a.records@[k]);
        }
        assert(all_dec_ok_text_record(ea0));
    }
    {
        let ea = a.records@.map_values(|y: TextRecord| enc_text_record(y));
        let eb = b.records@.map_values(|y: TextRecord| enc_text_record(y));
        if ea == eb {
            assert forall|k: int| 0 <= k < a.records@.len() implies eq_text_record(#[trigger] a.records@[k], b.records@[k]) by {
                assert(ea[k] == eb[k]);
                lemma_text_record_round_trip(a.records@[k], b.records@[k]);
            }
        }
    }
    assert(dec_ok_define_text_fields(obj_members(enc_define_text(a))));
    if enc_define_text(a) == enc_define_text(b) {
        assert(eq_define_text(a, b));
    }
}

/// Action bytes run when the current frame is shown.
#[derive(Clone, Debug, PartialEq, Eq)]
pub struct DoAction {
    pub actions: Vec<u8>,
}

/// The interchange encoding of a `DoAction`.
pub open spec fn enc_do_action(t: DoAction) -> Val {
    Val::Obj(seq![("actions"@, Val::Str(hex_of(t.actions@)))])
}

/// Whether `m` is exactly a well-formed `DoAction` field list.
pub open spec fn dec_ok_do_action_fields(m: Seq<(Seq<char>, Val)>) -> bool {
    &&& str_field(m, 0, "actions"@) && is_hex_seq(str_at(m, 0))
    &&& m.len() == 1
}

/// Whether `v` is a well-formed `DoAction` encoding.
pub open spec fn dec_ok_do_action(v: Val) -> bool {
    v is Obj && dec_ok_do_action_fields(obj_members(v))
}

/// Every element is a well-formed `DoAction` encoding.
pub open spec fn all_dec_ok_do_action(items: Seq<Val>) -> bool {
    forall|k: int| 0 <= k < items.len() ==> dec_ok_do_action(#[trigger] items[k])
}

impl DoAction {
    /// Appends this record's members to `ms`.
    #[verifier::loop_isolation(false)]
    #[verifier::rlimit(100)]
    #[verifier::spinoff_prover]
    pub fn encode_members(&self, ms: &mut Vec<Member>)
        ensures
            members_view(*final(ms)) == members_view(*old(ms)) + obj_members(enc_do_action(*self)),
    {
        let hx_0 = hex_encode(&self.actions);
        push_str(ms, "actions", &hx_0);
        proof {
            assert(members_view(*ms) =~~= members_view(*old(ms)) + obj_members(enc_do_action(*self)));
        }
    }

    /// Encodes to the interchange form.
    pub fn encode(&self) -> (v: Value)
        ensures
            v@ == enc_do_action(*self),
    {
        let mut ms: Vec<Member> = Vec::new();
        self.encode_members(&mut ms);
        let v = Value::Obj(ms);
        proof {
            assert(members_view(ms) =~= obj_members(enc_do_action(*self)));
            assert(v@ == Val::Obj(members_view(ms)));
        }
        v
    }

    /// Decodes this record's members from `ms`, starting at `start`;
    /// succeeds exactly on a well-formed field list reaching the end.
    #[verifier::loop_isolation(false)]
    #[verifier::rlimit(100)]
    #[verifier::spinoff_prover]
    pub fn decode_members(ms: &Vec<Member>, start: usize) -> (r: Result<Self, DecodeError>)
        requires
            start as int <= members_view(*ms).len(),
        ensures
            r is Ok <==> dec_ok_do_action_fields(members_view(*ms).skip(start as int)),
            r matches Ok(t) ==> members_view(*ms).skip(start as int) == obj_members(enc_do_action(t)),
    {
        let ghost gm = members_view(*ms).skip(start as int);
        proof {
            assert(gm.len() == members_view(*ms).len() - start);
        }
        let mut i: usize = start;
        if ms.len() <= i {
            return Err(DecodeError::BadField);
        }
        let s_0 = take_str(ms, i, "actions")?;
        let x_actions: Vec<u8> = hex_decode(s_0.as_str())?;
        i = i + 1;
        if i != ms.len() {
            return Err(DecodeError::BadField);
        }
        let t = DoAction { actions: x_actions };
        proof {
            assert(members_view(*ms).skip(start as int) =~~= obj_members(enc_do_action(t)));
        }
        Ok(t)
    }

    /// Decodes from the interchange form; succeeds exactly on well-formed
    /// encodings and then returns the encoded value.
    #[verifier::rlimit(100)]
    #[verifier::spinoff_prover]
    pub fn decode(v: &Value) -> (r: Result<Self, DecodeError>)
        ensures
            r is Ok <==> dec_ok_do_action(v@),
            r matches Ok(t) ==> v@ == enc_do_action(t),
    {
        let ms = match v {
            Value::Obj(ms) => ms,
            _ => {
                return Err(DecodeError::ExpectedObject);
            },
        };
        let t = Self::decode_members(ms, 0)?;
        proof {
            assert(members_view(*ms).skip(0) =~= members_view(*ms));
            assert(v@ == Val::Obj(members_view(*ms)));
        }
        Ok(t)
    }
}

/// Field-wise equality of two `DoAction` values (text and payloads by content).
pub open spec fn eq_do_action(a: DoAction, b: DoAction) -> bool {
    &&& a.actions@ == b.actions@
}

/// Round trip: every `DoAction` encoding is well-formed and decodes back
/// only to a field-wise equal value.
#[verifier::rlimit(100)]
#[verifier::spinoff_prover]
pub proof fn lemma_do_action_round_trip(a: DoAction, b: DoAction)
    ensures
        dec_ok_do_action(enc_do_action(a)),
        enc_do_action(a) == enc_do_action(b) ==> eq_do_action(a, b),
{
    reveal_strlit("actions");
    crate::hex::lemma_hex_round_trip(a.actions@);
    crate::hex::lemma_hex_round_trip(b.actions@);
    assert(dec_ok_do_action_fields(obj_members(enc_do_action(a))));
    if enc_do_action(a) == enc_do_action(b) {
        assert(eq_do_action(a, b));
    }
}

/// Action bytes run once before a sprite is first shown.
#[derive(Clone, Debug, PartialEq, Eq)]
pub struct DoInitAction {
    pub sprite_id: u16,
    pub actions: Vec<u8>,
}

/// The interchange encoding of a `DoInitAction`.
pub open spec fn enc_do_init_action(t: DoInitAction) -> Val {
    Val::Obj(seq![("sprite_id"@, Val::Int(t.sprite_id as int)), ("actions"@, Val::Str(hex_of(t.actions@)))])
}

/// Whether `m` is exactly a well-formed `DoInitAction` field list.
pub open spec fn dec_ok_do_init_action_fields(m: Seq<(Seq<char>, Val)>) -> bool {
    &&& int_field(m, 0, "sprite_id"@, 0, u16::MAX as int)
    &&& str_field(m, 1, "actions"@) && is_hex_seq(str_at(m, 1))
    &&& m.len() == 2
}

/// Whether `v` is a well-formed `DoInitAction` encoding.
pub open spec fn dec_ok_do_init_action(v: Val) -> bool {
    v is Obj && dec_ok_do_init_action_fields(obj_members(v))
}

/// Every element is a well-formed `DoInitAction` encoding.
pub open spec fn all_dec_ok_do_init_action(items: Seq<Val>) -> bool {
    forall|k: int| 0 <= k < items.len() ==> dec_ok_do_init_action(#[trigger] items[k])
}

impl DoInitAction {
    /// Appends this record's members to `ms`.
    #[verifier::loop_isolation(false)]
    #[verifier::rlimit(100)]
    #[verifier::spinoff_prover]
    pub fn encode_members(&self, ms: &mut Vec<Member>)
        ensures
            members_view(*final(ms)) == members_view(*old(ms)) + obj_members(enc_do_init_action(*self)),
    {
        push_int(ms, "sprite_id", self.sprite_id as i128);
        let hx_1 = hex_encode(&self.actions);
        push_str(ms, "actions", &hx_1);
        proof {
            assert(members_view(*ms) =~~= members_view(*old(ms)) + obj_members(enc_do_init_action(*self)));
        }
    }

    /// Encodes to the interchange form.
    pub fn encode(&self) -> (v: Value)
        ensures
            v@ == enc_do_init_action(*self),
    {
        let mut ms: Vec<Member> = Vec::new();
        self.encode_members(&mut ms);
        let v = Value::Obj(ms);
        proof {
            assert(members_view(ms) =~= obj_members(enc_do_init_action(*self)));
            assert(v@ == Val::Obj(members_view(ms)));
        }
        v
    }

    /// Decodes this record's members from `ms`, starting at `start`;
    /// succeeds exactly on a well-formed field list reaching the end.
    #[verifier::loop_isolation(false)]
    #[verifier::rlimit(100)]
    #[verifier::spinoff_prover]
    pub fn decode_members(ms: &Vec<Member>, start: usize) -> (r: Result<Self, DecodeError>)
        requires
            start as int <= members_view(*ms).len(),
        ensures
            r is Ok <==> dec_ok_do_init_action_fields(members_view(*ms).skip(start as int)),
            r matches Ok(t) ==> members_view(*ms).skip(start as int) == obj_members(enc_do_init_action(t)),
    {
        let ghost gm = members_view(*ms).skip(start as int);
        proof {
            assert(gm.len() == members_view(*ms).len() - start);
        }
        let mut i: usize = start;
        if ms.len() <= i {
            return Err(DecodeError::BadField);
        }
        let x_sprite_id: u16 = take_int(ms, i, "sprite_id", 0, u16::MAX as i128)? as u16;
        i = i + 1;
        if ms.len() <= i {
            return Err(DecodeError::BadField);
        }
        let s_1 = take_str(ms, i, "actions")?;
        let x_actions: Vec<u8> = hex_decode(s_1.as_str())?;
        i = i + 1;
        if i != ms.len() {
            return Err(DecodeError::BadField);
        }
        let t = DoInitAction { sprite_id: x_sprite_id, actions: x_actions };
        proof {
            assert(members_view(*ms).skip(start as int) =~~= obj_members(enc_do_init_action(t)));
        }
        Ok(t)
    }

    /// Decodes from the interchange form; succeeds exactly on well-formed
    /// encodings and then returns the encoded value.
    #[verifier::rlimit(100)]
    #[verifier::spinoff_prover]
    pub fn decode(v: &Value) -> (r: Result<Self, DecodeError>)
        ensures
            r is Ok <==> dec_ok_do_init_action(v@),
            r matches Ok(t) ==> v@ == enc_do_init_action(t),
    {
        let ms = match v {
            Value::Obj(ms) => ms,
            _ => {
                return Err(DecodeError::ExpectedObject);
            },
        };
        let t = Self::decode_members(ms, 0)?;
        proof {
            assert(members_view(*ms).skip(0) =~= members_view(*ms));
            assert(v@ == Val::Obj(members_view(*ms)));
        }
        Ok(t)
    }
}

/// Field-wise equality of two `DoInitAction` values (text and payloads by content).
pub open spec fn eq_do_init_action(a: DoInitAction, b: DoInitAction) -> bool {
    &&& a.sprite_id == b.sprite_id
    &&& a.actions@ == b.actions@
}

/// Round trip: every `DoInitAction` encoding is well-formed and decodes back
/// only to a field-wise equal value.
#[verifier::rlimit(100)]
#[verifier::spinoff_prover]
pub proof fn lemma_do_init_action_round_trip(a: DoInitAction, b: DoInitAction)
    ensures
        dec_ok_do_init_action(enc_do_init_action(a)),
        enc_do_init_action(a) == enc_do_init_action(b) ==> eq_do_init_action(a, b),
{
    reveal_strlit("sprite_id");
    reveal_strlit("actions");
    crate::hex::lemma_hex_round_trip(a.actions@);
    crate::hex::lemma_hex_round_trip(b.actions@);
    assert(dec_ok_do_init_action_fields(obj_members(enc_do_init_action(a))));
    if enc_do_init_action(a) == enc_do_init_action(b) {
        assert(eq_do_init_action(a, b));
    }
}

/// Enables debugging, guarded by a password.
#[derive(Clone, Debug, PartialEq, Eq)]
pub struct EnableDebugger {
    pub password: String,
}

/// The interchange encoding of a `EnableDebugger`.
pub open spec fn enc_enable_debugger(t: EnableDebugger) -> Val {
    Val::Obj(seq![("password"@, Val::Str(t.password@))])
}

/// Whether `m` is exactly a well-formed `EnableDebugger` field list.
pub open spec fn dec_ok_enable_debugger_fields(m: Seq<(Seq<char>, Val)>) -> bool {
    &&& str_field(m, 0, "password"@)
    &&& m.len() == 1
}

/// Whether `v` is a well-formed `EnableDebugger` encoding.
pub open spec fn dec_ok_enable_debugger(v: Val) -> bool {
    v is Obj && dec_ok_enable_debugger_fields(obj_members(v))
}

/// Every element is a well-formed `EnableDebugger` encoding.
pub open spec fn all_dec_ok_enable_debugger(items: Seq<Val>) -> bool {
    forall|k: int| 0 <= k < items.len() ==> dec_ok_enable_debugger(#[trigger] items[k])
}

impl EnableDebugger {
    /// Appends this record's members to `ms`.
    #[verifier::loop_isolation(false)]
    #[verifier::rlimit(100)]
    #[verifier::spinoff_prover]
    pub fn encode_members(&self, ms: &mut Vec<Member>)
        ensures
            members_view(*final(ms)) == members_view(*old(ms)) + obj_members(enc_enable_debugger(*self)),
    {
        push_str(ms, "password", &self.password);
        proof {
            assert(members_view(*ms) =~~= members_view(*old(ms)) + obj_members(enc_enable_debugger(*self)));
        }
    }

    /// Encodes to the interchange form.
    pub fn encode(&self) -> (v: Value)
        ensures
            v@ == enc_enable_debugger(*self),
    {
        let mut ms: Vec<Member> = Vec::new();
        self.encode_members(&mut ms);
        let v = Value::Obj(ms);
        proof {
            assert(members_view(ms) =~= obj_members(enc_enable_debugger(*self)));
            assert(v@ == Val::Obj(members_view(ms)));
        }
        v
    }

    /// Decodes this record's members from `ms`, starting at `start`;
    /// succeeds exactly on a well-formed field list reaching the end.
    #[verifier::loop_isolation(false)]
    #[verifier::rlimit(100)]
    #[verifier::spinoff_prover]
    pub fn decode_members(ms: &Vec<Member>, start: usize) -> (r: Result<Self, DecodeError>)
        requires
            start as int <= members_view(*ms).len(),
        ensures
            r is Ok <==> dec_ok_enable_debugger_fields(members_view(*ms).skip(start as int)),
            r matches Ok(t) ==> members_view(*ms).skip(start as int) == obj_members(enc_enable_debugger(t)),
    {
        let ghost gm = members_view(*ms).skip(start as int);
        proof {
            assert(gm.len() == members_view(*ms).len() - start);
        }
        let mut i: usize = start;
        if ms.len() <= i {
            return Err(DecodeError::BadField);
        }
        let x_password: String = take_str(ms, i, "password")?;
        i = i + 1;
        if i != ms.len() {
            return Err(DecodeError::BadField);
        }
        let t = EnableDebugger { password: x_password };
        proof {
            assert(members_view(*ms).skip(start as int) =~~= obj_members(enc_enable_debugger(t)));
        }
        Ok(t)
    }

    /// Decodes from the interchange form; succeeds exactly on well-formed
    /// encodings and then returns the encoded value.
    #[verifier::rlimit(100)]
    #[verifier::spinoff_prover]
    pub fn decode(v: &Value) -> (r: Result<Self, DecodeError>)
        ensures
            r is Ok <==> dec_ok_enable_debugger(v@),
            r matches Ok(t) ==> v@ == enc_enable_debugger(t),
    {
        let ms = match v {
            Value::Obj(ms) => ms,
            _ => {
                return Err(DecodeError::ExpectedObject);
            },
        };
        let t = Self::decode_members(ms, 0)?;
        proof {
            assert(members_view(*ms).skip(0) =~= members_view(*ms));
            assert(v@ == Val::Obj(members_view(*ms)));
        }
        Ok(t)
    }
}

/// Field-wise equality of two `EnableDebugger` values (text and payloads by content).
pub open spec fn eq_enable_debugger(a: EnableDebugger, b: EnableDebugger) -> bool {
    &&& a.password@ == b.password@
}

/// Round trip: every `EnableDebugger` encoding is well-formed and decodes back
/// only to a field-wise equal value.
#[verifier::rlimit(100)]
#[verifier::spinoff_prover]
pub proof fn lemma_enable_debugger_round_trip(a: EnableDebugger, b: EnableDebugger)
    ensures
        dec_ok_enable_debugger(enc_enable_debugger(a)),
        enc_enable_debugger(a) == enc_enable_debugger(b) ==> eq_enable_debugger(a, b),
{
    reveal_strlit("password");

    assert(dec_ok_enable_debugger_fields(obj_members(enc_enable_debugger(a))));
    if enc_enable_debugger(a) == enc_enable_debugger(b) {
        assert(eq_enable_debugger(a, b));
    }
}

/// Exports characters under public names.
#[derive(Clone, Debug, PartialEq, Eq)]
pub struct ExportAssets {
    pub assets: Vec<NamedId>,
}

/// The interchange encoding of a `ExportAssets`.
pub open spec fn enc_export_assets(t: ExportAssets) -> Val {
    Val::Obj(seq![("assets"@, Val::Arr(t.assets@.map_values(|y: NamedId| enc_named_id(y))))])
}

/// Whether `m` is exactly a well-formed `ExportAssets` field list.
pub open spec fn dec_ok_export_assets_fields(m: Seq<(Seq<char>, Val)>) -> bool {
    &&& m[0].0 == "assets"@ && (m[0].1 is Arr && all_dec_ok_named_id(arr_items(m[0].1)))
    &&& m.len() == 1
}

/// Whether `v` is a well-formed `ExportAssets` encoding.
pub open spec fn dec_ok_export_assets(v: Val) -> bool {
    v is Obj && dec_ok_export_assets_fields(obj_members(v))
}

/// Every element is a well-formed `ExportAssets` encoding.
pub open spec fn all_dec_ok_export_assets(items: Seq<Val>) -> bool {
    forall|k: int| 0 <= k < items.len() ==> dec_ok_export_assets(#[trigger] items[k])
}

impl ExportAssets {
    /// Appends this record's members to `ms`.
    #[verifier::loop_isolation(false)]
    #[verifier::rlimit(100)]
    #[verifier::spinoff_prover]
    pub fn encode_members(&self, ms: &mut Vec<Member>)
        ensures
            members_view(*final(ms)) == members_view(*old(ms)) + obj_members(enc_export_assets(*self)),
    {
        let mut arr_0: Vec<Value> = Vec::new();
        let mut j: usize = 0;
        while j < self.assets.len()
            invariant
                j <= self.assets@.len(),
                arr_0@.len() == j as int,
                forall|k: int| 0 <= k < j ==> #[trigger] val_view(arr_0@[k]) == enc_named_id(self.assets@[k]),
            decreases self.assets@.len() - j,
        {
            arr_0.push(self.assets[j].encode());
            j = j + 1;
        }
        proof {
            let m2 = self.assets@.map_values(|y: NamedId| enc_named_id(y));
            assert(elems_view(arr_0).len() == m2.len());
            assert forall|k: int| 0 <= k < m2.len() implies elems_view(arr_0)[k] == m2[k] by {
                assert(val_view(arr_0@[k]) == enc_named_id(self.assets@[k]));
                assert(m2[k] == enc_named_id(self.assets@[k]));
            }
            assert(elems_view(arr_0) =~~= m2);
        }
        push_value(ms, "assets", Value::Arr(arr_0));
        proof {
            assert(members_view(*ms) =~~= members_view(*old(ms)) + obj_members(enc_export_assets(*self)));
        }
    }

    /// Encodes to the interchange form.
    pub fn encode(&self) -> (v: Value)
        ensures
            v@ == enc_export_assets(*self),
    {
        let mut ms: Vec<Member> = Vec::new();
        self.encode_members(&mut ms);
        let v = Value::Obj(ms);
        proof {
            assert(members_view(ms) =~= obj_members(enc_export_assets(*self)));
            assert(v@ == Val::Obj(members_view(ms)));
        }
        v
    }

    /// Decodes this record's members from `ms`, starting at `start`;
    /// succeeds exactly on a well-formed field list reaching the end.
    #[verifier::loop_isolation(false)]
    #[verifier::rlimit(100)]
    #[verifier::spinoff_prover]
    pub fn decode_members(ms: &Vec<Member>, start: usize) -> (r: Result<Self, DecodeError>)
        requires
            start as int <= members_view(*ms).len(),
        ensures
            r is Ok <==> dec_ok_export_assets_fields(members_view(*ms).skip(start as int)),
            r matches Ok(t) ==> members_view(*ms).skip(start as int) == obj_members(enc_export_assets(t)),
    {
        let ghost gm = members_view(*ms).skip(start as int);
        proof {
            assert(gm.len() == members_view(*ms).len() - start);
        }
        let mut i: usize = start;
        if ms.len() <= i {
            return Err(DecodeError::BadField);
        }
        if !key_is(ms, i, "assets") {
            return Err(DecodeError::BadField);
        }
        let items_0 = match &ms[i].value {
            Value::Arr(a) => a,
            _ => {
                return Err(DecodeError::BadField);
            },
        };
        proof {
            assert(members_view(*ms)[i as int].1 == Val::Arr(elems_view(*items_0)));
            assert(arr_items(gm[(i - start) as int].1) == elems_view(*items_0));
        }
        let mut out_0: Vec<NamedId> = Vec::new();
        let mut j: usize = 0;
        while j < items_0.len()
            invariant
                j <= items_0@.len(),
                out_0@.len() == j as int,
                forall|k: int| 0 <= k < j ==> #[trigger] elems_view(*items_0)[k] == enc_named_id(out_0@[k]),
                forall|k: int| 0 <= k < j ==> dec_ok_named_id(#[trigger] elems_view(*items_0)[k]),
            decreases items_0@.len() - j,
        {
            let x = match NamedId::decode(&items_0[j]) {
                Ok(x) => x,
                Err(e) => {
                    proof {
                        assert(!dec_ok_named_id(elems_view(*items_0)[j as int]));
                        assert(!all_dec_ok_named_id(elems_view(*items_0)));
                    }
                    return Err(e);
                },
            };
            out_0.push(x);
            j = j + 1;
        }
        proof {
            assert(elems_view(*items_0) =~~= out_0@.map_values(|y: NamedId| enc_named_id(y)));
            assert(all_dec_ok_named_id(elems_view(*items_0)));
        }
        let x_assets = out_0;
        i = i + 1;
        if i != ms.len() {
            return Err(DecodeError::BadField);
        }
        let t = ExportAssets { assets: x_assets };
        proof {
            assert(members_view(*ms).skip(start as int) =~~= obj_members(enc_export_assets(t)));
        }
        Ok(t)
    }

    /// Decodes from the interchange form; succeeds exactly on well-formed
    /// encodings and then returns the encoded value.
    #[verifier::rlimit(100)]
    #[verifier::spinoff_prover]
    pub fn decode(v: &Value) -> (r: Result<Self, DecodeError>)
        ensures
            r is Ok <==> dec_ok_export_assets(v@),
            r matches Ok(t) ==> v@ == enc_export_assets(t),
    {
        let ms = match v {
            Value::Obj(ms) => ms,
            _ => {
                return Err(DecodeError::ExpectedObject);
            },
        };
        let t = Self::decode_members(ms, 0)?;
        proof {
            assert(members_view(*ms).skip(0) =~= members_view(*ms));
            assert(v@ == Val::Obj(members_view(*ms)));
        }
        Ok(t)
    }
}

/// Field-wise equality of two `ExportAssets` values (text and payloads by content).
pub open spec fn eq_export_assets(a: ExportAssets, b: ExportAssets) -> bool {
    &&& (a.assets@.len() == b.assets@.len() && (forall|k: int| 0 <= k < a.assets@.len() ==> eq_named_id(#[trigger] a.assets@[k], b.assets@[k])))
}

/// Round trip: every `ExportAssets` encoding is well-formed and decodes back
/// only to a field-wise equal value.
#[verifier::rlimit(100)]
#[verifier::spinoff_prover]
pub proof fn lemma_export_assets_round_trip(a: ExportAssets, b: ExportAssets)
    ensures
        dec_ok_export_assets(enc_export_assets(a)),
        enc_export_assets(a) == enc_export_assets(b) ==> eq_export_assets(a, b),
{
    reveal_strlit("assets");
    {
        let ea0 = a.assets@.map_values(|y: NamedId| enc_named_id(y));
        assert forall|k: int| 0 <= k < ea0.len() implies dec_ok_named_id(#[trigger] ea0[k]) by {
            lemma_named_id_round_trip(a.assets@[k], a.assets@[k]);
        }
        assert(all_dec_ok_named_id(ea0));
    }
    {
        let ea = a.assets@.map_values(|y: NamedId| enc_named_id(y));
        let eb = b.assets@.map_values(|y: NamedId| enc_named_id(y));
        if ea == eb {
            assert forall|k: int| 0 <= k < a.assets@.len() implies eq_named_id(#[trigger] a.assets@[k], b.assets@[k]) by {
                assert(ea[k] == eb[k]);
                lemma_named_id_round_trip(a.assets@[k], b.assets@[k]);
            }
        }
    }
    assert(dec_ok_export_assets_fields(obj_members(enc_export_assets(a))));
    if enc_export_assets(a) == enc_export_assets(b) {
        assert(eq_export_assets(a, b));
    }
}

/// Document-wide capability flags.
#[derive(Copy, Clone, Debug, PartialEq, Eq, Hash, Structural)]
pub struct FileAttributes {
    pub use_direct_blit: bool,
    pub use_gpu: bool,
    pub has_metadata: bool,
    pub use_as3: bool,
    pub no_cross_domain_caching: bool,
    pub use_relative_urls: bool,
    pub use_network: bool,
}

/// The interchange encoding of a `FileAttributes`.
pub open spec fn enc_file_attributes(t: FileAttributes) -> Val {
    Val::Obj(seq![("use_direct_blit"@, Val::Bool(t.use_direct_blit)), ("use_gpu"@, Val::Bool(t.use_gpu)), ("has_metadata"@, Val::Bool(t.has_metadata)), ("use_as3"@, Val::Bool(t.use_as3)), ("no_cross_domain_caching"@, Val::Bool(t.no_cross_domain_caching)), ("use_relative_urls"@, Val::Bool(t.use_relative_urls)), ("use_network"@, Val::Bool(t.use_network))])
}

/// Whether `m` is exactly a well-formed `FileAttributes` field list.
pub open spec fn dec_ok_file_attributes_fields(m: Seq<(Seq<char>, Val)>) -> bool {
    &&& bool_field(m, 0, "use_direct_blit"@)
    &&& bool_field(m, 1, "use_gpu"@)
    &&& bool_field(m, 2, "has_metadata"@)
    &&& bool_field(m, 3, "use_as3"@)
    &&& bool_field(m, 4, "no_cross_domain_caching"@)
    &&& bool_field(m, 5, "use_relative_urls"@)
    &&& bool_field(m, 6, "use_network"@)
    &&& m.len() == 7
}

/// Whether `v` is a well-formed `FileAttributes` encoding.
pub open spec fn dec_ok_file_attributes(v: Val) -> bool {
    v is Obj && dec_ok_file_attributes_fields(obj_members(v))
}

/// Every element is a well-formed `FileAttributes` encoding.
pub open spec fn all_dec_ok_file_attributes(items: Seq<Val>) -> bool {
    forall|k: int| 0 <= k < items.len() ==> dec_ok_file_attributes(#[trigger] items[k])
}

impl FileAttributes {
    /// Appends this record's members to `ms`.
    #[verifier::loop_isolation(false)]
    #[verifier::rlimit(100)]
    #[verifier::spinoff_prover]
    pub fn encode_members(&self, ms: &mut Vec<Member>)
        ensures
            members_view(*final(ms)) == members_view(*old(ms)) + obj_members(enc_file_attributes(*self)),
    {
        push_bool(ms, "use_direct_blit", self.use_direct_blit);
        push_bool(ms, "use_gpu", self.use_gpu);
        push_bool(ms, "has_metadata", self.has_metadata);
        push_bool(ms, "use_as3", self.use_as3);
        push_bool(ms, "no_cross_domain_caching", self.no_cross_domain_caching);
        push_bool(ms, "use_relative_urls", self.use_relative_urls);
        push_bool(ms, "use_network", self.use_network);
        proof {
            assert(members_view(*ms) =~~= members_view(*old(ms)) + obj_members(enc_file_attributes(*self)));
        }
    }

    /// Encodes to the interchange form.
    pub fn encode(&self) -> (v: Value)
        ensures
            v@ == enc_file_attributes(*self),
    {
        let mut ms: Vec<Member> = Vec::new();
        self.encode_members(&mut ms);
        let v = Value::Obj(ms);
        proof {
            assert(members_view(ms) =~= obj_members(enc_file_attributes(*self)));
            assert(v@ == Val::Obj(members_view(ms)));
        }
        v
    }

    /// Decodes this record's members from `ms`, starting at `start`;
    /// succeeds exactly on a well-formed field list reaching the end.
    #[verifier::loop_isolation(false)]
    #[verifier::rlimit(100)]
    #[verifier::spinoff_prover]
    pub fn decode_members(ms: &Vec<Member>, start: usize) -> (r: Result<Self, DecodeError>)
        requires
            start as int <= members_view(*ms).len(),
        ensures
            r is Ok <==> dec_ok_file_attributes_fields(members_view(*ms).skip(start as int)),
            r matches Ok(t) ==> members_view(*ms).skip(start as int) == obj_members(enc_file_attributes(t)),
    {
        let ghost gm = members_view(*ms).skip(start as int);
        proof {
            assert(gm.len() == members_view(*ms).len() - start);
        }
        let mut i: usize = start;
        if ms.len() <= i {
            return Err(DecodeError::BadField);
        }
        let x_use_direct_blit: bool = take_bool(ms, i, "use_direct_blit")?;
        i = i + 1;
        if ms.len() <= i {
            return Err(DecodeError::BadField);
        }
        let x_use_gpu: bool = take_bool(ms, i, "use_gpu")?;
        i = i + 1;
        if ms.len() <= i {
            return Err(DecodeError::BadField);
        }
        let x_has_metadata: bool = take_bool(ms, i, "has_metadata")?;
        i = i + 1;
        if ms.len() <= i {
            return Err(DecodeError::BadField);
        }
        let x_use_as3: bool = take_bool(ms, i, "use_as3")?;
        i = i + 1;
        if ms.len() <= i {
            return Err(DecodeError::BadField);
        }
        let x_no_cross_domain_caching: bool = take_bool(ms, i, "no_cross_domain_caching")?;
        i = i + 1;
        if ms.len() <= i {
            return Err(DecodeError::BadField);
        }
        let x_use_relative_urls: bool = take_bool(ms, i, "use_relative_urls")?;
        i = i + 1;
        if ms.len() <= i {
            return Err(DecodeError::BadField);
        }
        let x_use_network: bool = take_bool(ms, i, "use_network")?;
        i = i + 1;
        if i != ms.len() {
            return Err(DecodeError::BadField);
        }
        let t = FileAttributes { use_direct_blit: x_use_direct_blit, use_gpu: x_use_gpu, has_metadata: x_has_metadata, use_as3: x_use_as3, no_cross_domain_caching: x_no_cross_domain_caching, use_relative_urls: x_use_relative_urls, use_network: x_use_network };
        proof {
            assert(members_view(*ms).skip(start as int) =~~= obj_members(enc_file_attributes(t)));
        }
        Ok(t)
    }

    /// Decodes from the interchange form; succeeds exactly on well-formed
    /// encodings and then returns the encoded value.
    #[verifier::rlimit(100)]
    #[verifier::spinoff_prover]
    pub fn decode(v: &Value) -> (r: Result<Self, DecodeError>)
        ensures
            r is Ok <==> dec_ok_file_attributes(v@),
            r matches Ok(t) ==> v@ == enc_file_attributes(t),
    {
        let ms = match v {
            Value::Obj(ms) => ms,
            _ => {
                return Err(DecodeError::ExpectedObject);
            },
        };
        let t = Self::decode_members(ms, 0)?;
        proof {
            assert(members_view(*ms).skip(0) =~= members_view(*ms));
            assert(v@ == Val::Obj(members_view(*ms)));
        }
        Ok(t)
    }
}

/// Field-wise equality of two `FileAttributes` values (text and payloads by content).
pub open spec fn eq_file_attributes(a: FileAttributes, b: FileAttributes) -> bool {
    &&& a.use_direct_blit == b.use_direct_blit
    &&& a.use_gpu == b.use_gpu
    &&& a.has_metadata == b.has_metadata
    &&& a.use_as3 == b.use_as3
    &&& a.no_cross_domain_caching == b.no_cross_domain_caching
    &&& a.use_relative_urls == b.use_relative_urls
    &&& a.use_network == b.use_network
}

/// Round trip: every `FileAttributes` encoding is well-formed and decodes back
/// only to a field-wise equal value.
#[verifier::rlimit(100)]
#[verifier::spinoff_prover]
pub proof fn lemma_file_attributes_round_trip(a: FileAttributes, b: FileAttributes)
    ensures
        dec_ok_file_attributes(enc_file_attributes(a)),
        enc_file_attributes(a) == enc_file_attributes(b) ==> eq_file_attributes(a, b),
{
    reveal_strlit("use_direct_blit");
    reveal_strlit("use_gpu");
    reveal_strlit("has_metadata");
    reveal_strlit("use_as3");
    reveal_strlit("no_cross_domain_caching");
    reveal_strlit("use_relative_urls");
    reveal_strlit("use_network");

    assert(dec_ok_file_attributes_fields(obj_members(enc_file_attributes(a))));
    if enc_file_attributes(a) == enc_file_attributes(b) {
        assert(eq_file_attributes(a, b));
    }
}

/// Labels the current frame, optionally as a browser anchor.
#[derive(Clone, Debug, PartialEq, Eq)]
pub struct FrameLabel {
    pub name: String,
    pub is_anchor: bool,
}

/// The interchange encoding of a `FrameLabel`.
pub open spec fn enc_frame_label(t: FrameLabel) -> Val {
    Val::Obj(seq![("name"@, Val::Str(t.name@)), ("is_anchor"@, Val::Bool(t.is_anchor))])
}

/// Whether `m` is exactly a well-formed `FrameLabel` field list.
pub open spec fn dec_ok_frame_label_fields(m: Seq<(Seq<char>, Val)>) -> bool {
    &&& str_field(m, 0, "name"@)
    &&& bool_field(m, 1, "is_anchor"@)
    &&& m.len() == 2
}

/// Whether `v` is a well-formed `FrameLabel` encoding.
pub open spec fn dec_ok_frame_label(v: Val) -> bool {
    v is Obj && dec_ok_frame_label_fields(obj_members(v))
}

/// Every element is a well-formed `FrameLabel` encoding.
pub open spec fn all_dec_ok_frame_label(items: Seq<Val>) -> bool {
    forall|k: int| 0 <= k < items.len() ==> dec_ok_frame_label(#[trigger] items[k])
}

impl FrameLabel {
    /// Appends this record's members to `ms`.
    #[verifier::loop_isolation(false)]
    #[verifier::rlimit(100)]
    #[verifier::spinoff_prover]
    pub fn encode_members(&self, ms: &mut Vec<Member>)
        ensures
            members_view(*final(ms)) == members_view(*old(ms)) + obj_members(enc_frame_label(*self)),
    {
        push_str(ms, "name", &self.name);
        push_bool(ms, "is_anchor", self.is_anchor);
        proof {
            assert(members_view(*ms) =~~= members_view(*old(ms)) + obj_members(enc_frame_label(*self)));
        }
    }

    /// Encodes to the interchange form.
    pub fn encode(&self) -> (v: Value)
        ensures
            v@ == enc_frame_label(*self),
    {
        let mut ms: Vec<Member> = Vec::new();
        self.encode_members(&mut ms);
        let v = Value::Obj(ms);
        proof {
            assert(members_view(ms) =~= obj_members(enc_frame_label(*self)));
            assert(v@ == Val::Obj(members_view(ms)));
        }
        v
    }

    /// Decodes this record's members from `ms`, starting at `start`;
    /// succeeds exactly on a well-formed field list reaching the end.
    #[verifier::loop_isolation(false)]
    #[verifier::rlimit(100)]
    #[verifier::spinoff_prover]
    pub fn decode_members(ms: &Vec<Member>, start: usize) -> (r: Result<Self, DecodeError>)
        requires
            start as int <= members_view(*ms).len(),
        ensures
            r is Ok <==> dec_ok_frame_label_fields(members_view(*ms).skip(start as int)),
            r matches Ok(t) ==> members_view(*ms).skip(start as int) == obj_members(enc_frame_label(t)),
    {
        let ghost gm = members_view(*ms).skip(start as int);
        proof {
            assert(gm.len() == members_view(*ms).len() - start);
        }
        let mut i: usize = start;
        if ms.len() <= i {
            return Err(DecodeError::BadField);
        }
        let x_name: String = take_str(ms, i, "name")?;
        i = i + 1;
        if ms.len() <= i {
            return Err(DecodeError::BadField);
        }
        let x_is_anchor: bool = take_bool(ms, i, "is_anchor")?;
        i = i + 1;
        if i != ms.len() {
            return Err(DecodeError::BadField);
        }
        let t = FrameLabel { name: x_name, is_anchor: x_is_anchor };
        proof {
            assert(members_view(*ms).skip(start as int) =~~= obj_members(enc_frame_label(t)));
        }
        Ok(t)
    }

    /// Decodes from the interchange form; succeeds exactly on well-formed
    /// encodings and then returns the encoded value.
    #[verifier::rlimit(100)]
    #[verifier::spinoff_prover]
    pub fn decode(v: &Value) -> (r: Result<Self, DecodeError>)
        ensures
            r is Ok <==> dec_ok_frame_label(v@),
            r matches Ok(t) ==> v@ == enc_frame_label(t),
    {
        let ms = match v {
            Value::Obj(ms) => ms,
            _ => {
                return Err(DecodeError::ExpectedObject);
            },
        };
        let t = Self::decode_members(ms, 0)?;
        proof {
            assert(members_view(*ms).skip(0) =~= members_view(*ms));
            assert(v@ == Val::Obj(members_view(*ms)));
        }
        Ok(t)
    }
}

/// Field-wise equality of two `FrameLabel` values (text and payloads by content).
pub open spec fn eq_frame_label(a: FrameLabel, b: FrameLabel) -> bool {
    &&& a.name@ == b.name@
    &&& a.is_anchor == b.is_anchor
}

/// Round trip: every `FrameLabel` encoding is well-formed and decodes back
/// only to a field-wise equal value.
#[verifier::rlimit(100)]
#[verifier::spinoff_prover]
pub proof fn lemma_frame_label_round_trip(a: FrameLabel, b: FrameLabel)
    ensures
        dec_ok_frame_label(enc_frame_label(a)),
        enc_frame_label(a) == enc_frame_label(b) ==> eq_frame_label(a, b),
{
    reveal_strlit("name");
    reveal_strlit("is_anchor");

    assert(dec_ok_frame_label_fields(obj_members(enc_frame_label(a))));
    if enc_frame_label(a) == enc_frame_label(b) {
        assert(eq_frame_label(a, b));
    }
}

/// Imports characters exported by another document.
#[derive(Clone, Debug, PartialEq, Eq)]
pub struct ImportAssets {
    pub url: String,
    pub assets: Vec<NamedId>,
}

/// The interchange encoding of a `ImportAssets`.
pub open spec fn enc_import_assets(t: ImportAssets) -> Val {
    Val::Obj(seq![("url"@, Val::Str(t.url@)), ("assets"@, Val::Arr(t.assets@.map_values(|y: NamedId| enc_named_id(y))))])
}

/// Whether `m` is exactly a well-formed `ImportAssets` field list.
pub open spec fn dec_ok_import_assets_fields(m: Seq<(Seq<char>, Val)>) -> bool {
    &&& str_field(m, 0, "url"@)
    &&& m[1].0 == "assets"@ && (m[1].1 is Arr && all_dec_ok_named_id(arr_items(m[1].1)))
    &&& m.len() == 2
}

/// Whether `v` is a well-formed `ImportAssets` encoding.
pub open spec fn dec_ok_import_assets(v: Val) -> bool {
    v is Obj && dec_ok_import_assets_fields(obj_members(v))
}

/// Every element is a well-formed `ImportAssets` encoding.
pub open spec fn all_dec_ok_import_assets(items: Seq<Val>) -> bool {
    forall|k: int| 0 <= k < items.len() ==> dec_ok_import_assets(#[trigger] items[k])
}

impl ImportAssets {
    /// Appends this record's members to `ms`.
    #[verifier::loop_isolation(false)]
    #[verifier::rlimit(100)]
    #[verifier::spinoff_prover]
    pub fn encode_members(&self, ms: &mut Vec<Member>)
        ensures
            members_view(*final(ms)) == members_view(*old(ms)) + obj_members(enc_import_assets(*self)),
    {
        push_str(ms, "url", &self.url);
        let mut arr_1: Vec<Value> = Vec::new();
        let mut j: usize = 0;
        while j < self.assets.len()
            invariant
                j <= self.assets@.len(),
                arr_1@.len() == j as int,
                forall|k: int| 0 <= k < j ==> #[trigger] val_view(arr_1@[k]) == enc_named_id(self.assets@[k]),
            decreases self.assets@.len() - j,
        {
            arr_1.push(self.assets[j].encode());
            j = j + 1;
        }
        proof {
            let m2 = self.assets@.map_values(|y: NamedId| enc_named_id(y));
            assert(elems_view(arr_1).len() == m2.len());
            assert forall|k: int| 0 <= k < m2.len() implies elems_view(arr_1)[k] == m2[k] by {
                assert(val_view(arr_1@[k]) == enc_named_id(self.assets@[k]));
                assert(m2[k] == enc_named_id(self.assets@[k]));
            }
            assert(elems_view(arr_1) =~~= m2);
        }
        push_value(ms, "assets", Value::Arr(arr_1));
        proof {
            assert(members_view(*ms) =~~= members_view(*old(ms)) + obj_members(enc_import_assets(*self)));
        }
    }

    /// Encodes to the interchange form.
    pub fn encode(&self) -> (v: Value)
        ensures
            v@ == enc_import_assets(*self),
    {
        let mut ms: Vec<Member> = Vec::new();
        self.encode_members(&mut ms);
        let v = Value::Obj(ms);
        proof {
            assert(members_view(ms) =~= obj_members(enc_import_assets(*self)));
            assert(v@ == Val::Obj(members_view(ms)));
        }
        v
    }

    /// Decodes this record's members from `ms`, starting at `start`;
    /// succeeds exactly on a well-formed field list reaching the end.
    #[verifier::loop_isolation(false)]
    #[verifier::rlimit(100)]
    #[verifier::spinoff_prover]
    pub fn decode_members(ms: &Vec<Member>, start: usize) -> (r: Result<Self, DecodeError>)
        requires
            start as int <= members_view(*ms).len(),
        ensures
            r is Ok <==> dec_ok_import_assets_fields(members_view(*ms).skip(start as int)),
            r matches Ok(t) ==> members_view(*ms).skip(start as int) == obj_members(enc_import_assets(t)),
    {
        let ghost gm = members_view(*ms).skip(start as int);
        proof {
            assert(gm.len() == members_view(*ms).len() - start);
        }
        let mut i: usize = start;
        if ms.len() <= i {
            return Err(DecodeError::BadField);
        }
        let x_url: String = take_str(ms, i, "url")?;
        i = i + 1;
        if ms.len() <= i {
            return Err(DecodeError::BadField);
        }
        if !key_is(ms, i, "assets") {
            return Err(DecodeError::BadField);
        }
        let items_1 = match &ms[i].value {
            Value::Arr(a) => a,
            _ => {
                return Err(DecodeError::BadField);
            },
        };
        proof {
            assert(members_view(*ms)[i as int].1 == Val::Arr(elems_view(*items_1)));
            assert(arr_items(gm[(i - start) as int].1) == elems_view(*items_1));
        }
        let mut out_1: Vec<NamedId> = Vec::new();
        let mut j: usize = 0;
        while j < items_1.len()
            invariant
                j <= items_1@.len(),
                out_1@.len() == j as int,
                forall|k: int| 0 <= k < j ==> #[trigger] elems_view(*items_1)[k] == enc_named_id(out_1@[k]),
                forall|k: int| 0 <= k < j ==> dec_ok_named_id(#[trigger] elems_view(*items_1)[k]),
            decreases items_1@.len() - j,
        {
            let x = match NamedId::decode(&items_1[j]) {
                Ok(x) => x,
                Err(e) => {
                    proof {
                        assert(!dec_ok_named_id(elems_view(*items_1)[j as int]));
                        assert(!all_dec_ok_named_id(elems_view(*items_1)));
                    }
                    return Err(e);
                },
            };
            out_1.push(x);
            j = j + 1;
        }
        proof {
            assert(elems_view(*items_1) =~~= out_1@.map_values(|y: NamedId| enc_named_id(y)));
            assert(all_dec_ok_named_id(elems_view(*items_1)));
        }
        let x_assets = out_1;
        i = i + 1;
        if i != ms.len() {
            return Err(DecodeError::BadField);
        }
        let t = ImportAssets { url: x_url, assets: x_assets };
        proof {
            assert(members_view(*ms).skip(start as int) =~~= obj_members(enc_import_assets(t)));
        }
        Ok(t)
    }

    /// Decodes from the interchange form; succeeds exactly on well-formed
    /// encodings and then returns the encoded value.
    #[verifier::rlimit(100)]
    #[verifier::spinoff_prover]
    pub fn decode(v: &Value) -> (r: Result<Self, DecodeError>)
        ensures
            r is Ok <==> dec_ok_import_assets(v@),
            r matches Ok(t) ==> v@ == enc_import_assets(t),
    {
        let ms = match v {
            Value::Obj(ms) => ms,
            _ => {
                return Err(DecodeError::ExpectedObject);
            },
        };
        let t = Self::decode_members(ms, 0)?;
        proof {
            assert(members_view(*ms).skip(0) =~= members_view(*ms));
            assert(v@ == Val::Obj(members_view(*ms)));
        }
        Ok(t)
    }
}

/// Field-wise equality of two `ImportAssets` values (text and payloads by content).
pub open spec fn eq_import_assets(a: ImportAssets, b: ImportAssets) -> bool {
    &&& a.url@ == b.url@
    &&& (a.assets@.len() == b.assets@.len() && (forall|k: int| 0 <= k < a.assets@.len() ==> eq_named_id(#[trigger] a.assets@[k], b.assets@[k])))
}

/// Round trip: every `ImportAssets` encoding is well-formed and decodes back
/// only to a field-wise equal value.
#[verifier::rlimit(100)]
#[verifier::spinoff_prover]
pub proof fn lemma_import_assets_round_trip(a: ImportAssets, b: ImportAssets)
    ensures
        dec_ok_import_assets(enc_import_assets(a)),
        enc_import_assets(a) == enc_import_assets(b) ==> eq_import_assets(a, b),
{
    reveal_strlit("url");
    reveal_strlit("assets");
    {
        let ea0 = a.assets@.map_values(|y: NamedId| enc_named_id(y));
        assert forall|k: int| 0 <= k < ea0.len() implies dec_ok_named_id(#[trigger] ea0[k]) by {
            lemma_named_id_round_trip(a.assets@[k], a.assets@[k]);
        }
        assert(all_dec_ok_named_id(ea0));
    }
    {
        let ea = a.assets@.map_values(|y: NamedId| enc_named_id(y));
        let eb = b.assets@.map_values(|y: NamedId| enc_named_id(y));
        if ea == eb {
            assert forall|k: int| 0 <= k < a.assets@.len() implies eq_named_id(#[trigger] a.assets@[k], b.assets@[k]) by {
                assert(ea[k] == eb[k]);
                lemma_named_id_round_trip(a.assets@[k], b.assets@[k]);
            }
        }
    }
    assert(dec_ok_import_assets_fields(obj_members(enc_import_assets(a))));
    if enc_import_assets(a) == enc_import_assets(b) {
        assert(eq_import_assets(a, b));
    }
}

/// The document's metadata text.
#[derive(Clone, Debug, PartialEq, Eq)]
pub struct Metadata {
    pub metadata: String,
}

/// The interchange encoding of a `Metadata`.
pub open spec fn enc_metadata(t: Metadata) -> Val {
    Val::Obj(seq![("metadata"@, Val::Str(t.metadata@))])
}

/// Whether `m` is exactly a well-formed `Metadata` field list.
pub open spec fn dec_ok_metadata_fields(m: Seq<(Seq<char>, Val)>) -> bool {
    &&& str_field(m, 0, "metadata"@)
    &&& m.len() == 1
}

/// Whether `v` is a well-formed `Metadata` encoding.
pub open spec fn dec_ok_metadata(v: Val) -> bool {
    v is Obj && dec_ok_metadata_fields(obj_members(v))
}

/// Every element is a well-formed `Metadata` encoding.
pub open spec fn all_dec_ok_metadata(items: Seq<Val>) -> bool {
    forall|k: int| 0 <= k < items.len() ==> dec_ok_metadata(#[trigger] items[k])
}

impl Metadata {
    /// Appends this record's members to `ms`.
    #[verifier::loop_isolation(false)]
    #[verifier::rlimit(100)]
    #[verifier::spinoff_prover]
    pub fn encode_members(&self, ms: &mut Vec<Member>)
        ensures
            members_view(*final(ms)) == members_view(*old(ms)) + obj_members(enc_metadata(*self)),
    {
        push_str(ms, "metadata", &self.metadata);
        proof {
            assert(members_view(*ms) =~~= members_view(*old(ms)) + obj_members(enc_metadata(*self)));
        }
    }

    /// Encodes to the interchange form.
    pub fn encode(&self) -> (v: Value)
        ensures
            v@ == enc_metadata(*self),
    {
        let mut ms: Vec<Member> = Vec::new();
        self.encode_members(&mut ms);
        let v = Value::Obj(ms);
        proof {
            assert(members_view(ms) =~= obj_members(enc_metadata(*self)));
            assert(v@ == Val::Obj(members_view(ms)));
        }
        v
    }

    /// Decodes this record's members from `ms`, starting at `start`;
    /// succeeds exactly on a well-formed field list reaching the end.
    #[verifier::loop_isolation(false)]
    #[verifier::rlimit(100)]
    #[verifier::spinoff_prover]
    pub fn decode_members(ms: &Vec<Member>, start: usize) -> (r: Result<Self, DecodeError>)
        requires
            start as int <= members_view(*ms).len(),
        ensures
            r is Ok <==> dec_ok_metadata_fields(members_view(*ms).skip(start as int)),
            r matches Ok(t) ==> members_view(*ms).skip(start as int) == obj_members(enc_metadata(t)),
    {
        let ghost gm = members_view(*ms).skip(start as int);
        proof {
            assert(gm.len() == members_view(*ms).len() - start);
        }
        let mut i: usize = start;
        if ms.len() <= i {
            return Err(DecodeError::BadField);
        }
        let x_metadata: String = take_str(ms, i, "metadata")?;
        i = i + 1;
        if i != ms.len() {
            return Err(DecodeError::BadField);
        }
        let t = Metadata { metadata: x_metadata };
        proof {
            assert(members_view(*ms).skip(start as int) =~~= obj_members(enc_metadata(t)));
        }
        Ok(t)
    }

    /// Decodes from the interchange form; succeeds exactly on well-formed
    /// encodings and then returns the encoded value.
    #[verifier::rlimit(100)]
    #[verifier::spinoff_prover]
    pub fn decode(v: &Value) -> (r: Result<Self, DecodeError>)
        ensures
            r is Ok <==> dec_ok_metadata(v@),
            r matches Ok(t) ==> v@ == enc_metadata(t),
    {
        let ms = match v {
            Value::Obj(ms) => ms,
            _ => {
                return Err(DecodeError::ExpectedObject);
            },
        };
        let t = Self::decode_members(ms, 0)?;
        proof {
            assert(members_view(*ms).skip(0) =~= members_view(*ms));
            assert(v@ == Val::Obj(members_view(*ms)));
        }
        Ok(t)
    }
}

/// Field-wise equality of two `Metadata` values (text and payloads by content).
pub open spec fn eq_metadata(a: Metadata, b: Metadata) -> bool {
    &&& a.metadata@ == b.metadata@
}

/// Round trip: every `Metadata` encoding is well-formed and decodes back
/// only to a field-wise equal value.
#[verifier::rlimit(100)]
#[verifier::spinoff_prover]
pub proof fn lemma_metadata_round_trip(a: Metadata, b: Metadata)
    ensures
        dec_ok_metadata(enc_metadata(a)),
        enc_metadata(a) == enc_metadata(b) ==> eq_metadata(a, b),
{
    reveal_strlit("metadata");

    assert(dec_ok_metadata_fields(obj_members(enc_metadata(a))));
    if enc_metadata(a) == enc_metadata(b) {
        assert(eq_metadata(a, b));
    }
}

/// Places a character on the timeline at a depth, or updates the one
/// already there.
#[derive(Clone, Debug, PartialEq, Eq)]
pub struct PlaceObject {
    pub is_update: bool,
    pub depth: u16,
    pub character_id: Option<u16>,
    pub class_name: Option<String>,
    pub matrix: Option<Matrix>,
    pub color_transform: Option<ColorTransformWithAlpha>,
    pub ratio: Option<u16>,
    pub name: Option<String>,
    pub clip_depth: Option<u16>,
    pub filters: Option<Vec<Filter>>,
    pub blend_mode: Option<BlendMode>,
    pub bitmap_cache: Option<bool>,
    pub visible: Option<bool>,
    pub background_color: Option<StraightSRgba8>,
    pub clip_actions: Option<Vec<ClipAction>>,
}

/// Removes the character at a depth from the timeline.
#[derive(Copy, Clone, Debug, PartialEq, Eq, Hash, Structural)]
pub struct RemoveObject {
    pub character_id: Option<u16>,
    pub depth: u16,
}

/// The interchange encoding of a `RemoveObject`.
pub open spec fn enc_remove_object(t: RemoveObject) -> Val {
    Val::Obj(maybe("character_id"@, match t.character_id { Option::Some(x) => Option::Some(Val::Int(x as int)), Option::None => Option::None }) + seq![("depth"@, Val::Int(t.depth as int))])
}

/// Whether `m` is exactly a well-formed `RemoveObject` field list.
pub open spec fn dec_ok_remove_object_fields(m: Seq<(Seq<char>, Val)>) -> bool {
    let has_character_id = m.len() > 0 && m[0].0 == "character_id"@;
    let j1 = if has_character_id { 0 + 1int } else { 0 };
    &&& has_character_id ==> ((m[0].1 matches Val::Int(x) && 0 <= x <= u16::MAX as int))
    &&& int_field(m, j1, "depth"@, 0, u16::MAX as int)
    &&& m.len() == j1 + 1
}

/// Whether `v` is a well-formed `RemoveObject` encoding.
pub open spec fn dec_ok_remove_object(v: Val) -> bool {
    v is Obj && dec_ok_remove_object_fields(obj_members(v))
}

/// Every element is a well-formed `RemoveObject` encoding.
pub open spec fn all_dec_ok_remove_object(items: Seq<Val>) -> bool {
    forall|k: int| 0 <= k < items.len() ==> dec_ok_remove_object(#[trigger] items[k])
}

impl RemoveObject {
    /// Appends this record's members to `ms`.
    #[verifier::loop_isolation(false)]
    #[verifier::rlimit(100)]
    #[verifier::spinoff_prover]
    pub fn encode_members(&self, ms: &mut Vec<Member>)
        ensures
            members_view(*final(ms)) == members_view(*old(ms)) + obj_members(enc_remove_object(*self)),
    {
        if let Some(x) = &self.character_id {
            push_int(ms, "character_id", (*x) as i128);
        }
        push_int(ms, "depth", self.depth as i128);
        proof {
            assert(members_view(*ms) =~~= members_view(*old(ms)) + obj_members(enc_remove_object(*self)));
        }
    }

    /// Encodes to the interchange form.
    pub fn encode(&self) -> (v: Value)
        ensures
            v@ == enc_remove_object(*self),
    {
        let mut ms: Vec<Member> = Vec::new();
        self.encode_members(&mut ms);
        let v = Value::Obj(ms);
        proof {
            assert(members_view(ms) =~= obj_members(enc_remove_object(*self)));
            assert(v@ == Val::Obj(members_view(ms)));
        }
        v
    }

    /// Decodes this record's members from `ms`, starting at `start`;
    /// succeeds exactly on a well-formed field list reaching the end.
    #[verifier::loop_isolation(false)]
    #[verifier::rlimit(100)]
    #[verifier::spinoff_prover]
    pub fn decode_members(ms: &Vec<Member>, start: usize) -> (r: Result<Self, DecodeError>)
        requires
            start as int <= members_view(*ms).len(),
        ensures
            r is Ok <==> dec_ok_remove_object_fields(members_view(*ms).skip(start as int)),
            r matches Ok(t) ==> members_view(*ms).skip(start as int) == obj_members(enc_remove_object(t)),
    {
        let ghost gm = members_view(*ms).skip(start as int);
        proof {
            assert(gm.len() == members_view(*ms).len() - start);
        }
        let mut i: usize = start;
        let x_character_id: Option<u16>;
        if i < ms.len() && key_is(ms, i, "character_id") {
            if ms.len() <= i {
                return Err(DecodeError::BadField);
            }
            let inner_character_id: u16 = take_int(ms, i, "character_id", 0, u16::MAX as i128)? as u16;
            i = i + 1;
            x_character_id = Some(inner_character_id);
        } else {
            x_character_id = None;
        }
        if ms.len() <= i {
            return Err(DecodeError::BadField);
        }
        let x_depth: u16 = take_int(ms, i, "depth", 0, u16::MAX as i128)? as u16;
        i = i + 1;
        if i != ms.len() {
            return Err(DecodeError::BadField);
        }
        let t = RemoveObject { character_id: x_character_id, depth: x_depth };
        proof {
            assert(members_view(*ms).skip(start as int) =~~= obj_members(enc_remove_object(t)));
        }
        Ok(t)
    }

    /// Decodes from the interchange form; succeeds exactly on well-formed
    /// encodings and then returns the encoded value.
    #[verifier::rlimit(100)]
    #[verifier::spinoff_prover]
    pub fn decode(v: &Value) -> (r: Result<Self, DecodeError>)
        ensures
            r is Ok <==> dec_ok_remove_object(v@),
            r matches Ok(t) ==> v@ == enc_remove_object(t),
    {
        let ms = match v {
            Value::Obj(ms) => ms,
            _ => {
                return Err(DecodeError::ExpectedObject);
            },
        };
        let t = Self::decode_members(ms, 0)?;
        proof {
            assert(members_view(*ms).skip(0) =~= members_view(*ms));
            assert(v@ == Val::Obj(members_view(*ms)));
        }
        Ok(t)
    }
}

/// Field-wise equality of two `RemoveObject` values (text and payloads by content).
pub open spec fn eq_remove_object(a: RemoveObject, b: RemoveObject) -> bool {
    &&& a.character_id == b.character_id
    &&& a.depth == b.depth
}

/// Round trip: every `RemoveObject` encoding is well-formed and decodes back
/// only to a field-wise equal value.
#[verifier::rlimit(100)]
#[verifier::spinoff_prover]
pub proof fn lemma_remove_object_round_trip(a: RemoveObject, b: RemoveObject)
    ensures
        dec_ok_remove_object(enc_remove_object(a)),
        enc_remove_object(a) == enc_remove_object(b) ==> eq_remove_object(a, b),
{
    reveal_strlit("character_id");
    reveal_strlit("depth");
    assert("character_id"@.len() == 12);
    assert("depth"@.len() == 5);
    assert("character_id"@ != "depth"@);

    assert(dec_ok_remove_object_fields(obj_members(enc_remove_object(a))));
    if enc_remove_object(a) == enc_remove_object(b) {
        assert(eq_remove_object(a, b));
    }
}

/// Sets the color of the display background.
#[derive(Clone, Debug, PartialEq, Eq)]
pub struct SetBackgroundColor {
    pub color: SRgb8,
}

/// The interchange encoding of a `SetBackgroundColor`.
pub open spec fn enc_set_background_color(t: SetBackgroundColor) -> Val {
    Val::Obj(seq![("color"@, enc_srgb8(t.color))])
}

/// Whether `m` is exactly a well-formed `SetBackgroundColor` field list.
pub open spec fn dec_ok_set_background_color_fields(m: Seq<(Seq<char>, Val)>) -> bool {
    &&& m[0].0 == "color"@ && dec_ok_srgb8(m[0].1)
    &&& m.len() == 1
}

/// Whether `v` is a well-formed `SetBackgroundColor` encoding.
pub open spec fn dec_ok_set_background_color(v: Val) -> bool {
    v is Obj && dec_ok_set_background_color_fields(obj_members(v))
}

/// Every element is a well-formed `SetBackgroundColor` encoding.
pub open spec fn all_dec_ok_set_background_color(items: Seq<Val>) -> bool {
    forall|k: int| 0 <= k < items.len() ==> dec_ok_set_background_color(#[trigger] items[k])
}

impl SetBackgroundColor {
    /// Appends this record's members to `ms`.
    #[verifier::loop_isolation(false)]
    #[verifier::rlimit(100)]
    #[verifier::spinoff_prover]
    pub fn encode_members(&self, ms: &mut Vec<Member>)
        ensures
            members_view(*final(ms)) == members_view(*old(ms)) + obj_members(enc_set_background_color(*self)),
    {
        push_value(ms, "color", self.color.encode());
        proof {
            assert(members_view(*ms) =~~= members_view(*old(ms)) + obj_members(enc_set_background_color(*self)));
        }
    }

    /// Encodes to the interchange form.
    pub fn encode(&self) -> (v: Value)
        ensures
            v@ == enc_set_background_color(*self),
    {
        let mut ms: Vec<Member> = Vec::new();
        self.encode_members(&mut ms);
        let v = Value::Obj(ms);
        proof {
            assert(members_view(ms) =~= obj_members(enc_set_background_color(*self)));
            assert(v@ == Val::Obj(members_view(ms)));
        }
        v
    }

    /// Decodes this record's members from `ms`, starting at `start`;
    /// succeeds exactly on a well-formed field list reaching the end.
    #[verifier::loop_isolation(false)]
    #[verifier::rlimit(100)]
    #[verifier::spinoff_prover]
    pub fn decode_members(ms: &Vec<Member>, start: usize) -> (r: Result<Self, DecodeError>)
        requires
            start as int <= members_view(*ms).len(),
        ensures
            r is Ok <==> dec_ok_set_background_color_fields(members_view(*ms).skip(start as int)),
            r matches Ok(t) ==> members_view(*ms).skip(start as int) == obj_members(enc_set_background_color(t)),
    {
        let ghost gm = members_view(*ms).skip(start as int);
        proof {
            assert(gm.len() == members_view(*ms).len() - start);
        }
        let mut i: usize = start;
        if ms.len() <= i {
            return Err(DecodeError::BadField);
        }
        if !key_is(ms, i, "color") {
            return Err(DecodeError::BadField);
        }
        let x_color = SRgb8::decode(&ms[i].value)?;
        i = i + 1;
        if i != ms.len() {
            return Err(DecodeError::BadField);
        }
        let t = SetBackgroundColor { color: x_color };
        proof {
            assert(members_view(*ms).skip(start as int) =~~= obj_members(enc_set_background_color(t)));
        }
        Ok(t)
    }

    /// Decodes from the interchange form; succeeds exactly on well-formed
    /// encodings and then returns the encoded value.
    #[verifier::rlimit(100)]
    #[verifier::spinoff_prover]
    pub fn decode(v: &Value) -> (r: Result<Self, DecodeError>)
        ensures
            r is Ok <==> dec_ok_set_background_color(v@),
            r matches Ok(t) ==> v@ == enc_set_background_color(t),
    {
        let ms = match v {
            Value::Obj(ms) => ms,
            _ => {
                return Err(DecodeError::ExpectedObject);
            },
        };
        let t = Self::decode_members(ms, 0)?;
        proof {
            assert(members_view(*ms).skip(0) =~= members_view(*ms));
            assert(v@ == Val::Obj(members_view(*ms)));
        }
        Ok(t)
    }
}

/// Field-wise equality of two `SetBackgroundColor` values (text and payloads by content).
pub open spec fn eq_set_background_color(a: SetBackgroundColor, b: SetBackgroundColor) -> bool {
    &&& eq_srgb8(a.color, b.color)
}

/// Round trip: every `SetBackgroundColor` encoding is well-formed and decodes back
/// only to a field-wise equal value.
#[verifier::rlimit(100)]
#[verifier::spinoff_prover]
pub proof fn lemma_set_background_color_round_trip(a: SetBackgroundColor, b: SetBackgroundColor)
    ensures
        dec_ok_set_background_color(enc_set_background_color(a)),
        enc_set_background_color(a) == enc_set_background_color(b) ==> eq_set_background_color(a, b),
{
    reveal_strlit("color");
    lemma_srgb8_round_trip(a.color, b.color);
    lemma_srgb8_round_trip(a.color, a.color);
    lemma_srgb8_round_trip(b.color, b.color);
    assert(dec_ok_set_background_color_fields(obj_members(enc_set_background_color(a))));
    if enc_set_background_color(a) == enc_set_background_color(b) {
        assert(eq_set_background_color(a, b));
    }
}

/// One frame's worth of streaming sound data.
#[derive(Clone, Debug, PartialEq, Eq)]
pub struct SoundStreamBlock {
    pub data: Vec<u8>,
}

/// The interchange encoding of a `SoundStreamBlock`.
pub open spec fn enc_sound_stream_block(t: SoundStreamBlock) -> Val {
    Val::Obj(seq![("data"@, Val::Str(hex_of(t.data@)))])
}

/// Whether `m` is exactly a well-formed `SoundStreamBlock` field list.
pub open spec fn dec_ok_sound_stream_block_fields(m: Seq<(Seq<char>, Val)>) -> bool {
    &&& str_field(m, 0, "data"@) && is_hex_seq(str_at(m, 0))
    &&& m.len() == 1
}

/// Whether `v` is a well-formed `SoundStreamBlock` encoding.
pub open spec fn dec_ok_sound_stream_block(v: Val) -> bool {
    v is Obj && dec_ok_sound_stream_block_fields(obj_members(v))
}

/// Every element is a well-formed `SoundStreamBlock` encoding.
pub open spec fn all_dec_ok_sound_stream_block(items: Seq<Val>) -> bool {
    forall|k: int| 0 <= k < items.len() ==> dec_ok_sound_stream_block(#[trigger] items[k])
}

impl SoundStreamBlock {
    /// Appends this record's members to `ms`.
    #[verifier::loop_isolation(false)]
    #[verifier::rlimit(100)]
    #[verifier::spinoff_prover]
    pub fn encode_members(&self, ms: &mut Vec<Member>)
        ensures
            members_view(*final(ms)) == members_view(*old(ms)) + obj_members(enc_sound_stream_block(*self)),
    {
        let hx_0 = hex_encode(&self.data);
        push_str(ms, "data", &hx_0);
        proof {
            assert(members_view(*ms) =~~= members_view(*old(ms)) + obj_members(enc_sound_stream_block(*self)));
        }
    }

    /// Encodes to the interchange form.
    pub fn encode(&self) -> (v: Value)
        ensures
            v@ == enc_sound_stream_block(*self),
    {
        let mut ms: Vec<Member> = Vec::new();
        self.encode_members(&mut ms);
        let v = Value::Obj(ms);
        proof {
            assert(members_view(ms) =~= obj_members(enc_sound_stream_block(*self)));
            assert(v@ == Val::Obj(members_view(ms)));
        }
        v
    }

    /// Decodes this record's members from `ms`, starting at `start`;
    /// succeeds exactly on a well-formed field list reaching the end.
    #[verifier::loop_isolation(false)]
    #[verifier::rlimit(100)]
    #[verifier::spinoff_prover]
    pub fn decode_members(ms: &Vec<Member>, start: usize) -> (r: Result<Self, DecodeError>)
        requires
            start as int <= members_view(*ms).len(),
        ensures
            r is Ok <==> dec_ok_sound_stream_block_fields(members_view(*ms).skip(start as int)),
            r matches Ok(t) ==> members_view(*ms).skip(start as int) == obj_members(enc_sound_stream_block(t)),
    {
        let ghost gm = members_view(*ms).skip(start as int);
        proof {
            assert(gm.len() == members_view(*ms).len() - start);
        }
        let mut i: usize = start;
        if ms.len() <= i {
            return Err(DecodeError::BadField);
        }
        let s_0 = take_str(ms, i, "data")?;
        let x_data: Vec<u8> = hex_decode(s_0.as_str())?;
        i = i + 1;
        if i != ms.len() {
            return Err(DecodeError::BadField);
        }
        let t = SoundStreamBlock { data: x_data };
        proof {
            assert(members_view(*ms).skip(start as int) =~~= obj_members(enc_sound_stream_block(t)));
        }
        Ok(t)
    }

    /// Decodes from the interchange form; succeeds exactly on well-formed
    /// encodings and then returns the encoded value.
    #[verifier::rlimit(100)]
    #[verifier::spinoff_prover]
    pub fn decode(v: &Value) -> (r: Result<Self, DecodeError>)
        ensures
            r is Ok <==> dec_ok_sound_stream_block(v@),
            r matches Ok(t) ==> v@ == enc_sound_stream_block(t),
    {
        let ms = match v {
            Value::Obj(ms) => ms,
            _ => {
                return Err(DecodeError::ExpectedObject);
            },
        };
        let t = Self::decode_members(ms, 0)?;
        proof {
            assert(members_view(*ms).skip(0) =~= members_view(*ms));
            assert(v@ == Val::Obj(members_view(*ms)));
        }
        Ok(t)
    }
}

/// Field-wise equality of two `SoundStreamBlock` values (text and payloads by content).
pub open spec fn eq_sound_stream_block(a: SoundStreamBlock, b: SoundStreamBlock) -> bool {
    &&& a.data@ == b.data@
}

/// Round trip: every `SoundStreamBlock` encoding is well-formed and decodes back
/// only to a field-wise equal value.
#[verifier::rlimit(100)]
#[verifier::spinoff_prover]
pub proof fn lemma_sound_stream_block_round_trip(a: SoundStreamBlock, b: SoundStreamBlock)
    ensures
        dec_ok_sound_stream_block(enc_sound_stream_block(a)),
        enc_sound_stream_block(a) == enc_sound_stream_block(b) ==> eq_sound_stream_block(a, b),
{
    reveal_strlit("data");
    crate::hex::lemma_hex_round_trip(a.data@);
    crate::hex::lemma_hex_round_trip(b.data@);
    assert(dec_ok_sound_stream_block_fields(obj_members(enc_sound_stream_block(a))));
    if enc_sound_stream_block(a) == enc_sound_stream_block(b) {
        assert(eq_sound_stream_block(a, b));
    }
}

/// Declares the coding of the streaming sound that follows.
#[derive(Clone, Debug, PartialEq, Eq)]
pub struct SoundStreamHead {
    pub playback_sound_rate: SoundRate,
    pub playback_sound_size: SoundSize,
    pub playback_sound_type: SoundType,
    pub stream_sound_compression: AudioCodingFormat,
    pub stream_sound_rate: SoundRate,
    pub stream_sound_size: SoundSize,
    pub stream_sound_type: SoundType,
    pub stream_sound_sample_count: u16,
    pub latency_seek: Option<i16>,
}

/// The interchange encoding of a `SoundStreamHead`.
pub open spec fn enc_sound_stream_head(t: SoundStreamHead) -> Val {
    Val::Obj(seq![("playback_sound_rate"@, enc_sound_rate(t.playback_sound_rate)), ("playback_sound_size"@, enc_sound_size(t.playback_sound_size)), ("playback_sound_type"@, enc_sound_type(t.playback_sound_type)), ("stream_sound_compression"@, enc_audio_coding_format(t.stream_sound_compression)), ("stream_sound_rate"@, enc_sound_rate(t.stream_sound_rate)), ("stream_sound_size"@, enc_sound_size(t.stream_sound_size)), ("stream_sound_type"@, enc_sound_type(t.stream_sound_type)), ("stream_sound_sample_count"@, Val::Int(t.stream_sound_sample_count as int))] + maybe("latency_seek"@, match t.latency_seek { Option::Some(x) => Option::Some(Val::Int(x as int)), Option::None => Option::None }))
}

/// Whether `m` is exactly a well-formed `SoundStreamHead` field list.
pub open spec fn dec_ok_sound_stream_head_fields(m: Seq<(Seq<char>, Val)>) -> bool {
    let has_latency_seek = m.len() > 8 && m[8].0 == "latency_seek"@;
    let j1 = if has_latency_seek { 8 + 1int } else { 8 };
    &&& m[0].0 == "playback_sound_rate"@ && dec_ok_sound_rate(m[0].1)
    &&& m[1].0 == "playback_sound_size"@ && dec_ok_sound_size(m[1].1)
    &&& m[2].0 == "playback_sound_type"@ && dec_ok_sound_type(m[2].1)
    &&& m[3].0 == "stream_sound_compression"@ && dec_ok_audio_coding_format(m[3].1)
    &&& m[4].0 == "stream_sound_rate"@ && dec_ok_sound_rate(m[4].1)
    &&& m[5].0 == "stream_sound_size"@ && dec_ok_sound_size(m[5].1)
    &&& m[6].0 == "stream_sound_type"@ && dec_ok_sound_type(m[6].1)
    &&& int_field(m, 7, "stream_sound_sample_count"@, 0, u16::MAX as int)
    &&& has_latency_seek ==> ((m[8].1 matches Val::Int(x) && i16::MIN as int <= x <= i16::MAX as int))
    &&& m.len() == j1
}

/// Whether `v` is a well-formed `SoundStreamHead` encoding.
pub open spec fn dec_ok_sound_stream_head(v: Val) -> bool {
    v is Obj && dec_ok_sound_stream_head_fields(obj_members(v))
}

/// Every element is a well-formed `SoundStreamHead` encoding.
pub open spec fn all_dec_ok_sound_stream_head(items: Seq<Val>) -> bool {
    forall|k: int| 0 <= k < items.len() ==> dec_ok_sound_stream_head(#[trigger] items[k])
}

impl SoundStreamHead {
    /// Appends this record's members to `ms`.
    #[verifier::loop_isolation(false)]
    #[verifier::rlimit(100)]
    #[verifier::spinoff_prover]
    pub fn encode_members(&self, ms: &mut Vec<Member>)
        ensures
            members_view(*final(ms)) == members_view(*old(ms)) + obj_members(enc_sound_stream_head(*self)),
    {
        push_value(ms, "playback_sound_rate", self.playback_sound_rate.encode());
        push_value(ms, "playback_sound_size", self.playback_sound_size.encode());
        push_value(ms, "playback_sound_type", self.playback_sound_type.encode());
        push_value(ms, "stream_sound_compression", self.stream_sound_compression.encode());
        push_value(ms, "stream_sound_rate", self.stream_sound_rate.encode());
        push_value(ms, "stream_sound_size", self.stream_sound_size.encode());
        push_value(ms, "stream_sound_type", self.stream_sound_type.encode());
        push_int(ms, "stream_sound_sample_count", self.stream_sound_sample_count as i128);
        if let Some(x) = &self.latency_seek {
            push_int(ms, "latency_seek", (*x) as i128);
        }
        proof {
            assert(members_view(*ms) =~~= members_view(*old(ms)) + obj_members(enc_sound_stream_head(*self)));
        }
    }

    /// Encodes to the interchange form.
    pub fn encode(&self) -> (v: Value)
        ensures
            v@ == enc_sound_stream_head(*self),
    {
        let mut ms: Vec<Member> = Vec::new();
        self.encode_members(&mut ms);
        let v = Value::Obj(ms);
        proof {
            assert(members_view(ms) =~= obj_members(enc_sound_stream_head(*self)));
            assert(v@ == Val::Obj(members_view(ms)));
        }
        v
    }

    /// Decodes this record's members from `ms`, starting at `start`;
    /// succeeds exactly on a well-formed field list reaching the end.
    #[verifier::loop_isolation(false)]
    #[verifier::rlimit(100)]
    #[verifier::spinoff_prover]
    pub fn decode_members(ms: &Vec<Member>, start: usize) -> (r: Result<Self, DecodeError>)
        requires
            start as int <= members_view(*ms).len(),
        ensures
            r is Ok <==> dec_ok_sound_stream_head_fields(members_view(*ms).skip(start as int)),
            r matches Ok(t) ==> members_view(*ms).skip(start as int) == obj_members(enc_sound_stream_head(t)),
    {
        let ghost gm = members_view(*ms).skip(start as int);
        proof {
            assert(gm.len() == members_view(*ms).len() - start);
        }
        let mut i: usize = start;
        if ms.len() <= i {
            return Err(DecodeError::BadField);
        }
        if !key_is(ms, i, "playback_sound_rate") {
            return Err(DecodeError::BadField);
        }
        let x_playback_sound_rate = SoundRate::decode(&ms[i].value)?;
        i = i + 1;
        if ms.len() <= i {
            return Err(DecodeError::BadField);
        }
        if !key_is(ms, i, "playback_sound_size") {
            return Err(DecodeError::BadField);
        }
        let x_playback_sound_size = SoundSize::decode(&ms[i].value)?;
        i = i + 1;
        if ms.len() <= i {
            return Err(DecodeError::BadField);
        }
        if !key_is(ms, i, "playback_sound_type") {
            return Err(DecodeError::BadField);
        }
        let x_playback_sound_type = SoundType::decode(&ms[i].value)?;
        i = i + 1;
        if ms.len() <= i {
            return Err(DecodeError::BadField);
        }
        if !key_is(ms, i, "stream_sound_compression") {
            return Err(DecodeError::BadField);
        }
        let x_stream_sound_compression = AudioCodingFormat::decode(&ms[i].value)?;
        i = i + 1;
        if ms.len() <= i {
            return Err(DecodeError::BadField);
        }
        if !key_is(ms, i, "stream_sound_rate") {
            return Err(DecodeError::BadField);
        }
        let x_stream_sound_rate = SoundRate::decode(&ms[i].value)?;
        i = i + 1;
        if ms.len() <= i {
            return Err(DecodeError::BadField);
        }
        if !key_is(ms, i, "stream_sound_size") {
            return Err(DecodeError::BadField);
        }
        let x_stream_sound_size = SoundSize::decode(&ms[i].value)?;
        i = i + 1;
        if ms.len() <= i {
            return Err(DecodeError::BadField);
        }
        if !key_is(ms, i, "stream_sound_type") {
            return Err(DecodeError::BadField);
        }
        let x_stream_sound_type = SoundType::decode(&ms[i].value)?;
        i = i + 1;
        if ms.len() <= i {
            return Err(DecodeError::BadField);
        }
        let x_stream_sound_sample_count: u16 = take_int(ms, i, "stream_sound_sample_count", 0, u16::MAX as i128)? as u16;
        i = i + 1;
        let x_latency_seek: Option<i16>;
        if i < ms.len() && key_is(ms, i, "latency_seek") {
            if ms.len() <= i {
                return Err(DecodeError::BadField);
            }
            let inner_latency_seek: i16 = take_int(ms, i, "latency_seek", i16::MIN as i128, i16::MAX as i128)? as i16;
            i = i + 1;
            x_latency_seek = Some(inner_latency_seek);
        } else {
            x_latency_seek = None;
        }
        if i != ms.len() {
            return Err(DecodeError::BadField);
        }
        let t = SoundStreamHead { playback_sound_rate: x_playback_sound_rate, playback_sound_size: x_playback_sound_size, playback_sound_type: x_playback_sound_type, stream_sound_compression: x_stream_sound_compression, stream_sound_rate: x_stream_sound_rate, stream_sound_size: x_stream_sound_size, stream_sound_type: x_stream_sound_type, stream_sound_sample_count: x_stream_sound_sample_count, latency_seek: x_latency_seek };
        proof {
            assert(members_view(*ms).skip(start as int) =~~= obj_members(enc_sound_stream_head(t)));
        }
        Ok(t)
    }

    /// Decodes from the interchange form; succeeds exactly on well-formed
    /// encodings and then returns the encoded value.
    #[verifier::rlimit(100)]
    #[verifier::spinoff_prover]
    pub fn decode(v: &Value) -> (r: Result<Self, DecodeError>)
        ensures
            r is Ok <==> dec_ok_sound_stream_head(v@),
            r matches Ok(t) ==> v@ == enc_sound_stream_head(t),
    {
        let ms = match v {
            Value::Obj(ms) => ms,
            _ => {
                return Err(DecodeError::ExpectedObject);
            },
        };
        let t = Self::decode_members(ms, 0)?;
        proof {
            assert(members_view(*ms).skip(0) =~= members_view(*ms));
            assert(v@ == Val::Obj(members_view(*ms)));
        }
        Ok(t)
    }
}

/// Field-wise equality of two `SoundStreamHead` values (text and payloads by content).
pub open spec fn eq_sound_stream_head(a: SoundStreamHead, b: SoundStreamHead) -> bool {
    &&& eq_sound_rate(a.playback_sound_rate, b.playback_sound_rate)
    &&& eq_sound_size(a.playback_sound_size, b.playback_sound_size)
    &&& eq_sound_type(a.playback_sound_type, b.playback_sound_type)
    &&& eq_audio_coding_format(a.stream_sound_compression, b.stream_sound_compression)
    &&& eq_sound_rate(a.stream_sound_rate, b.stream_sound_rate)
    &&& eq_sound_size(a.stream_sound_size, b.stream_sound_size)
    &&& eq_sound_type(a.stream_sound_type, b.stream_sound_type)
    &&& a.stream_sound_sample_count == b.stream_sound_sample_count
    &&& a.latency_seek == b.latency_seek
}

/// Round trip: every `SoundStreamHead` encoding is well-formed and decodes back
/// only to a field-wise equal value.
#[verifier::rlimit(100)]
#[verifier::spinoff_prover]
pub proof fn lemma_sound_stream_head_round_trip(a: SoundStreamHead, b: SoundStreamHead)
    ensures
        dec_ok_sound_stream_head(enc_sound_stream_head(a)),
        enc_sound_stream_head(a) == enc_sound_stream_head(b) ==> eq_sound_stream_head(a, b),
{
    reveal_strlit("playback_sound_rate");
    reveal_strlit("playback_sound_size");
    reveal_strlit("playback_sound_type");
    reveal_strlit("stream_sound_compression");
    reveal_strlit("stream_sound_rate");
    reveal_strlit("stream_sound_size");
    reveal_strlit("stream_sound_type");
    reveal_strlit("stream_sound_sample_count");
    reveal_strlit("latency_seek");
    assert("latency_seek"@.len() == 12);
    assert("playback_sound_rate"@.len() == 19);
    assert("playback_sound_size"@.len() == 19);
    assert("playback_sound_type"@.len() == 19);
    assert("stream_sound_compression"@.len() == 24);
    assert("stream_sound_rate"@.len() == 17);
    assert("stream_sound_sample_count"@.len() == 25);
    assert("stream_sound_size"@.len() == 17);
    assert("stream_sound_type"@.len() == 17);
    assert("playback_sound_rate"@[15] == 'r');
    assert("playback_sound_size"@[15] == 's');
    assert("playback_sound_rate"@ != "playback_sound_size"@);
    assert("playback_sound_rate"@[15] == 'r');
    assert("playback_sound_type"@[15] == 't');
    assert("playback_sound_rate"@ != "playback_sound_type"@);
    assert("playback_sound_rate"@ != "stream_sound_compression"@);
    assert("playback_sound_rate"@ != "stream_sound_rate"@);
    assert("playback_sound_rate"@ != "stream_sound_size"@);
    assert("playback_sound_rate"@ != "stream_sound_type"@);
    assert("playback_sound_rate"@ != "stream_sound_sample_count"@);
    assert("playback_sound_rate"@ != "latency_seek"@);
    assert("playback_sound_size"@[15] == 's');
    assert("playback_sound_type"@[15] == 't');
    assert("playback_sound_size"@ != "playback_sound_type"@);
    assert("playback_sound_size"@ != "stream_sound_compression"@);
    assert("playback_sound_size"@ != "stream_sound_rate"@);
    assert("playback_sound_size"@ != "stream_sound_size"@);
    assert("playback_sound_size"@ != "stream_sound_type"@);
    assert("playback_sound_size"@ != "stream_sound_sample_count"@);
    assert("playback_sound_size"@ != "latency_seek"@);
    assert("playback_sound_type"@ != "stream_sound_compression"@);
    assert("playback_sound_type"@ != "stream_sound_rate"@);
    assert("playback_sound_type"@ != "stream_sound_size"@);
    assert("playback_sound_type"@ != "stream_sound_type"@);
    assert("playback_sound_type"@ != "stream_sound_sample_count"@);
    assert("playback_sound_type"@ != "latency_seek"@);
    assert("stream_sound_compression"@ != "stream_sound_rate"@);
    assert("stream_sound_compression"@ != "stream_sound_size"@);
    assert("stream_sound_compression"@ != "stream_sound_type"@);
    assert("stream_sound_compression"@ != "stream_sound_sample_count"@);
    assert("stream_sound_compression"@ != "latency_seek"@);
    assert("stream_sound_rate"@[13] == 'r');
    assert("stream_sound_size"@[13] == 's');
    assert("stream_sound_rate"@ != "stream_sound_size"@);
    assert("stream_sound_rate"@[13] == 'r');
    assert("stream_sound_type"@[13] == 't');
    assert("stream_sound_rate"@ != "stream_sound_type"@);
    assert("stream_sound_rate"@ != "stream_sound_sample_count"@);
    assert("stream_sound_rate"@ != "latency_seek"@);
    assert("stream_sound_size"@[13] == 's');
    assert("stream_sound_type"@[13] == 't');
    assert("stream_sound_size"@ != "stream_sound_type"@);
    assert("stream_sound_size"@ != "stream_sound_sample_count"@);
    assert("stream_sound_size"@ != "latency_seek"@);
    assert("stream_sound_type"@ != "stream_sound_sample_count"@);
    assert("stream_sound_type"@ != "latency_seek"@);
    assert("stream_sound_sample_count"@ != "latency_seek"@);
    lemma_sound_rate_round_trip(a.playback_sound_rate, b.playback_sound_rate);
    lemma_sound_rate_round_trip(a.playback_sound_rate, a.playback_sound_rate);
    lemma_sound_rate_round_trip(b.playback_sound_rate, b.playback_sound_rate);
    lemma_sound_size_round_trip(a.playback_sound_size, b.playback_sound_size);
    lemma_sound_size_round_trip(a.playback_sound_size, a.playback_sound_size);
    lemma_sound_size_round_trip(b.playback_sound_size, b.playback_sound_size);
    lemma_sound_type_round_trip(a.playback_sound_type, b.playback_sound_type);
    lemma_sound_type_round_trip(a.playback_sound_type, a.playback_sound_type);
    lemma_sound_type_round_trip(b.playback_sound_type, b.playback_sound_type);
    lemma_audio_coding_format_round_trip(a.stream_sound_compression, b.stream_sound_compression);
    lemma_audio_coding_format_round_trip(a.stream_sound_compression, a.stream_sound_compression);
    lemma_audio_coding_format_round_trip(b.stream_sound_compression, b.stream_sound_compression);
    lemma_sound_rate_round_trip(a.stream_sound_rate, b.stream_sound_rate);
    lemma_sound_rate_round_trip(a.stream_sound_rate, a.stream_sound_rate);
    lemma_sound_rate_round_trip(b.stream_sound_rate, b.stream_sound_rate);
    lemma_sound_size_round_trip(a.stream_sound_size, b.stream_sound_size);
    lemma_sound_size_round_trip(a.stream_sound_size, a.stream_sound_size);
    lemma_sound_size_round_trip(b.stream_sound_size, b.stream_sound_size);
    lemma_sound_type_round_trip(a.stream_sound_type, b.stream_sound_type);
    lemma_sound_type_round_trip(a.stream_sound_type, a.stream_sound_type);
    lemma_sound_type_round_trip(b.stream_sound_type, b.stream_sound_type);
    assert(dec_ok_sound_stream_head_fields(obj_members(enc_sound_stream_head(a))));
    if enc_sound_stream_head(a) == enc_sound_stream_head(b) {
        assert(eq_sound_stream_head(a, b));
    }
}

/// Opts the document into telemetry, optionally password-protected.
#[derive(Clone, Debug, PartialEq, Eq)]
pub struct Telemetry {
    pub password: Option<Vec<u8>>,
}

/// The interchange encoding of a `Telemetry`.
pub open spec fn enc_telemetry(t: Telemetry) -> Val {
    Val::Obj(maybe("password"@, match t.password { Option::Some(x) => Option::Some(Val::Arr(x@.map_values(|y: u8| Val::Int(y as int)))), Option::None => Option::None }))
}

/// Whether `m` is exactly a well-formed `Telemetry` field list.
pub open spec fn dec_ok_telemetry_fields(m: Seq<(Seq<char>, Val)>) -> bool {
    let has_password = m.len() > 0 && m[0].0 == "password"@;
    let j1 = if has_password { 0 + 1int } else { 0 };
    &&& has_password ==> ((m[0].1 is Arr && all_ints(arr_items(m[0].1), 0, u8::MAX as int)))
    &&& m.len() == j1
}

/// Whether `v` is a well-formed `Telemetry` encoding.
pub open spec fn dec_ok_telemetry(v: Val) -> bool {
    v is Obj && dec_ok_telemetry_fields(obj_members(v))
}

/// Every element is a well-formed `Telemetry` encoding.
pub open spec fn all_dec_ok_telemetry(items: Seq<Val>) -> bool {
    forall|k: int| 0 <= k < items.len() ==> dec_ok_telemetry(#[trigger] items[k])
}

impl Telemetry {
    /// Appends this record's members to `ms`.
    #[verifier::loop_isolation(false)]
    #[verifier::rlimit(100)]
    #[verifier::spinoff_prover]
    pub fn encode_members(&self, ms: &mut Vec<Member>)
        ensures
            members_view(*final(ms)) == members_view(*old(ms)) + obj_members(enc_telemetry(*self)),
    {
        if let Some(x) = &self.password {
            let mut arr_0: Vec<Value> = Vec::new();
            let mut j: usize = 0;
            while j < (*x).len()
                invariant
                    j <= (*x)@.len(),
                    arr_0@.len() == j as int,
                    forall|k: int| 0 <= k < j ==> #[trigger] val_view(arr_0@[k]) == Val::Int((*x)@[k] as int),
                decreases (*x)@.len() - j,
            {
                arr_0.push(Value::Int((*x)[j] as i128));
                j = j + 1;
            }
            proof {
                let m2 = (*x)@.map_values(|y: u8| Val::Int(y as int));
                assert(elems_view(arr_0).len() == m2.len());
                assert forall|k: int| 0 <= k < m2.len() implies elems_view(arr_0)[k] == m2[k] by {
                    assert(val_view(arr_0@[k]) == Val::Int((*x)@[k] as int));
                    assert(m2[k] == Val::Int((*x)@[k] as int));
                }
                assert(elems_view(arr_0) =~~= m2);
            }
            push_value(ms, "password", Value::Arr(arr_0));
        }
        proof {
            assert(members_view(*ms) =~~= members_view(*old(ms)) + obj_members(enc_telemetry(*self)));
        }
    }

    /// Encodes to the interchange form.
    pub fn encode(&self) -> (v: Value)
        ensures
            v@ == enc_telemetry(*self),
    {
        let mut ms: Vec<Member> = Vec::new();
        self.encode_members(&mut ms);
        let v = Value::Obj(ms);
        proof {
            assert(members_view(ms) =~= obj_members(enc_telemetry(*self)));
            assert(v@ == Val::Obj(members_view(ms)));
        }
        v
    }

    /// Decodes this record's members from `ms`, starting at `start`;
    /// succeeds exactly on a well-formed field list reaching the end.
    #[verifier::loop_isolation(false)]
    #[verifier::rlimit(100)]
    #[verifier::spinoff_prover]
    pub fn decode_members(ms: &Vec<Member>, start: usize) -> (r: Result<Self, DecodeError>)
        requires
            start as int <= members_view(*ms).len(),
        ensures
            r is Ok <==> dec_ok_telemetry_fields(members_view(*ms).skip(start as int)),
            r matches Ok(t) ==> members_view(*ms).skip(start as int) == obj_members(enc_telemetry(t)),
    {
        let ghost gm = members_view(*ms).skip(start as int);
        proof {
            assert(gm.len() == members_view(*ms).len() - start);
        }
        let mut i: usize = start;
        let x_password: Option<Vec<u8>>;
        if i < ms.len() && key_is(ms, i, "password") {
            if ms.len() <= i {
                return Err(DecodeError::BadField);
            }
            if !key_is(ms, i, "password") {
                return Err(DecodeError::BadField);
            }
            let items_0 = match &ms[i].value {
                Value::Arr(a) => a,
                _ => {
                    return Err(DecodeError::BadField);
                },
            };
            proof {
                assert(members_view(*ms)[i as int].1 == Val::Arr(elems_view(*items_0)));
                assert(arr_items(gm[(i - start) as int].1) == elems_view(*items_0));
            }
            let mut out_0: Vec<u8> = Vec::new();
            let mut j: usize = 0;
            while j < items_0.len()
                invariant
                    j <= items_0@.len(),
                    out_0@.len() == j as int,
                    forall|k: int| 0 <= k < j ==> #[trigger] elems_view(*items_0)[k] == Val::Int(out_0@[k] as int),
                decreases items_0@.len() - j,
            {
                let x: u8 = match &items_0[j] {
                    Value::Int(y) => {
                        if 0 <= *y && *y <= u8::MAX as i128 {
                            *y as u8
                        } else {
                            proof {
                                assert(!({ let q = elems_view(*items_0)[j as int]; q matches Val::Int(z) && 0 <= z <= u8::MAX as int }));
                                assert(!all_ints(elems_view(*items_0), 0, u8::MAX as int));
                            }
                            return Err(DecodeError::OutOfRange);
                        }
                    },
                    _ => {
                        proof {
                            assert(!({ let q = elems_view(*items_0)[j as int]; q matches Val::Int(z) && 0 <= z <= u8::MAX as int }));
                            assert(!all_ints(elems_view(*items_0), 0, u8::MAX as int));
                        }
                        return Err(DecodeError::BadField);
                    },
                };
                out_0.push(x);
                j = j + 1;
            }
            proof {
                assert(elems_view(*items_0) =~~= out_0@.map_values(|y: u8| Val::Int(y as int)));
                assert(all_ints(elems_view(*items_0), 0, u8::MAX as int));
            }
            let inner_password = out_0;
            i = i + 1;
            x_password = Some(inner_password);
        } else {
            x_password = None;
        }
        if i != ms.len() {
            return Err(DecodeError::BadField);
        }
        let t = Telemetry { password: x_password };
        proof {
            assert(members_view(*ms).skip(start as int) =~~= obj_members(enc_telemetry(t)));
        }
        Ok(t)
    }

    /// Decodes from the interchange form; succeeds exactly on well-formed
    /// encodings and then returns the encoded value.
    #[verifier::rlimit(100)]
    #[verifier::spinoff_prover]
    pub fn decode(v: &Value) -> (r: Result<Self, DecodeError>)
        ensures
            r is Ok <==> dec_ok_telemetry(v@),
            r matches Ok(t) ==> v@ == enc_telemetry(t),
    {
        let ms = match v {
            Value::Obj(ms) => ms,
            _ => {
                return Err(DecodeError::ExpectedObject);
            },
        };
        let t = Self::decode_members(ms, 0)?;
        proof {
            assert(members_view(*ms).skip(0) =~= members_view(*ms));
            assert(v@ == Val::Obj(members_view(*ms)));
        }
        Ok(t)
    }
}

/// Field-wise equality of two `Telemetry` values (text and payloads by content).
pub open spec fn eq_telemetry(a: Telemetry, b: Telemetry) -> bool {
    &&& (match (a.password, b.password) { (Option::Some(x), Option::Some(y)) => x@ == y@, (Option::None, Option::None) => true, _ => false })
}

/// Round trip: every `Telemetry` encoding is well-formed and decodes back
/// only to a field-wise equal value.
#[verifier::rlimit(100)]
#[verifier::spinoff_prover]
pub proof fn lemma_telemetry_round_trip(a: Telemetry, b: Telemetry)
    ensures
        dec_ok_telemetry(enc_telemetry(a)),
        enc_telemetry(a) == enc_telemetry(b) ==> eq_telemetry(a, b),
{
    reveal_strlit("password");
    assert("password"@.len() == 8);
    if let Option::Some(xa) = a.password {
        let exa_password = xa@.map_values(|y: u8| Val::Int(y as int));
        assert forall|k: int| 0 <= k < exa_password.len() implies (#[trigger] exa_password[k] matches Val::Int(z) && 0 <= z <= u8::MAX as int) by {
            assert(exa_password[k] == Val::Int(xa@[k] as int));
        }
        assert(all_ints(exa_password, 0, u8::MAX as int));
    }
    if let (Option::Some(xa), Option::Some(xb)) = (a.password, b.password) {
        let ea_password = xa@.map_values(|y: u8| Val::Int(y as int));
        let eb_password = xb@.map_values(|y: u8| Val::Int(y as int));
        if ea_password == eb_password {
            assert(xa@.len() == xb@.len());
            assert forall|k: int| 0 <= k < xa@.len() implies xa@[k] == xb@[k] by {
                assert(ea_password[k] == Val::Int(xa@[k] as int));
                assert(eb_password[k] == Val::Int(xb@[k] as int));
                assert(xa@[k] as int == xb@[k] as int);
            }
            assert(xa@ =~= xb@);
        }
    }
    assert(dec_ok_telemetry_fields(obj_members(enc_telemetry(a))));
    if enc_telemetry(a) == enc_telemetry(b) {
        assert(eq_telemetry(a, b));
    }
}

/// A record whose 16-bit code is outside the known set; its bytes are
/// preserved verbatim so it can be re-emitted unchanged.
#[derive(Clone, Debug, PartialEq, Eq)]
pub struct Unknown {
    pub code: u16,
    pub data: Vec<u8>,
}

/// The interchange encoding of a `Unknown`.
pub open spec fn enc_unknown(t: Unknown) -> Val {
    Val::Obj(seq![("code"@, Val::Int(t.code as int)), ("data"@, Val::Str(hex_of(t.data@)))])
}

/// Whether `m` is exactly a well-formed `Unknown` field list.
pub open spec fn dec_ok_unknown_fields(m: Seq<(Seq<char>, Val)>) -> bool {
    &&& int_field(m, 0, "code"@, 0, u16::MAX as int)
    &&& str_field(m, 1, "data"@) && is_hex_seq(str_at(m, 1))
    &&& m.len() == 2
}

/// Whether `v` is a well-formed `Unknown` encoding.
pub open spec fn dec_ok_unknown(v: Val) -> bool {
    v is Obj && dec_ok_unknown_fields(obj_members(v))
}

/// Every element is a well-formed `Unknown` encoding.
pub open spec fn all_dec_ok_unknown(items: Seq<Val>) -> bool {
    forall|k: int| 0 <= k < items.len() ==> dec_ok_unknown(#[trigger] items[k])
}

impl Unknown {
    /// Appends this record's members to `ms`.
    #[verifier::loop_isolation(false)]
    #[verifier::rlimit(100)]
    #[verifier::spinoff_prover]
    pub fn encode_members(&self, ms: &mut Vec<Member>)
        ensures
            members_view(*final(ms)) == members_view(*old(ms)) + obj_members(enc_unknown(*self)),
    {
        push_int(ms, "code", self.code as i128);
        let hx_1 = hex_encode(&self.data);
        push_str(ms, "data", &hx_1);
        proof {
            assert(members_view(*ms) =~~= members_view(*old(ms)) + obj_members(enc_unknown(*self)));
        }
    }

    /// Encodes to the interchange form.
    pub fn encode(&self) -> (v: Value)
        ensures
            v@ == enc_unknown(*self),
    {
        let mut ms: Vec<Member> = Vec::new();
        self.encode_members(&mut ms);
        let v = Value::Obj(ms);
        proof {
            assert(members_view(ms) =~= obj_members(enc_unknown(*self)));
            assert(v@ == Val::Obj(members_view(ms)));
        }
        v
    }

    /// Decodes this record's members from `ms`, starting at `start`;
    /// succeeds exactly on a well-formed field list reaching the end.
    #[verifier::loop_isolation(false)]
    #[verifier::rlimit(100)]
    #[verifier::spinoff_prover]
    pub fn decode_members(ms: &Vec<Member>, start: usize) -> (r: Result<Self, DecodeError>)
        requires
            start as int <= members_view(*ms).len(),
        ensures
            r is Ok <==> dec_ok_unknown_fields(members_view(*ms).skip(start as int)),
            r matches Ok(t) ==> members_view(*ms).skip(start as int) == obj_members(enc_unknown(t)),
    {
        let ghost gm = members_view(*ms).skip(start as int);
        proof {
            assert(gm.len() == members_view(*ms).len() - start);
        }
        let mut i: usize = start;
        if ms.len() <= i {
            return Err(DecodeError::BadField);
        }
        let x_code: u16 = take_int(ms, i, "code", 0, u16::MAX as i128)? as u16;
        i = i + 1;
        if ms.len() <= i {
            return Err(DecodeError::BadField);
        }
        let s_1 = take_str(ms, i, "data")?;
        let x_data: Vec<u8> = hex_decode(s_1.as_str())?;
        i = i + 1;
        if i != ms.len() {
            return Err(DecodeError::BadField);
        }
        let t = Unknown { code: x_code, data: x_data };
        proof {
            assert(members_view(*ms).skip(start as int) =~~= obj_members(enc_unknown(t)));
        }
        Ok(t)
    }

    /// Decodes from the interchange form; succeeds exactly on well-formed
    /// encodings and then returns the encoded value.
    #[verifier::rlimit(100)]
    #[verifier::spinoff_prover]
    pub fn decode(v: &Value) -> (r: Result<Self, DecodeError>)
        ensures
            r is Ok <==> dec_ok_unknown(v@),
            r matches Ok(t) ==> v@ == enc_unknown(t),
    {
        let ms = match v {
            Value::Obj(ms) => ms,
            _ => {
                return Err(DecodeError::ExpectedObject);
            },
        };
        let t = Self::decode_members(ms, 0)?;
        proof {
            assert(members_view(*ms).skip(0) =~= members_view(*ms));
            assert(v@ == Val::Obj(members_view(*ms)));
        }
        Ok(t)
    }
}

/// Field-wise equality of two `Unknown` values (text and payloads by content).
pub open spec fn eq_unknown(a: Unknown, b: Unknown) -> bool {
    &&& a.code == b.code
    &&& a.data@ == b.data@
}

/// Round trip: every `Unknown` encoding is well-formed and decodes back
/// only to a field-wise equal value.
#[verifier::rlimit(100)]
#[verifier::spinoff_prover]
pub proof fn lemma_unknown_round_trip(a: Unknown, b: Unknown)
    ensures
        dec_ok_unknown(enc_unknown(a)),
        enc_unknown(a) == enc_unknown(b) ==> eq_unknown(a, b),
{
    reveal_strlit("code");
    reveal_strlit("data");
    crate::hex::lemma_hex_round_trip(a.data@);
    crate::hex::lemma_hex_round_trip(b.data@);
    assert(dec_ok_unknown_fields(obj_members(enc_unknown(a))));
    if enc_unknown(a) == enc_unknown(b) {
        assert(eq_unknown(a, b));
    }
}

} // verus!
