//! Text layout metadata.
//!
//! Rendering hints, font layout metrics and the glyph runs of static text
//! blocks.
use vstd::prelude::*;

use crate::value::{DecodeError, Member, Val, Value, all_ints, arr_items, bool_field, elems_view, int_field, key_is, members_view, obj_members, push_bool, push_int, push_value, str_is, take_bool, take_int, val_view};
use crate::basic_types::{StraightSRgba8, dec_ok_straight_srgba8, enc_straight_srgba8, eq_straight_srgba8, lemma_straight_srgba8_round_trip};

verus! {

broadcast use vstd::std_specs::vec::group_vec_axioms, vstd::seq::group_seq_axioms;

/// The glyph renderer a text field asks for.
#[derive(Copy, Clone, Debug, PartialEq, Eq, Hash, Structural)]
pub enum TextRenderer {
    Normal,
    Advanced,
}

/// The symbolic discriminant of a `TextRenderer` variant.
pub open spec fn text_renderer_text(x: TextRenderer) -> Seq<char> {
    match x {
        TextRenderer::Normal => "normal"@,
        TextRenderer::Advanced => "advanced"@,
    }
}

/// The interchange encoding of a `TextRenderer`: its discriminant as text.
pub open spec fn enc_text_renderer(t: TextRenderer) -> Val {
    Val::Str(text_renderer_text(t))
}

/// Whether `v` is the discriminant of some `TextRenderer` variant.
pub open spec fn dec_ok_text_renderer(v: Val) -> bool {
    ||| v == Val::Str("normal"@)
    ||| v == Val::Str("advanced"@)
}

impl TextRenderer {
    /// Encodes to the interchange form.
    pub fn encode(&self) -> (v: Value)
        ensures
            v@ == enc_text_renderer(*self),
    {
        let s: &str = match self {
            TextRenderer::Normal => "normal",
            TextRenderer::Advanced => "advanced",
        };
        Value::Str(s.to_owned())
    }

    /// Decodes from the interchange form; any text outside the closed
    /// variant set is rejected.
    pub fn decode(v: &Value) -> (r: Result<Self, DecodeError>)
        ensures
            r is Ok <==> dec_ok_text_renderer(v@),
            r matches Ok(t) ==> v@ == enc_text_renderer(t),
    {
        let s = match v {
            Value::Str(s) => s,
            _ => {
                return Err(DecodeError::UnknownVariant);
            },
        };
        if str_is(s, "normal") {
            Ok(TextRenderer::Normal)
        } else if str_is(s, "advanced") {
            Ok(TextRenderer::Advanced)
        } else {
            Err(DecodeError::UnknownVariant)
        }
    }
}

/// Field-wise equality of two `TextRenderer` values.
pub open spec fn eq_text_renderer(a: TextRenderer, b: TextRenderer) -> bool {
    a == b
}

/// Round trip: every discriminant is in the closed set and decodes back
/// to the same variant.
pub proof fn lemma_text_renderer_round_trip(a: TextRenderer, b: TextRenderer)
    ensures
        dec_ok_text_renderer(enc_text_renderer(a)),
        enc_text_renderer(a) == enc_text_renderer(b) ==> a == b,
{
    reveal_strlit("normal");
    reveal_strlit("advanced");
    assert("advanced"@.len() == 8);
    assert("normal"@.len() == 6);
    assert("normal"@ != "advanced"@);
}

/// How glyph outlines are fitted to the pixel grid.
#[derive(Copy, Clone, Debug, PartialEq, Eq, Hash, Structural)]
pub enum GridFitting {
    Off,
    Pixel,
    SubPixel,
}

/// The symbolic discriminant of a `GridFitting` variant.
pub open spec fn grid_fitting_text(x: GridFitting) -> Seq<char> {
    match x {
        GridFitting::Off => "off"@,
        GridFitting::Pixel => "pixel"@,
        GridFitting::SubPixel => "sub-pixel"@,
    }
}

/// The interchange encoding of a `GridFitting`: its discriminant as text.
pub open spec fn enc_grid_fitting(t: GridFitting) -> Val {
    Val::Str(grid_fitting_text(t))
}

/// Whether `v` is the discriminant of some `GridFitting` variant.
pub open spec fn dec_ok_grid_fitting(v: Val) -> bool {
    ||| v == Val::Str("off"@)
    ||| v == Val::Str("pixel"@)
    ||| v == Val::Str("sub-pixel"@)
}

impl GridFitting {
    /// Encodes to the interchange form.
    pub fn encode(&self) -> (v: Value)
        ensures
            v@ == enc_grid_fitting(*self),
    {
        let s: &str = match self {
            GridFitting::Off => "off",
            GridFitting::Pixel => "pixel",
            GridFitting::SubPixel => "sub-pixel",
        };
        Value::Str(s.to_owned())
    }

    /// Decodes from the interchange form; any text outside the closed
    /// variant set is rejected.
    pub fn decode(v: &Value) -> (r: Result<Self, DecodeError>)
        ensures
            r is Ok <==> dec_ok_grid_fitting(v@),
            r matches Ok(t) ==> v@ == enc_grid_fitting(t),
    {
        let s = match v {
            Value::Str(s) => s,
            _ => {
                return Err(DecodeError::UnknownVariant);
            },
        };
        if str_is(s, "off") {
            Ok(GridFitting::Off)
        } else if str_is(s, "pixel") {
            Ok(GridFitting::Pixel)
        } else if str_is(s, "sub-pixel") {
            Ok(GridFitting::SubPixel)
        } else {
            Err(DecodeError::UnknownVariant)
        }
    }
}

/// Field-wise equality of two `GridFitting` values.
pub open spec fn eq_grid_fitting(a: GridFitting, b: GridFitting) -> bool {
    a == b
}

/// Round trip: every discriminant is in the closed set and decodes back
/// to the same variant.
pub proof fn lemma_grid_fitting_round_trip(a: GridFitting, b: GridFitting)
    ensures
        dec_ok_grid_fitting(enc_grid_fitting(a)),
        enc_grid_fitting(a) == enc_grid_fitting(b) ==> a == b,
{
    reveal_strlit("off");
    reveal_strlit("pixel");
    reveal_strlit("sub-pixel");
    assert("off"@.len() == 3);
    assert("pixel"@.len() == 5);
    assert("sub-pixel"@.len() == 9);
    assert("off"@ != "pixel"@);
    assert("off"@ != "sub-pixel"@);
    assert("pixel"@ != "sub-pixel"@);
}

/// Paragraph alignment of a dynamic text field.
#[derive(Copy, Clone, Debug, PartialEq, Eq, Hash, Structural)]
pub enum TextAlignment {
    Left,
    Right,
    Center,
    Justify,
}

/// The symbolic discriminant of a `TextAlignment` variant.
pub open spec fn text_alignment_text(x: TextAlignment) -> Seq<char> {
    match x {
        TextAlignment::Left => "left"@,
        TextAlignment::Right => "right"@,
        TextAlignment::Center => "center"@,
        TextAlignment::Justify => "justify"@,
    }
}

/// The interchange encoding of a `TextAlignment`: its discriminant as text.
pub open spec fn enc_text_alignment(t: TextAlignment) -> Val {
    Val::Str(text_alignment_text(t))
}

/// Whether `v` is the discriminant of some `TextAlignment` variant.
pub open spec fn dec_ok_text_alignment(v: Val) -> bool {
    ||| v == Val::Str("left"@)
    ||| v == Val::Str("right"@)
    ||| v == Val::Str("center"@)
    ||| v == Val::Str("justify"@)
}

impl TextAlignment {
    /// Encodes to the interchange form.
    pub fn encode(&self) -> (v: Value)
        ensures
            v@ == enc_text_alignment(*self),
    {
        let s: &str = match self {
            TextAlignment::Left => "left",
            TextAlignment::Right => "right",
            TextAlignment::Center => "center",
            TextAlignment::Justify => "justify",
        };
        Value::Str(s.to_owned())
    }

    /// Decodes from the interchange form; any text outside the closed
    /// variant set is rejected.
    pub fn decode(v: &Value) -> (r: Result<Self, DecodeError>)
        ensures
            r is Ok <==> dec_ok_text_alignment(v@),
            r matches Ok(t) ==> v@ == enc_text_alignment(t),
    {
        let s = match v {
            Value::Str(s) => s,
            _ => {
                return Err(DecodeError::UnknownVariant);
            },
        };
        if str_is(s, "left") {
            Ok(TextAlignment::Left)
        } else if str_is(s, "right") {
            Ok(TextAlignment::Right)
        } else if str_is(s, "center") {
            Ok(TextAlignment::Center)
        } else if str_is(s, "justify") {
            Ok(TextAlignment::Justify)
        } else {
            Err(DecodeError::UnknownVariant)
        }
    }
}

/// Field-wise equality of two `TextAlignment` values.
pub open spec fn eq_text_alignment(a: TextAlignment, b: TextAlignment) -> bool {
    a == b
}

/// Round trip: every discriminant is in the closed set and decodes back
/// to the same variant.
pub proof fn lemma_text_alignment_round_trip(a: TextAlignment, b: TextAlignment)
    ensures
        dec_ok_text_alignment(enc_text_alignment(a)),
        enc_text_alignment(a) == enc_text_alignment(b) ==> a == b,
{
    reveal_strlit("left");
    reveal_strlit("right");
    reveal_strlit("center");
    reveal_strlit("justify");
    assert("center"@.len() == 6);
    assert("justify"@.len() == 7);
    assert("left"@.len() == 4);
    assert("right"@.len() == 5);
    assert("left"@ != "right"@);
    assert("left"@ != "center"@);
    assert("left"@ != "justify"@);
    assert("right"@ != "center"@);
    assert("right"@ != "justify"@);
    assert("center"@ != "justify"@);
}

/// The stroke-weight hint of a continuous-stroke-modulation table.
#[derive(Copy, Clone, Debug, PartialEq, Eq, Hash, Structural)]
pub enum CsmTableHint {
    Thin,
    Medium,
    Thick,
}

/// The symbolic discriminant of a `CsmTableHint` variant.
pub open spec fn csm_table_hint_text(x: CsmTableHint) -> Seq<char> {
    match x {
        CsmTableHint::Thin => "thin"@,
        CsmTableHint::Medium => "medium"@,
        CsmTableHint::Thick => "thick"@,
    }
}

/// The interchange encoding of a `CsmTableHint`: its discriminant as text.
pub open spec fn enc_csm_table_hint(t: CsmTableHint) -> Val {
    Val::Str(csm_table_hint_text(t))
}

/// Whether `v` is the discriminant of some `CsmTableHint` variant.
pub open spec fn dec_ok_csm_table_hint(v: Val) -> bool {
    ||| v == Val::Str("thin"@)
    ||| v == Val::Str("medium"@)
    ||| v == Val::Str("thick"@)
}

impl CsmTableHint {
    /// Encodes to the interchange form.
    pub fn encode(&self) -> (v: Value)
        ensures
            v@ == enc_csm_table_hint(*self),
    {
        let s: &str = match self {
            CsmTableHint::Thin => "thin",
            CsmTableHint::Medium => "medium",
            CsmTableHint::Thick => "thick",
        };
        Value::Str(s.to_owned())
    }

    /// Decodes from the interchange form; any text outside the closed
    /// variant set is rejected.
    pub fn decode(v: &Value) -> (r: Result<Self, DecodeError>)
        ensures
            r is Ok <==> dec_ok_csm_table_hint(v@),
            r matches Ok(t) ==> v@ == enc_csm_table_hint(t),
    {
        let s = match v {
            Value::Str(s) => s,
            _ => {
                return Err(DecodeError::UnknownVariant);
            },
        };
        if str_is(s, "thin") {
            Ok(CsmTableHint::Thin)
        } else if str_is(s, "medium") {
            Ok(CsmTableHint::Medium)
        } else if str_is(s, "thick") {
            Ok(CsmTableHint::Thick)
        } else {
            Err(DecodeError::UnknownVariant)
        }
    }
}

/// Field-wise equality of two `CsmTableHint` values.
pub open spec fn eq_csm_table_hint(a: CsmTableHint, b: CsmTableHint) -> bool {
    a == b
}

/// Round trip: every discriminant is in the closed set and decodes back
/// to the same variant.
pub proof fn lemma_csm_table_hint_round_trip(a: CsmTableHint, b: CsmTableHint)
    ensures
        dec_ok_csm_table_hint(enc_csm_table_hint(a)),
        enc_csm_table_hint(a) == enc_csm_table_hint(b) ==> a == b,
{
    reveal_strlit("thin");
    reveal_strlit("medium");
    reveal_strlit("thick");
    assert("medium"@.len() == 6);
    assert("thick"@.len() == 5);
    assert("thin"@.len() == 4);
    assert("thin"@ != "medium"@);
    assert("thin"@ != "thick"@);
    assert("medium"@ != "thick"@);
}

/// One glyph alignment zone of an advanced-rendering font.
#[derive(Copy, Clone, Debug, PartialEq, Eq, Hash, Structural)]
pub struct FontAlignmentZone {
    pub zone_x: i16,
    pub zone_size_x: i16,
    pub zone_y: i16,
    pub zone_size_y: i16,
    pub has_x: bool,
    pub has_y: bool,
}

/// The interchange encoding of a `FontAlignmentZone`.
pub open spec fn enc_font_alignment_zone(t: FontAlignmentZone) -> Val {
    Val::Obj(seq![("zone_x"@, Val::Int(t.zone_x as int)), ("zone_size_x"@, Val::Int(t.zone_size_x as int)), ("zone_y"@, Val::Int(t.zone_y as int)), ("zone_size_y"@, Val::Int(t.zone_size_y as int)), ("has_x"@, Val::Bool(t.has_x)), ("has_y"@, Val::Bool(t.has_y))])
}

/// Whether `m` is exactly a well-formed `FontAlignmentZone` field list.
pub open spec fn dec_ok_font_alignment_zone_fields(m: Seq<(Seq<char>, Val)>) -> bool {
    &&& int_field(m, 0, "zone_x"@, i16::MIN as int, i16::MAX as int)
    &&& int_field(m, 1, "zone_size_x"@, i16::MIN as int, i16::MAX as int)
    &&& int_field(m, 2, "zone_y"@, i16::MIN as int, i16::MAX as int)
    &&& int_field(m, 3, "zone_size_y"@, i16::MIN as int, i16::MAX as int)
    &&& bool_field(m, 4, "has_x"@)
    &&& bool_field(m, 5, "has_y"@)
    &&& m.len() == 6
}

/// Whether `v` is a well-formed `FontAlignmentZone` encoding.
pub open spec fn dec_ok_font_alignment_zone(v: Val) -> bool {
    v is Obj && dec_ok_font_alignment_zone_fields(obj_members(v))
}

/// Every element is a well-formed `FontAlignmentZone` encoding.
pub open spec fn all_dec_ok_font_alignment_zone(items: Seq<Val>) -> bool {
    forall|k: int| 0 <= k < items.len() ==> dec_ok_font_alignment_zone(#[trigger] items[k])
}

impl FontAlignmentZone {
    /// Appends this record's members to `ms`.
    #[verifier::loop_isolation(false)]
    #[verifier::rlimit(100)]
    #[verifier::spinoff_prover]
    pub fn encode_members(&self, ms: &mut Vec<Member>)
        ensures
            members_view(*final(ms)) == members_view(*old(ms)) + obj_members(enc_font_alignment_zone(*self)),
    {
        push_int(ms, "zone_x", self.zone_x as i128);
        push_int(ms, "zone_size_x", self.zone_size_x as i128);
        push_int(ms, "zone_y", self.zone_y as i128);
        push_int(ms, "zone_size_y", self.zone_size_y as i128);
        push_bool(ms, "has_x", self.has_x);
        push_bool(ms, "has_y", self.has_y);
        proof {
            assert(members_view(*ms) =~~= members_view(*old(ms)) + obj_members(enc_font_alignment_zone(*self)));
        }
    }

    /// Encodes to the interchange form.
    pub fn encode(&self) -> (v: Value)
        ensures
            v@ == enc_font_alignment_zone(*self),
    {
        let mut ms: Vec<Member> = Vec::new();
        self.encode_members(&mut ms);
        let v = Value::Obj(ms);
        proof {
            assert(members_view(ms) =~= obj_members(enc_font_alignment_zone(*self)));
            assert(v@ == Val::Obj(members_view(ms)));
        }
        v
    }

    /// Decodes this record's members from `ms`, starting at `start`;
    /// succeeds exactly on a well-formed field list reaching the end.
    #[verifier::loop_isolation(false)]
    #[verifier::rlimit(100)]
    #[verifier::spinoff_prover]
    pub fn decode_members(ms: &Vec<Member>, start: usize) -> (r: Result<Self, DecodeError>)
        requires
            start as int <= members_view(*ms).len(),
        ensures
            r is Ok <==> dec_ok_font_alignment_zone_fields(members_view(*ms).skip(start as int)),
            r matches Ok(t) ==> members_view(*ms).skip(start as int) == obj_members(enc_font_alignment_zone(t)),
    {
        let ghost gm = members_view(*ms).skip(start as int);
        proof {
            assert(gm.len() == members_view(*ms).len() - start);
        }
        let mut i: usize = start;
        if ms.len() <= i {
            return Err(DecodeError::BadField);
        }
        let x_zone_x: i16 = take_int(ms, i, "zone_x", i16::MIN as i128, i16::MAX as i128)? as i16;
        i = i + 1;
        if ms.len() <= i {
            return Err(DecodeError::BadField);
        }
        let x_zone_size_x: i16 = take_int(ms, i, "zone_size_x", i16::MIN as i128, i16::MAX as i128)? as i16;
        i = i + 1;
        if ms.len() <= i {
            return Err(DecodeError::BadField);
        }
        let x_zone_y: i16 = take_int(ms, i, "zone_y", i16::MIN as i128, i16::MAX as i128)? as i16;
        i = i + 1;
        if ms.len() <= i {
            return Err(DecodeError::BadField);
        }
        let x_zone_size_y: i16 = take_int(ms, i, "zone_size_y", i16::MIN as i128, i16::MAX as i128)? as i16;
        i = i + 1;
        if ms.len() <= i {
            return Err(DecodeError::BadField);
        }
        let x_has_x: bool = take_bool(ms, i, "has_x")?;
        i = i + 1;
        if ms.len() <= i {
            return Err(DecodeError::BadField);
        }
        let x_has_y: bool = take_bool(ms, i, "has_y")?;
        i = i + 1;
        if i != ms.len() {
            return Err(DecodeError::BadField);
        }
        let t = FontAlignmentZone { zone_x: x_zone_x, zone_size_x: x_zone_size_x, zone_y: x_zone_y, zone_size_y: x_zone_size_y, has_x: x_has_x, has_y: x_has_y };
        proof {
            assert(members_view(*ms).skip(start as int) =~~= obj_members(enc_font_alignment_zone(t)));
        }
        Ok(t)
    }

    /// Decodes from the interchange form; succeeds exactly on well-formed
    /// encodings and then returns the encoded value.
    #[verifier::rlimit(100)]
    #[verifier::spinoff_prover]
    pub fn decode(v: &Value) -> (r: Result<Self, DecodeError>)
        ensures
            r is Ok <==> dec_ok_font_alignment_zone(v@),
            r matches Ok(t) ==> v@ == enc_font_alignment_zone(t),
    {
        let ms = match v {
            Value::Obj(ms) => ms,
            _ => {
                return Err(DecodeError::ExpectedObject);
            },
        };
        let t = Self::decode_members(ms, 0)?;
        proof {
            assert(members_view(*ms).skip(0) =~= members_view(*ms));
            assert(v@ == Val::Obj(members_view(*ms)));
        }
        Ok(t)
    }
}

/// Field-wise equality of two `FontAlignmentZone` values (text and payloads by content).
pub open spec fn eq_font_alignment_zone(a: FontAlignmentZone, b: FontAlignmentZone) -> bool {
    &&& a.zone_x == b.zone_x
    &&& a.zone_size_x == b.zone_size_x
    &&& a.zone_y == b.zone_y
    &&& a.zone_size_y == b.zone_size_y
    &&& a.has_x == b.has_x
    &&& a.has_y == b.has_y
}

/// Round trip: every `FontAlignmentZone` encoding is well-formed and decodes back
/// only to a field-wise equal value.
#[verifier::rlimit(100)]
#[verifier::spinoff_prover]
pub proof fn lemma_font_alignment_zone_round_trip(a: FontAlignmentZone, b: FontAlignmentZone)
    ensures
        dec_ok_font_alignment_zone(enc_font_alignment_zone(a)),
        enc_font_alignment_zone(a) == enc_font_alignment_zone(b) ==> eq_font_alignment_zone(a, b),
{
    reveal_strlit("zone_x");
    reveal_strlit("zone_size_x");
    reveal_strlit("zone_y");
    reveal_strlit("zone_size_y");
    reveal_strlit("has_x");
    reveal_strlit("has_y");

    assert(dec_ok_font_alignment_zone_fields(obj_members(enc_font_alignment_zone(a))));
    if enc_font_alignment_zone(a) == enc_font_alignment_zone(b) {
        assert(eq_font_alignment_zone(a, b));
    }
}

/// Layout metrics of a font: vertical extents and per-glyph advances.
#[derive(Clone, Debug, PartialEq, Eq)]
pub struct FontLayout {
    pub ascent: u16,
    pub descent: u16,
    pub leading: i16,
    pub advances: Vec<u16>,
}

/// The interchange encoding of a `FontLayout`.
pub open spec fn enc_font_layout(t: FontLayout) -> Val {
    Val::Obj(seq![("ascent"@, Val::Int(t.ascent as int)), ("descent"@, Val::Int(t.descent as int)), ("leading"@, Val::Int(t.leading as int)), ("advances"@, Val::Arr(t.advances@.map_values(|y: u16| Val::Int(y as int))))])
}

/// Whether `m` is exactly a well-formed `FontLayout` field list.
pub open spec fn dec_ok_font_layout_fields(m: Seq<(Seq<char>, Val)>) -> bool {
    &&& int_field(m, 0, "ascent"@, 0, u16::MAX as int)
    &&& int_field(m, 1, "descent"@, 0, u16::MAX as int)
    &&& int_field(m, 2, "leading"@, i16::MIN as int, i16::MAX as int)
    &&& m[3].0 == "advances"@ && (m[3].1 is Arr && all_ints(arr_items(m[3].1), 0, u16::MAX as int))
    &&& m.len() == 4
}

/// Whether `v` is a well-formed `FontLayout` encoding.
pub open spec fn dec_ok_font_layout(v: Val) -> bool {
    v is Obj && dec_ok_font_layout_fields(obj_members(v))
}

/// Every element is a well-formed `FontLayout` encoding.
pub open spec fn all_dec_ok_font_layout(items: Seq<Val>) -> bool {
    forall|k: int| 0 <= k < items.len() ==> dec_ok_font_layout(#[trigger] items[k])
}

impl FontLayout {
    /// Appends this record's members to `ms`.
    #[verifier::loop_isolation(false)]
    #[verifier::rlimit(100)]
    #[verifier::spinoff_prover]
    pub fn encode_members(&self, ms: &mut Vec<Member>)
        ensures
            members_view(*final(ms)) == members_view(*old(ms)) + obj_members(enc_font_layout(*self)),
    {
        push_int(ms, "ascent", self.ascent as i128);
        push_int(ms, "descent", self.descent as i128);
        push_int(ms, "leading", self.leading as i128);
        let mut arr_3: Vec<Value> = Vec::new();
        let mut j: usize = 0;
        while j < self.advances.len()
            invariant
                j <= self.advances@.len(),
                arr_3@.len() == j as int,
                forall|k: int| 0 <= k < j ==> #[trigger] val_view(arr_3@[k]) == Val::Int(self.advances@[k] as int),
            decreases self.advances@.len() - j,
        {
            arr_3.push(Value::Int(self.advances[j] as i128));
            j = j + 1;
        }
        proof {
            let m2 = self.advances@.map_values(|y: u16| Val::Int(y as int));
            assert(elems_view(arr_3).len() == m2.len());
            assert forall|k: int| 0 <= k < m2.len() implies elems_view(arr_3)[k] == m2[k] by {
                assert(val_view(arr_3@[k]) == Val::Int(self.advances@[k] as int));
                assert(m2[k] == Val::Int(self.advances@[k] as int));
            }
            assert(elems_view(arr_3) =~~= m2);
        }
        push_value(ms, "advances", Value::Arr(arr_3));
        proof {
            assert(members_view(*ms) =~~= members_view(*old(ms)) + obj_members(enc_font_layout(*self)));
        }
    }

    /// Encodes to the interchange form.
    pub fn encode(&self) -> (v: Value)
        ensures
            v@ == enc_font_layout(*self),
    {
        let mut ms: Vec<Member> = Vec::new();
        self.encode_members(&mut ms);
        let v = Value::Obj(ms);
        proof {
            assert(members_view(ms) =~= obj_members(enc_font_layout(*self)));
            assert(v@ == Val::Obj(members_view(ms)));
        }
        v
    }

    /// Decodes this record's members from `ms`, starting at `start`;
    /// succeeds exactly on a well-formed field list reaching the end.
    #[verifier::loop_isolation(false)]
    #[verifier::rlimit(100)]
    #[verifier::spinoff_prover]
    pub fn decode_members(ms: &Vec<Member>, start: usize) -> (r: Result<Self, DecodeError>)
        requires
            start as int <= members_view(*ms).len(),
        ensures
            r is Ok <==> dec_ok_font_layout_fields(members_view(*ms).skip(start as int)),
            r matches Ok(t) ==> members_view(*ms).skip(start as int) == obj_members(enc_font_layout(t)),
    {
        let ghost gm = members_view(*ms).skip(start as int);
        proof {
            assert(gm.len() == members_view(*ms).len() - start);
        }
        let mut i: usize = start;
        if ms.len() <= i {
            return Err(DecodeError::BadField);
        }
        let x_ascent: u16 = take_int(ms, i, "ascent", 0, u16::MAX as i128)? as u16;
        i = i + 1;
        if ms.len() <= i {
            return Err(DecodeError::BadField);
        }
        let x_descent: u16 = take_int(ms, i, "descent", 0, u16::MAX as i128)? as u16;
        i = i + 1;
        if ms.len() <= i {
            return Err(DecodeError::BadField);
        }
        let x_leading: i16 = take_int(ms, i, "leading", i16::MIN as i128, i16::MAX as i128)? as i16;
        i = i + 1;
        if ms.len() <= i {
            return Err(DecodeError::BadField);
        }
        if !key_is(ms, i, "advances") {
            return Err(DecodeError::BadField);
        }
        let items_3 = match &ms[i].value {
            Value::Arr(a) => a,
            _ => {
                return Err(DecodeError::BadField);
            },
        };
        proof {
            assert(members_view(*ms)[i as int].1 == Val::Arr(elems_view(*items_3)));
            assert(arr_items(gm[(i - start) as int].1) == elems_view(*items_3));
        }
        let mut out_3: Vec<u16> = Vec::new();
        let mut j: usize = 0;
        while j < items_3.len()
            invariant
                j <= items_3@.len(),
                out_3@.len() == j as int,
                forall|k: int| 0 <= k < j ==> #[trigger] elems_view(*items_3)[k] == Val::Int(out_3@[k] as int),
            decreases items_3@.len() - j,
        {
            let x: u16 = match &items_3[j] {
                Value::Int(y) => {
                    if 0 <= *y && *y <= u16::MAX as i128 {
                        *y as u16
                    } else {
                        proof {
                            assert(!({ let q = elems_view(*items_3)[j as int]; q matches Val::Int(z) && 0 <= z <= u16::MAX as int }));
                            assert(!all_ints(elems_view(*items_3), 0, u16::MAX as int));
                        }
                        return Err(DecodeError::OutOfRange);
                    }
                },
                _ => {
                    proof {
                        assert(!({ let q = elems_view(*items_3)[j as int]; q matches Val::Int(z) && 0 <= z <= u16::MAX as int }));
                        assert(!all_ints(elems_view(*items_3), 0, u16::MAX as int));
                    }
                    return Err(DecodeError::BadField);
                },
            };
            out_3.push(x);
            j = j + 1;
        }
        proof {
            assert(elems_view(*items_3) =~~= out_3@.map_values(|y: u16| Val::Int(y as int)));
            assert(all_ints(elems_view(*items_3), 0, u16::MAX as int));
        }
        let x_advances = out_3;
        i = i + 1;
        if i != ms.len() {
            return Err(DecodeError::BadField);
        }
        let t = FontLayout { ascent: x_ascent, descent: x_descent, leading: x_leading, advances: x_advances };
        proof {
            assert(members_view(*ms).skip(start as int) =~~= obj_members(enc_font_layout(t)));
        }
        Ok(t)
    }

    /// Decodes from the interchange form; succeeds exactly on well-formed
    /// encodings and then returns the encoded value.
    #[verifier::rlimit(100)]
    #[verifier::spinoff_prover]
    pub fn decode(v: &Value) -> (r: Result<Self, DecodeError>)
        ensures
            r is Ok <==> dec_ok_font_layout(v@),
            r matches Ok(t) ==> v@ == enc_font_layout(t),
    {
        let ms = match v {
            Value::Obj(ms) => ms,
            _ => {
                return Err(DecodeError::ExpectedObject);
            },
        };
        let t = Self::decode_members(ms, 0)?;
        proof {
            assert(members_view(*ms).skip(0) =~= members_view(*ms));
            assert(v@ == Val::Obj(members_view(*ms)));
        }
        Ok(t)
    }
}

/// Field-wise equality of two `FontLayout` values (text and payloads by content).
pub open spec fn eq_font_layout(a: FontLayout, b: FontLayout) -> bool {
    &&& a.ascent == b.ascent
    &&& a.descent == b.descent
    &&& a.leading == b.leading
    &&& a.advances@ == b.advances@
}

/// Round trip: every `FontLayout` encoding is well-formed and decodes back
/// only to a field-wise equal value.
#[verifier::rlimit(100)]
#[verifier::spinoff_prover]
pub proof fn lemma_font_layout_round_trip(a: FontLayout, b: FontLayout)
    ensures
        dec_ok_font_layout(enc_font_layout(a)),
        enc_font_layout(a) == enc_font_layout(b) ==> eq_font_layout(a, b),
{
    reveal_strlit("ascent");
    reveal_strlit("descent");
    reveal_strlit("leading");
    reveal_strlit("advances");
    {
        let ea_advances = a.advances@.map_values(|y: u16| Val::Int(y as int));
        let eb_advances = b.advances@.map_values(|y: u16| Val::Int(y as int));
        assert forall|k: int| 0 <= k < ea_advances.len() implies (#[trigger] ea_advances[k] matches Val::Int(z) && 0 <= z <= u16::MAX as int) by {
            assert(ea_advances[k] == Val::Int(a.advances@[k] as int));
        }
        assert(all_ints(ea_advances, 0, u16::MAX as int));
        if ea_advances == eb_advances {
            assert forall|k: int| 0 <= k < a.advances@.len() implies a.advances@[k] == b.advances@[k] by {
                assert(ea_advances[k] == Val::Int(a.advances@[k] as int));
                assert(eb_advances[k] == Val::Int(b.advances@[k] as int));
                assert(a.advances@[k] as int == b.advances@[k] as int);
            }
            assert(a.advances@ =~= b.advances@);
        }
    }
    assert(dec_ok_font_layout_fields(obj_members(enc_font_layout(a))));
    if enc_font_layout(a) == enc_font_layout(b) {
        assert(eq_font_layout(a, b));
    }
}

/// One glyph of a text record: a glyph index and its advance.
#[derive(Copy, Clone, Debug, PartialEq, Eq, Hash, Structural)]
pub struct GlyphEntry {
    pub index: usize,
    pub advance: i32,
}

/// The interchange encoding of a `GlyphEntry`.
pub open spec fn enc_glyph_entry(t: GlyphEntry) -> Val {
    Val::Obj(seq![("index"@, Val::Int(t.index as int)), ("advance"@, Val::Int(t.advance as int))])
}

/// Whether `m` is exactly a well-formed `GlyphEntry` field list.
pub open spec fn dec_ok_glyph_entry_fields(m: Seq<(Seq<char>, Val)>) -> bool {
    &&& int_field(m, 0, "index"@, 0, usize::MAX as int)
    &&& int_field(m, 1, "advance"@, i32::MIN as int, i32::MAX as int)
    &&& m.len() == 2
}

/// Whether `v` is a well-formed `GlyphEntry` encoding.
pub open spec fn dec_ok_glyph_entry(v: Val) -> bool {
    v is Obj && dec_ok_glyph_entry_fields(obj_members(v))
}

/// Every element is a well-formed `GlyphEntry` encoding.
pub open spec fn all_dec_ok_glyph_entry(items: Seq<Val>) -> bool {
    forall|k: int| 0 <= k < items.len() ==> dec_ok_glyph_entry(#[trigger] items[k])
}

impl GlyphEntry {
    /// Appends this record's members to `ms`.
    #[verifier::loop_isolation(false)]
    #[verifier::rlimit(100)]
    #[verifier::spinoff_prover]
    pub fn encode_members(&self, ms: &mut Vec<Member>)
        ensures
            members_view(*final(ms)) == members_view(*old(ms)) + obj_members(enc_glyph_entry(*self)),
    {
        push_int(ms, "index", self.index as i128);
        push_int(ms, "advance", self.advance as i128);
        proof {
            assert(members_view(*ms) =~~= members_view(*old(ms)) + obj_members(enc_glyph_entry(*self)));
        }
    }

    /// Encodes to the interchange form.
    pub fn encode(&self) -> (v: Value)
        ensures
            v@ == enc_glyph_entry(*self),
    {
        let mut ms: Vec<Member> = Vec::new();
        self.encode_members(&mut ms);
        let v = Value::Obj(ms);
        proof {
            assert(members_view(ms) =~= obj_members(enc_glyph_entry(*self)));
            assert(v@ == Val::Obj(members_view(ms)));
        }
        v
    }

    /// Decodes this record's members from `ms`, starting at `start`;
    /// succeeds exactly on a well-formed field list reaching the end.
    #[verifier::loop_isolation(false)]
    #[verifier::rlimit(100)]
    #[verifier::spinoff_prover]
    pub fn decode_members(ms: &Vec<Member>, start: usize) -> (r: Result<Self, DecodeError>)
        requires
            start as int <= members_view(*ms).len(),
        ensures
            r is Ok <==> dec_ok_glyph_entry_fields(members_view(*ms).skip(start as int)),
            r matches Ok(t) ==> members_view(*ms).skip(start as int) == obj_members(enc_glyph_entry(t)),
    {
        let ghost gm = members_view(*ms).skip(start as int);
        proof {
            assert(gm.len() == members_view(*ms).len() - start);
        }
        let mut i: usize = start;
        if ms.len() <= i {
            return Err(DecodeError::BadField);
        }
        let x_index: usize = take_int(ms, i, "index", 0, usize::MAX as i128)? as usize;
        i = i + 1;
        if ms.len() <= i {
            return Err(DecodeError::BadField);
        }
        let x_advance: i32 = take_int(ms, i, "advance", i32::MIN as i128, i32::MAX as i128)? as i32;
        i = i + 1;
        if i != ms.len() {
            return Err(DecodeError::BadField);
        }
        let t = GlyphEntry { index: x_index, advance: x_advance };
        proof {
            assert(members_view(*ms).skip(start as int) =~~= obj_members(enc_glyph_entry(t)));
        }
        Ok(t)
    }

    /// Decodes from the interchange form; succeeds exactly on well-formed
    /// encodings and then returns the encoded value.
    #[verifier::rlimit(100)]
    #[verifier::spinoff_prover]
    pub fn decode(v: &Value) -> (r: Result<Self, DecodeError>)
        ensures
            r is Ok <==> dec_ok_glyph_entry(v@),
            r matches Ok(t) ==> v@ == enc_glyph_entry(t),
    {
        let ms = match v {
            Value::Obj(ms) => ms,
            _ => {
                return Err(DecodeError::ExpectedObject);
            },
        };
        let t = Self::decode_members(ms, 0)?;
        proof {
            assert(members_view(*ms).skip(0) =~= members_view(*ms));
            assert(v@ == Val::Obj(members_view(*ms)));
        }
        Ok(t)
    }
}

/// Field-wise equality of two `GlyphEntry` values (text and payloads by content).
pub open spec fn eq_glyph_entry(a: GlyphEntry, b: GlyphEntry) -> bool {
    &&& a.index == b.index
    &&& a.advance == b.advance
}

/// Round trip: every `GlyphEntry` encoding is well-formed and decodes back
/// only to a field-wise equal value.
#[verifier::rlimit(100)]
#[verifier::spinoff_prover]
pub proof fn lemma_glyph_entry_round_trip(a: GlyphEntry, b: GlyphEntry)
    ensures
        dec_ok_glyph_entry(enc_glyph_entry(a)),
        enc_glyph_entry(a) == enc_glyph_entry(b) ==> eq_glyph_entry(a, b),
{
    reveal_strlit("index");
    reveal_strlit("advance");

    assert(dec_ok_glyph_entry_fields(obj_members(enc_glyph_entry(a))));
    if enc_glyph_entry(a) == enc_glyph_entry(b) {
        assert(eq_glyph_entry(a, b));
    }
}

/// One run of glyphs in a static text block, with the style under
/// which they are drawn.
#[derive(Clone, Debug, PartialEq, Eq)]
pub struct TextRecord {
    pub font_id: u16,
    pub color: StraightSRgba8,
    pub offset_x: i16,
    pub offset_y: i16,
    pub font_size: u16,
    pub entries: Vec<GlyphEntry>,
}

/// The interchange encoding of a `TextRecord`.
pub open spec fn enc_text_record(t: TextRecord) -> Val {
    Val::Obj(seq![("font_id"@, Val::Int(t.font_id as int)), ("color"@, enc_straight_srgba8(t.color)), ("offset_x"@, Val::Int(t.offset_x as int)), ("offset_y"@, Val::Int(t.offset_y as int)), ("font_size"@, Val::Int(t.font_size as int)), ("entries"@, Val::Arr(t.entries@.map_values(|y: GlyphEntry| enc_glyph_entry(y))))])
}

/// Whether `m` is exactly a well-formed `TextRecord` field list.
pub open spec fn dec_ok_text_record_fields(m: Seq<(Seq<char>, Val)>) -> bool {
    &&& int_field(m, 0, "font_id"@, 0, u16::MAX as int)
    &&& m[1].0 == "color"@ && dec_ok_straight_srgba8(m[1].1)
    &&& int_field(m, 2, "offset_x"@, i16::MIN as int, i16::MAX as int)
    &&& int_field(m, 3, "offset_y"@, i16::MIN as int, i16::MAX as int)
    &&& int_field(m, 4, "font_size"@, 0, u16::MAX as int)
    &&& m[5].0 == "entries"@ && (m[5].1 is Arr && all_dec_ok_glyph_entry(arr_items(m[5].1)))
    &&& m.len() == 6
}

/// Whether `v` is a well-formed `TextRecord` encoding.
pub open spec fn dec_ok_text_record(v: Val) -> bool {
    v is Obj && dec_ok_text_record_fields(obj_members(v))
}

/// Every element is a well-formed `TextRecord` encoding.
pub open spec fn all_dec_ok_text_record(items: Seq<Val>) -> bool {
    forall|k: int| 0 <= k < items.len() ==> dec_ok_text_record(#[trigger] items[k])
}

impl TextRecord {
    /// Appends this record's members to `ms`.
    #[verifier::loop_isolation(false)]
    #[verifier::rlimit(100)]
    #[verifier::spinoff_prover]
    pub fn encode_members(&self, ms: &mut Vec<Member>)
        ensures
            members_view(*final(ms)) == members_view(*old(ms)) + obj_members(enc_text_record(*self)),
    {
        push_int(ms, "font_id", self.font_id as i128);
        push_value(ms, "color", self.color.encode());
        push_int(ms, "offset_x", self.offset_x as i128);
        push_int(ms, "offset_y", self.offset_y as i128);
        push_int(ms, "font_size", self.font_size as i128);
        let mut arr_5: Vec<Value> = Vec::new();
        let mut j: usize = 0;
        while j < self.entries.len()
            invariant
                j <= self.entries@.len(),
                arr_5@.len() == j as int,
                forall|k: int| 0 <= k < j ==> #[trigger] val_view(arr_5@[k]) == enc_glyph_entry(self.entries@[k]),
            decreases self.entries@.len() - j,
        {
            arr_5.push(self.entries[j].encode());
            j = j + 1;
        }
        proof {
            let m2 = self.entries@.map_values(|y: GlyphEntry| enc_glyph_entry(y));
            assert(elems_view(arr_5).len() == m2.len());
            assert forall|k: int| 0 <= k < m2.len() implies elems_view(arr_5)[k] == m2[k] by {
                assert(val_view(arr_5@[k]) == enc_glyph_entry(self.entries@[k]));
                assert(m2[k] == enc_glyph_entry(self.entries@[k]));
            }
            assert(elems_view(arr_5) =~~= m2);
        }
        push_value(ms, "entries", Value::Arr(arr_5));
        proof {
            assert(members_view(*ms) =~~= members_view(*old(ms)) + obj_members(enc_text_record(*self)));
        }
    }

    /// Encodes to the interchange form.
    pub fn encode(&self) -> (v: Value)
        ensures
            v@ == enc_text_record(*self),
    {
        let mut ms: Vec<Member> = Vec::new();
        self.encode_members(&mut ms);
        let v = Value::Obj(ms);
        proof {
            assert(members_view(ms) =~= obj_members(enc_text_record(*self)));
            assert(v@ == Val::Obj(members_view(ms)));
        }
        v
    }

    /// Decodes this record's members from `ms`, starting at `start`;
    /// succeeds exactly on a well-formed field list reaching the end.
    #[verifier::loop_isolation(false)]
    #[verifier::rlimit(100)]
    #[verifier::spinoff_prover]
    pub fn decode_members(ms: &Vec<Member>, start: usize) -> (r: Result<Self, DecodeError>)
        requires
            start as int <= members_view(*ms).len(),
        ensures
            r is Ok <==> dec_ok_text_record_fields(members_view(*ms).skip(start as int)),
            r matches Ok(t) ==> members_view(*ms).skip(start as int) == obj_members(enc_text_record(t)),
    {
        let ghost gm = members_view(*ms).skip(start as int);
        proof {
            assert(gm.len() == members_view(*ms).len() - start);
        }
        let mut i: usize = start;
        if ms.len() <= i {
            return Err(DecodeError::BadField);
        }
        let x_font_id: u16 = take_int(ms, i, "font_id", 0, u16::MAX as i128)? as u16;
        i = i + 1;
        if ms.len() <= i {
            return Err(DecodeError::BadField);
        }
        if !key_is(ms, i, "color") {
            return Err(DecodeError::BadField);
        }
        let x_color = StraightSRgba8::decode(&ms[i].value)?;
        i = i + 1;
        if ms.len() <= i {
            return Err(DecodeError::BadField);
        }
        let x_offset_x: i16 = take_int(ms, i, "offset_x", i16::MIN as i128, i16::MAX as i128)? as i16;
        i = i + 1;
        if ms.len() <= i {
            return Err(DecodeError::BadField);
        }
        let x_offset_y: i16 = take_int(ms, i, "offset_y", i16::MIN as i128, i16::MAX as i128)? as i16;
        i = i + 1;
        if ms.len() <= i {
            return Err(DecodeError::BadField);
        }
        let x_font_size: u16 = take_int(ms, i, "font_size", 0, u16::MAX as i128)? as u16;
        i = i + 1;
        if ms.len() <= i {
            return Err(DecodeError::BadField);
        }
        if !key_is(ms, i, "entries") {
            return Err(DecodeError::BadField);
        }
        let items_5 = match &ms[i].value {
            Value::Arr(a) => a,
            _ => {
                return Err(DecodeError::BadField);
            },
        };
        proof {
            assert(members_view(*ms)[i as int].1 == Val::Arr(elems_view(*items_5)));
            assert(arr_items(gm[(i - start) as int].1) == elems_view(*items_5));
        }
        let mut out_5: Vec<GlyphEntry> = Vec::new();
        let mut j: usize = 0;
        while j < items_5.len()
            invariant
                j <= items_5@.len(),
                out_5@.len() == j as int,
                forall|k: int| 0 <= k < j ==> #[trigger] elems_view(*items_5)[k] == enc_glyph_entry(out_5@[k]),
                forall|k: int| 0 <= k < j ==> dec_ok_glyph_entry(#[trigger] elems_view(*items_5)[k]),
            decreases items_5@.len() - j,
        {
            let x = match GlyphEntry::decode(&items_5[j]) {
                Ok(x) => x,
                Err(e) => {
                    proof {
                        assert(!dec_ok_glyph_entry(elems_view(*items_5)[j as int]));
                        assert(!all_dec_ok_glyph_entry(elems_view(*items_5)));
                    }
                    return Err(e);
                },
            };
            out_5.push(x);
            j = j + 1;
        }
        proof {
            assert(elems_view(*items_5) =~~= out_5@.map_values(|y: GlyphEntry| enc_glyph_entry(y)));
            assert(all_dec_ok_glyph_entry(elems_view(*items_5)));
        }
        let x_entries = out_5;
        i = i + 1;
        if i != ms.len() {
            return Err(DecodeError::BadField);
        }
        let t = TextRecord { font_id: x_font_id, color: x_color, offset_x: x_offset_x, offset_y: x_offset_y, font_size: x_font_size, entries: x_entries };
        proof {
            assert(members_view(*ms).skip(start as int) =~~= obj_members(enc_text_record(t)));
        }
        Ok(t)
    }

    /// Decodes from the interchange form; succeeds exactly on well-formed
    /// encodings and then returns the encoded value.
    #[verifier::rlimit(100)]
    #[verifier::spinoff_prover]
    pub fn decode(v: &Value) -> (r: Result<Self, DecodeError>)
        ensures
            r is Ok <==> dec_ok_text_record(v@),
            r matches Ok(t) ==> v@ == enc_text_record(t),
    {
        let ms = match v {
            Value::Obj(ms) => ms,
            _ => {
                return Err(DecodeError::ExpectedObject);
            },
        };
        let t = Self::decode_members(ms, 0)?;
        proof {
            assert(members_view(*ms).skip(0) =~= members_view(*ms));
            assert(v@ == Val::Obj(members_view(*ms)));
        }
        Ok(t)
    }
}

/// Field-wise equality of two `TextRecord` values (text and payloads by content).
pub open spec fn eq_text_record(a: TextRecord, b: TextRecord) -> bool {
    &&& a.font_id == b.font_id
    &&& eq_straight_srgba8(a.color, b.color)
    &&& a.offset_x == b.offset_x
    &&& a.offset_y == b.offset_y
    &&& a.font_size == b.font_size
    &&& (a.entries@.len() == b.entries@.len() && (forall|k: int| 0 <= k < a.entries@.len() ==> eq_glyph_entry(#[trigger] a.entries@[k], b.entries@[k])))
}

/// Round trip: every `TextRecord` encoding is well-formed and decodes back
/// only to a field-wise equal value.
#[verifier::rlimit(100)]
#[verifier::spinoff_prover]
pub proof fn lemma_text_record_round_trip(a: TextRecord, b: TextRecord)
    ensures
        dec_ok_text_record(enc_text_record(a)),
        enc_text_record(a) == enc_text_record(b) ==> eq_text_record(a, b),
{
    reveal_strlit("font_id");
    reveal_strlit("color");
    reveal_strlit("offset_x");
    reveal_strlit("offset_y");
    reveal_strlit("font_size");
    reveal_strlit("entries");
    lemma_straight_srgba8_round_trip(a.color, b.color);
    lemma_straight_srgba8_round_trip(a.color, a.color);
    lemma_straight_srgba8_round_trip(b.color, b.color);
    {
        let ea0 = a.entries@.map_values(|y: GlyphEntry| enc_glyph_entry(y));
        assert forall|k: int| 0 <= k < ea0.len() implies dec_ok_glyph_entry(#[trigger] ea0[k]) by {
            lemma_glyph_entry_round_trip(a.entries@[k], a.entries@[k]);
        }
        assert(all_dec_ok_glyph_entry(ea0));
    }
    {
        let ea = a.entries@.map_values(|y: GlyphEntry| enc_glyph_entry(y));
        let eb = b.entries@.map_values(|y: GlyphEntry| enc_glyph_entry(y));
        if ea == eb {
            assert forall|k: int| 0 <= k < a.entries@.len() implies eq_glyph_entry(#[trigger] a.entries@[k], b.entries@[k]) by {
                assert(ea[k] == eb[k]);
                lemma_glyph_entry_round_trip(a.entries@[k], b.entries@[k]);
            }
        }
    }
    assert(dec_ok_text_record_fields(obj_members(enc_text_record(a))));
    if enc_text_record(a) == enc_text_record(b) {
        assert(eq_text_record(a, b));
    }
}

} // verus!
