//! Post-processing filters and blend modes.
//!
//! A placed object may carry a list of filters and a blend mode; each
//! filter kind has its own numeric parameters, with fixed-point values
//! kept as raw bit patterns.
use vstd::prelude::*;

use crate::value::{DecodeError, Member, Val, Value, all_ints, arr_items, bool_field, elems_view, int_field, key_is, members_view, obj_members, push_bool, push_int, push_lit, push_value, str_at, str_field, str_is, take_bool, take_int, take_str, val_view};
use crate::basic_types::{Sfixed16P16, StraightSRgba8, dec_ok_straight_srgba8, enc_straight_srgba8, eq_straight_srgba8, lemma_straight_srgba8_round_trip};

verus! {

broadcast use vstd::std_specs::vec::group_vec_axioms, vstd::seq::group_seq_axioms;

/// How a placed object is composited over the scene below it.
#[derive(Copy, Clone, Debug, PartialEq, Eq, Hash, Structural)]
pub enum BlendMode {
    Normal,
    Layer,
    Multiply,
    Screen,
    Lighten,
    Darken,
    Difference,
    Add,
    Subtract,
    Invert,
    Alpha,
    Erase,
    Overlay,
    Hardlight,
}

/// The symbolic discriminant of a `BlendMode` variant.
pub open spec fn blend_mode_text(x: BlendMode) -> Seq<char> {
    match x {
        BlendMode::Normal => "normal"@,
        BlendMode::Layer => "layer"@,
        BlendMode::Multiply => "multiply"@,
        BlendMode::Screen => "screen"@,
        BlendMode::Lighten => "lighten"@,
        BlendMode::Darken => "darken"@,
        BlendMode::Difference => "difference"@,
        BlendMode::Add => "add"@,
        BlendMode::Subtract => "subtract"@,
        BlendMode::Invert => "invert"@,
        BlendMode::Alpha => "alpha"@,
        BlendMode::Erase => "erase"@,
        BlendMode::Overlay => "overlay"@,
        BlendMode::Hardlight => "hardlight"@,
    }
}

/// The interchange encoding of a `BlendMode`: its discriminant as text.
pub open spec fn enc_blend_mode(t: BlendMode) -> Val {
    Val::Str(blend_mode_text(t))
}

/// Whether `v` is the discriminant of some `BlendMode` variant.
pub open spec fn dec_ok_blend_mode(v: Val) -> bool {
    ||| v == Val::Str("normal"@)
    ||| v == Val::Str("layer"@)
    ||| v == Val::Str("multiply"@)
    ||| v == Val::Str("screen"@)
    ||| v == Val::Str("lighten"@)
    ||| v == Val::Str("darken"@)
    ||| v == Val::Str("difference"@)
    ||| v == Val::Str("add"@)
    ||| v == Val::Str("subtract"@)
    ||| v == Val::Str("invert"@)
    ||| v == Val::Str("alpha"@)
    ||| v == Val::Str("erase"@)
    ||| v == Val::Str("overlay"@)
    ||| v == Val::Str("hardlight"@)
}

impl BlendMode {
    /// Encodes to the interchange form.
    pub fn encode(&self) -> (v: Value)
        ensures
            v@ == enc_blend_mode(*self),
    {
        let s: &str = match self {
            BlendMode::Normal => "normal",
            BlendMode::Layer => "layer",
            BlendMode::Multiply => "multiply",
            BlendMode::Screen => "screen",
            BlendMode::Lighten => "lighten",
            BlendMode::Darken => "darken",
            BlendMode::Difference => "difference",
            BlendMode::Add => "add",
            BlendMode::Subtract => "subtract",
            BlendMode::Invert => "invert",
            BlendMode::Alpha => "alpha",
            BlendMode::Erase => "erase",
            BlendMode::Overlay => "overlay",
            BlendMode::Hardlight => "hardlight",
        };
        Value::Str(s.to_owned())
    }

    /// Decodes from the interchange form; any text outside the closed
    /// variant set is rejected.
    pub fn decode(v: &Value) -> (r: Result<Self, DecodeError>)
        ensures
            r is Ok <==> dec_ok_blend_mode(v@),
            r matches Ok(t) ==> v@ == enc_blend_mode(t),
    {
        let s = match v {
            Value::Str(s) => s,
            _ => {
                return Err(DecodeError::UnknownVariant);
            },
        };
        if str_is(s, "normal") {
            Ok(BlendMode::Normal)
        } else if str_is(s, "layer") {
            Ok(BlendMode::Layer)
        } else if str_is(s, "multiply") {
            Ok(BlendMode::Multiply)
        } else if str_is(s, "screen") {
            Ok(BlendMode::Screen)
        } else if str_is(s, "lighten") {
            Ok(BlendMode::Lighten)
        } else if str_is(s, "darken") {
            Ok(BlendMode::Darken)
        } else if str_is(s, "difference") {
            Ok(BlendMode::Difference)
        } else if str_is(s, "add") {
            Ok(BlendMode::Add)
        } else if str_is(s, "subtract") {
            Ok(BlendMode::Subtract)
        } else if str_is(s, "invert") {
            Ok(BlendMode::Invert)
        } else if str_is(s, "alpha") {
            Ok(BlendMode::Alpha)
        } else if str_is(s, "erase") {
            Ok(BlendMode::Erase)
        } else if str_is(s, "overlay") {
            Ok(BlendMode::Overlay)
        } else if str_is(s, "hardlight") {
            Ok(BlendMode::Hardlight)
        } else {
            Err(DecodeError::UnknownVariant)
        }
    }
}

/// Field-wise equality of two `BlendMode` values.
pub open spec fn eq_blend_mode(a: BlendMode, b: BlendMode) -> bool {
    a == b
}

/// Round trip: every discriminant is in the closed set and decodes back
/// to the same variant.
pub proof fn lemma_blend_mode_round_trip(a: BlendMode, b: BlendMode)
    ensures
        dec_ok_blend_mode(enc_blend_mode(a)),
        enc_blend_mode(a) == enc_blend_mode(b) ==> a == b,
{
    reveal_strlit("normal");
    reveal_strlit("layer");
    reveal_strlit("multiply");
    reveal_strlit("screen");
    reveal_strlit("lighten");
    reveal_strlit("darken");
    reveal_strlit("difference");
    reveal_strlit("add");
    reveal_strlit("subtract");
    reveal_strlit("invert");
    reveal_strlit("alpha");
    reveal_strlit("erase");
    reveal_strlit("overlay");
    reveal_strlit("hardlight");
    assert("add"@.len() == 3);
    assert("alpha"@.len() == 5);
    assert("darken"@.len() == 6);
    assert("difference"@.len() == 10);
    assert("erase"@.len() == 5);
    assert("hardlight"@.len() == 9);
    assert("invert"@.len() == 6);
    assert("layer"@.len() == 5);
    assert("lighten"@.len() == 7);
    assert("multiply"@.len() == 8);
    assert("normal"@.len() == 6);
    assert("overlay"@.len() == 7);
    assert("screen"@.len() == 6);
    assert("subtract"@.len() == 8);
    assert("normal"@ != "layer"@);
    assert("normal"@ != "multiply"@);
    assert("normal"@[0] == 'n');
    assert("screen"@[0] == 's');
    assert("normal"@ != "screen"@);
    assert("normal"@ != "lighten"@);
    assert("normal"@[0] == 'n');
    assert("darken"@[0] == 'd');
    assert("normal"@ != "darken"@);
    assert("normal"@ != "difference"@);
    assert("normal"@ != "add"@);
    assert("normal"@ != "subtract"@);
    assert("normal"@[0] == 'n');
    assert("invert"@[0] == 'i');
    assert("normal"@ != "invert"@);
    assert("normal"@ != "alpha"@);
    assert("normal"@ != "erase"@);
    assert("normal"@ != "overlay"@);
    assert("normal"@ != "hardlight"@);
    assert("layer"@ != "multiply"@);
    assert("layer"@ != "screen"@);
    assert("layer"@ != "lighten"@);
    assert("layer"@ != "darken"@);
    assert("layer"@ != "difference"@);
    assert("layer"@ != "add"@);
    assert("layer"@ != "subtract"@);
    assert("layer"@ != "invert"@);
    assert("layer"@[0] == 'l');
    assert("alpha"@[0] == 'a');
    assert("layer"@ != "alpha"@);
    assert("layer"@[0] == 'l');
    assert("erase"@[0] == 'e');
    assert("layer"@ != "erase"@);
    assert("layer"@ != "overlay"@);
    assert("layer"@ != "hardlight"@);
    assert("multiply"@ != "screen"@);
    assert("multiply"@ != "lighten"@);
    assert("multiply"@ != "darken"@);
    assert("multiply"@ != "difference"@);
    assert("multiply"@ != "add"@);
    assert("multiply"@[0] == 'm');
    assert("subtract"@[0] == 's');
    assert("multiply"@ != "subtract"@);
    assert("multiply"@ != "invert"@);
    assert("multiply"@ != "alpha"@);
    assert("multiply"@ != "erase"@);
    assert("multiply"@ != "overlay"@);
    assert("multiply"@ != "hardlight"@);
    assert("screen"@ != "lighten"@);
    assert("screen"@[0] == 's');
    assert("darken"@[0] == 'd');
    assert("screen"@ != "darken"@);
    assert("screen"@ != "difference"@);
    assert("screen"@ != "add"@);
    assert("screen"@ != "subtract"@);
    assert("screen"@[0] == 's');
    assert("invert"@[0] == 'i');
    assert("screen"@ != "invert"@);
    assert("screen"@ != "alpha"@);
    assert("screen"@ != "erase"@);
    assert("screen"@ != "overlay"@);
    assert("screen"@ != "hardlight"@);
    assert("lighten"@ != "darken"@);
    assert("lighten"@ != "difference"@);
    assert("lighten"@ != "add"@);
    assert("lighten"@ != "subtract"@);
    assert("lighten"@ != "invert"@);
    assert("lighten"@ != "alpha"@);
    assert("lighten"@ != "erase"@);
    assert("lighten"@[0] == 'l');
    assert("overlay"@[0] == 'o');
    assert("lighten"@ != "overlay"@);
    assert("lighten"@ != "hardlight"@);
    assert("darken"@ != "difference"@);
    assert("darken"@ != "add"@);
    assert("darken"@ != "subtract"@);
    assert("darken"@[0] == 'd');
    assert("invert"@[0] == 'i');
    assert("darken"@ != "invert"@);
    assert("darken"@ != "alpha"@);
    assert("darken"@ != "erase"@);
    assert("darken"@ != "overlay"@);
    assert("darken"@ != "hardlight"@);
    assert("difference"@ != "add"@);
    assert("difference"@ != "subtract"@);
    assert("difference"@ != "invert"@);
    assert("difference"@ != "alpha"@);
    assert("difference"@ != "erase"@);
    assert("difference"@ != "overlay"@);
    assert("difference"@ != "hardlight"@);
    assert("add"@ != "subtract"@);
    assert("add"@ != "invert"@);
    assert("add"@ != "alpha"@);
    assert("add"@ != "erase"@);
    assert("add"@ != "overlay"@);
    assert("add"@ != "hardlight"@);
    assert("subtract"@ != "invert"@);
    assert("subtract"@ != "alpha"@);
    assert("subtract"@ != "erase"@);
    assert("subtract"@ != "overlay"@);
    assert("subtract"@ != "hardlight"@);
    assert("invert"@ != "alpha"@);
    assert("invert"@ != "erase"@);
    assert("invert"@ != "overlay"@);
    assert("invert"@ != "hardlight"@);
    assert("alpha"@[0] == 'a');
    assert("erase"@[0] == 'e');
    assert("alpha"@ != "erase"@);
    assert("alpha"@ != "overlay"@);
    assert("alpha"@ != "hardlight"@);
    assert("erase"@ != "overlay"@);
    assert("erase"@ != "hardlight"@);
    assert("overlay"@ != "hardlight"@);
}

/// One stop of a gradient ramp.
#[derive(Clone, Debug, PartialEq, Eq)]
pub struct ColorStop {
    pub ratio: u8,
    pub color: StraightSRgba8,
}

/// The interchange encoding of a `ColorStop`.
pub open spec fn enc_color_stop(t: ColorStop) -> Val {
    Val::Obj(seq![("ratio"@, Val::Int(t.ratio as int)), ("color"@, enc_straight_srgba8(t.color))])
}

/// Whether `m` is exactly a well-formed `ColorStop` field list.
pub open spec fn dec_ok_color_stop_fields(m: Seq<(Seq<char>, Val)>) -> bool {
    &&& int_field(m, 0, "ratio"@, 0, u8::MAX as int)
    &&& m[1].0 == "color"@ && dec_ok_straight_srgba8(m[1].1)
    &&& m.len() == 2
}

/// Whether `v` is a well-formed `ColorStop` encoding.
pub open spec fn dec_ok_color_stop(v: Val) -> bool {
    v is Obj && dec_ok_color_stop_fields(obj_members(v))
}

/// Every element is a well-formed `ColorStop` encoding.
pub open spec fn all_dec_ok_color_stop(items: Seq<Val>) -> bool {
    forall|k: int| 0 <= k < items.len() ==> dec_ok_color_stop(#[trigger] items[k])
}

impl ColorStop {
    /// Appends this record's members to `ms`.
    #[verifier::loop_isolation(false)]
    #[verifier::rlimit(100)]
    #[verifier::spinoff_prover]
    pub fn encode_members(&self, ms: &mut Vec<Member>)
        ensures
            members_view(*final(ms)) == members_view(*old(ms)) + obj_members(enc_color_stop(*self)),
    {
        push_int(ms, "ratio", self.ratio as i128);
        push_value(ms, "color", self.color.encode());
        proof {
            assert(members_view(*ms) =~~= members_view(*old(ms)) + obj_members(enc_color_stop(*self)));
        }
    }

    /// Encodes to the interchange form.
    pub fn encode(&self) -> (v: Value)
        ensures
            v@ == enc_color_stop(*self),
    {
        let mut ms: Vec<Member> = Vec::new();
        self.encode_members(&mut ms);
        let v = Value::Obj(ms);
        proof {
            assert(members_view(ms) =~= obj_members(enc_color_stop(*self)));
            assert(v@ == Val::Obj(members_view(ms)));
        }
        v
    }

    /// Decodes this record's members from `ms`, starting at `start`;
    /// succeeds exactly on a well-formed field list reaching the end.
    #[verifier::loop_isolation(false)]
    #[verifier::rlimit(100)]
    #[verifier::spinoff_prover]
    pub fn decode_members(ms: &Vec<Member>, start: usize) -> (r: Result<Self, DecodeError>)
        requires
            start as int <= members_view(*ms).len(),
        ensures
            r is Ok <==> dec_ok_color_stop_fields(members_view(*ms).skip(start as int)),
            r matches Ok(t) ==> members_view(*ms).skip(start as int) == obj_members(enc_color_stop(t)),
    {
        let ghost gm = members_view(*ms).skip(start as int);
        proof {
            assert(gm.len() == members_view(*ms).len() - start);
        }
        let mut i: usize = start;
        if ms.len() <= i {
            return Err(DecodeError::BadField);
        }
        let x_ratio: u8 = take_int(ms, i, "ratio", 0, u8::MAX as i128)? as u8;
        i = i + 1;
        if ms.len() <= i {
            return Err(DecodeError::BadField);
        }
        if !key_is(ms, i, "color") {
            return Err(DecodeError::BadField);
        }
        let x_color = StraightSRgba8::decode(&ms[i].value)?;
        i = i + 1;
        if i != ms.len() {
            return Err(DecodeError::BadField);
        }
        let t = ColorStop { ratio: x_ratio, color: x_color };
        proof {
            assert(members_view(*ms).skip(start as int) =~~= obj_members(enc_color_stop(t)));
        }
        Ok(t)
    }

    /// Decodes from the interchange form; succeeds exactly on well-formed
    /// encodings and then returns the encoded value.
    #[verifier::rlimit(100)]
    #[verifier::spinoff_prover]
    pub fn decode(v: &Value) -> (r: Result<Self, DecodeError>)
        ensures
            r is Ok <==> dec_ok_color_stop(v@),
            r matches Ok(t) ==> v@ == enc_color_stop(t),
    {
        let ms = match v {
            Value::Obj(ms) => ms,
            _ => {
                return Err(DecodeError::ExpectedObject);
            },
        };
        let t = Self::decode_members(ms, 0)?;
        proof {
            assert(members_view(*ms).skip(0) =~= members_view(*ms));
            assert(v@ == Val::Obj(members_view(*ms)));
        }
        Ok(t)
    }
}

/// Field-wise equality of two `ColorStop` values (text and payloads by content).
pub open spec fn eq_color_stop(a: ColorStop, b: ColorStop) -> bool {
    &&& a.ratio == b.ratio
    &&& eq_straight_srgba8(a.color, b.color)
}

/// Round trip: every `ColorStop` encoding is well-formed and decodes back
/// only to a field-wise equal value.
#[verifier::rlimit(100)]
#[verifier::spinoff_prover]
pub proof fn lemma_color_stop_round_trip(a: ColorStop, b: ColorStop)
    ensures
        dec_ok_color_stop(enc_color_stop(a)),
        enc_color_stop(a) == enc_color_stop(b) ==> eq_color_stop(a, b),
{
    reveal_strlit("ratio");
    reveal_strlit("color");
    lemma_straight_srgba8_round_trip(a.color, b.color);
    lemma_straight_srgba8_round_trip(a.color, a.color);
    lemma_straight_srgba8_round_trip(b.color, b.color);
    assert(dec_ok_color_stop_fields(obj_members(enc_color_stop(a))));
    if enc_color_stop(a) == enc_color_stop(b) {
        assert(eq_color_stop(a, b));
    }
}

/// A box blur, applied `passes` times.
#[derive(Copy, Clone, Debug, PartialEq, Eq, Hash, Structural)]
pub struct Blur {
    pub blur_x: i32,
    pub blur_y: i32,
    pub passes: u8,
}

/// The interchange encoding of a `Blur`.
pub open spec fn enc_blur(t: Blur) -> Val {
    Val::Obj(seq![("blur_x"@, Val::Int(t.blur_x as int)), ("blur_y"@, Val::Int(t.blur_y as int)), ("passes"@, Val::Int(t.passes as int))])
}

/// Whether `m` is exactly a well-formed `Blur` field list.
pub open spec fn dec_ok_blur_fields(m: Seq<(Seq<char>, Val)>) -> bool {
    &&& int_field(m, 0, "blur_x"@, i32::MIN as int, i32::MAX as int)
    &&& int_field(m, 1, "blur_y"@, i32::MIN as int, i32::MAX as int)
    &&& int_field(m, 2, "passes"@, 0, u8::MAX as int)
    &&& m.len() == 3
}

/// Whether `v` is a well-formed `Blur` encoding.
pub open spec fn dec_ok_blur(v: Val) -> bool {
    v is Obj && dec_ok_blur_fields(obj_members(v))
}

/// Every element is a well-formed `Blur` encoding.
pub open spec fn all_dec_ok_blur(items: Seq<Val>) -> bool {
    forall|k: int| 0 <= k < items.len() ==> dec_ok_blur(#[trigger] items[k])
}

impl Blur {
    /// Appends this record's members to `ms`.
    #[verifier::loop_isolation(false)]
    #[verifier::rlimit(100)]
    #[verifier::spinoff_prover]
    pub fn encode_members(&self, ms: &mut Vec<Member>)
        ensures
            members_view(*final(ms)) == members_view(*old(ms)) + obj_members(enc_blur(*self)),
    {
        push_int(ms, "blur_x", self.blur_x as i128);
        push_int(ms, "blur_y", self.blur_y as i128);
        push_int(ms, "passes", self.passes as i128);
        proof {
            assert(members_view(*ms) =~~= members_view(*old(ms)) + obj_members(enc_blur(*self)));
        }
    }

    /// Encodes to the interchange form.
    pub fn encode(&self) -> (v: Value)
        ensures
            v@ == enc_blur(*self),
    {
        let mut ms: Vec<Member> = Vec::new();
        self.encode_members(&mut ms);
        let v = Value::Obj(ms);
        proof {
            assert(members_view(ms) =~= obj_members(enc_blur(*self)));
            assert(v@ == Val::Obj(members_view(ms)));
        }
        v
    }

    /// Decodes this record's members from `ms`, starting at `start`;
    /// succeeds exactly on a well-formed field list reaching the end.
    #[verifier::loop_isolation(false)]
    #[verifier::rlimit(100)]
    #[verifier::spinoff_prover]
    pub fn decode_members(ms: &Vec<Member>, start: usize) -> (r: Result<Self, DecodeError>)
        requires
            start as int <= members_view(*ms).len(),
        ensures
            r is Ok <==> dec_ok_blur_fields(members_view(*ms).skip(start as int)),
            r matches Ok(t) ==> members_view(*ms).skip(start as int) == obj_members(enc_blur(t)),
    {
        let ghost gm = members_view(*ms).skip(start as int);
        proof {
            assert(gm.len() == members_view(*ms).len() - start);
        }
        let mut i: usize = start;
        if ms.len() <= i {
            return Err(DecodeError::BadField);
        }
        let x_blur_x: i32 = take_int(ms, i, "blur_x", i32::MIN as i128, i32::MAX as i128)? as i32;
        i = i + 1;
        if ms.len() <= i {
            return Err(DecodeError::BadField);
        }
        let x_blur_y: i32 = take_int(ms, i, "blur_y", i32::MIN as i128, i32::MAX as i128)? as i32;
        i = i + 1;
        if ms.len() <= i {
            return Err(DecodeError::BadField);
        }
        let x_passes: u8 = take_int(ms, i, "passes", 0, u8::MAX as i128)? as u8;
        i = i + 1;
        if i != ms.len() {
            return Err(DecodeError::BadField);
        }
        let t = Blur { blur_x: x_blur_x, blur_y: x_blur_y, passes: x_passes };
        proof {
            assert(members_view(*ms).skip(start as int) =~~= obj_members(enc_blur(t)));
        }
        Ok(t)
    }

    /// Decodes from the interchange form; succeeds exactly on well-formed
    /// encodings and then returns the encoded value.
    #[verifier::rlimit(100)]
    #[verifier::spinoff_prover]
    pub fn decode(v: &Value) -> (r: Result<Self, DecodeError>)
        ensures
            r is Ok <==> dec_ok_blur(v@),
            r matches Ok(t) ==> v@ == enc_blur(t),
    {
        let ms = match v {
            Value::Obj(ms) => ms,
            _ => {
                return Err(DecodeError::ExpectedObject);
            },
        };
        let t = Self::decode_members(ms, 0)?;
        proof {
            assert(members_view(*ms).skip(0) =~= members_view(*ms));
            assert(v@ == Val::Obj(members_view(*ms)));
        }
        Ok(t)
    }
}

/// Field-wise equality of two `Blur` values (text and payloads by content).
pub open spec fn eq_blur(a: Blur, b: Blur) -> bool {
    &&& a.blur_x == b.blur_x
    &&& a.blur_y == b.blur_y
    &&& a.passes == b.passes
}

/// Round trip: every `Blur` encoding is well-formed and decodes back
/// only to a field-wise equal value.
#[verifier::rlimit(100)]
#[verifier::spinoff_prover]
pub proof fn lemma_blur_round_trip(a: Blur, b: Blur)
    ensures
        dec_ok_blur(enc_blur(a)),
        enc_blur(a) == enc_blur(b) ==> eq_blur(a, b),
{
    reveal_strlit("blur_x");
    reveal_strlit("blur_y");
    reveal_strlit("passes");

    assert(dec_ok_blur_fields(obj_members(enc_blur(a))));
    if enc_blur(a) == enc_blur(b) {
        assert(eq_blur(a, b));
    }
}

/// A bevel highlight and shadow around the object.
#[derive(Clone, Debug, PartialEq, Eq)]
pub struct Bevel {
    pub shadow_color: StraightSRgba8,
    pub highlight_color: StraightSRgba8,
    pub blur_x: i32,
    pub blur_y: i32,
    pub angle: i32,
    pub distance: i32,
    pub strength: i16,
    pub inner: bool,
    pub knockout: bool,
    pub composite_source: bool,
    pub on_top: bool,
    pub passes: u8,
}

/// The interchange encoding of a `Bevel`.
pub open spec fn enc_bevel(t: Bevel) -> Val {
    Val::Obj(seq![("shadow_color"@, enc_straight_srgba8(t.shadow_color)), ("highlight_color"@, enc_straight_srgba8(t.highlight_color)), ("blur_x"@, Val::Int(t.blur_x as int)), ("blur_y"@, Val::Int(t.blur_y as int)), ("angle"@, Val::Int(t.angle as int)), ("distance"@, Val::Int(t.distance as int)), ("strength"@, Val::Int(t.strength as int)), ("inner"@, Val::Bool(t.inner)), ("knockout"@, Val::Bool(t.knockout)), ("composite_source"@, Val::Bool(t.composite_source)), ("on_top"@, Val::Bool(t.on_top)), ("passes"@, Val::Int(t.passes as int))])
}

/// Whether `m` is exactly a well-formed `Bevel` field list.
pub open spec fn dec_ok_bevel_fields(m: Seq<(Seq<char>, Val)>) -> bool {
    &&& m[0].0 == "shadow_color"@ && dec_ok_straight_srgba8(m[0].1)
    &&& m[1].0 == "highlight_color"@ && dec_ok_straight_srgba8(m[1].1)
    &&& int_field(m, 2, "blur_x"@, i32::MIN as int, i32::MAX as int)
    &&& int_field(m, 3, "blur_y"@, i32::MIN as int, i32::MAX as int)
    &&& int_field(m, 4, "angle"@, i32::MIN as int, i32::MAX as int)
    &&& int_field(m, 5, "distance"@, i32::MIN as int, i32::MAX as int)
    &&& int_field(m, 6, "strength"@, i16::MIN as int, i16::MAX as int)
    &&& bool_field(m, 7, "inner"@)
    &&& bool_field(m, 8, "knockout"@)
    &&& bool_field(m, 9, "composite_source"@)
    &&& bool_field(m, 10, "on_top"@)
    &&& int_field(m, 11, "passes"@, 0, u8::MAX as int)
    &&& m.len() == 12
}

/// Whether `v` is a well-formed `Bevel` encoding.
pub open spec fn dec_ok_bevel(v: Val) -> bool {
    v is Obj && dec_ok_bevel_fields(obj_members(v))
}

/// Every element is a well-formed `Bevel` encoding.
pub open spec fn all_dec_ok_bevel(items: Seq<Val>) -> bool {
    forall|k: int| 0 <= k < items.len() ==> dec_ok_bevel(#[trigger] items[k])
}

impl Bevel {
    /// Appends this record's members to `ms`.
    #[verifier::loop_isolation(false)]
    #[verifier::rlimit(100)]
    #[verifier::spinoff_prover]
    pub fn encode_members(&self, ms: &mut Vec<Member>)
        ensures
            members_view(*final(ms)) == members_view(*old(ms)) + obj_members(enc_bevel(*self)),
    {
        push_value(ms, "shadow_color", self.shadow_color.encode());
        push_value(ms, "highlight_color", self.highlight_color.encode());
        push_int(ms, "blur_x", self.blur_x as i128);
        push_int(ms, "blur_y", self.blur_y as i128);
        push_int(ms, "angle", self.angle as i128);
        push_int(ms, "distance", self.distance as i128);
        push_int(ms, "strength", self.strength as i128);
        push_bool(ms, "inner", self.inner);
        push_bool(ms, "knockout", self.knockout);
        push_bool(ms, "composite_source", self.composite_source);
        push_bool(ms, "on_top", self.on_top);
        push_int(ms, "passes", self.passes as i128);
        proof {
            assert(members_view(*ms) =~~= members_view(*old(ms)) + obj_members(enc_bevel(*self)));
        }
    }

    /// Encodes to the interchange form.
    pub fn encode(&self) -> (v: Value)
        ensures
            v@ == enc_bevel(*self),
    {
        let mut ms: Vec<Member> = Vec::new();
        self.encode_members(&mut ms);
        let v = Value::Obj(ms);
        proof {
            assert(members_view(ms) =~= obj_members(enc_bevel(*self)));
            assert(v@ == Val::Obj(members_view(ms)));
        }
        v
    }

    /// Decodes this record's members from `ms`, starting at `start`;
    /// succeeds exactly on a well-formed field list reaching the end.
    #[verifier::loop_isolation(false)]
    #[verifier::rlimit(100)]
    #[verifier::spinoff_prover]
    pub fn decode_members(ms: &Vec<Member>, start: usize) -> (r: Result<Self, DecodeError>)
        requires
            start as int <= members_view(*ms).len(),
        ensures
            r is Ok <==> dec_ok_bevel_fields(members_view(*ms).skip(start as int)),
            r matches Ok(t) ==> members_view(*ms).skip(start as int) == obj_members(enc_bevel(t)),
    {
        let ghost gm = members_view(*ms).skip(start as int);
        proof {
            assert(gm.len() == members_view(*ms).len() - start);
        }
        let mut i: usize = start;
        if ms.len() <= i {
            return Err(DecodeError::BadField);
        }
        if !key_is(ms, i, "shadow_color") {
            return Err(DecodeError::BadField);
        }
        let x_shadow_color = StraightSRgba8::decode(&ms[i].value)?;
        i = i + 1;
        if ms.len() <= i {
            return Err(DecodeError::BadField);
        }
        if !key_is(ms, i, "highlight_color") {
            return Err(DecodeError::BadField);
        }
        let x_highlight_color = StraightSRgba8::decode(&ms[i].value)?;
        i = i + 1;
        if ms.len() <= i {
            return Err(DecodeError::BadField);
        }
        let x_blur_x: i32 = take_int(ms, i, "blur_x", i32::MIN as i128, i32::MAX as i128)? as i32;
        i = i + 1;
        if ms.len() <= i {
            return Err(DecodeError::BadField);
        }
        let x_blur_y: i32 = take_int(ms, i, "blur_y", i32::MIN as i128, i32::MAX as i128)? as i32;
        i = i + 1;
        if ms.len() <= i {
            return Err(DecodeError::BadField);
        }
        let x_angle: i32 = take_int(ms, i, "angle", i32::MIN as i128, i32::MAX as i128)? as i32;
        i = i + 1;
        if ms.len() <= i {
            return Err(DecodeError::BadField);
        }
        let x_distance: i32 = take_int(ms, i, "distance", i32::MIN as i128, i32::MAX as i128)? as i32;
        i = i + 1;
        if ms.len() <= i {
            return Err(DecodeError::BadField);
        }
        let x_strength: i16 = take_int(ms, i, "strength", i16::MIN as i128, i16::MAX as i128)? as i16;
        i = i + 1;
        if ms.len() <= i {
            return Err(DecodeError::BadField);
        }
        let x_inner: bool = take_bool(ms, i, "inner")?;
        i = i + 1;
        if ms.len() <= i {
            return Err(DecodeError::BadField);
        }
        let x_knockout: bool = take_bool(ms, i, "knockout")?;
        i = i + 1;
        if ms.len() <= i {
            return Err(DecodeError::BadField);
        }
        let x_composite_source: bool = take_bool(ms, i, "composite_source")?;
        i = i + 1;
        if ms.len() <= i {
            return Err(DecodeError::BadField);
        }
        let x_on_top: bool = take_bool(ms, i, "on_top")?;
        i = i + 1;
        if ms.len() <= i {
            return Err(DecodeError::BadField);
        }
        let x_passes: u8 = take_int(ms, i, "passes", 0, u8::MAX as i128)? as u8;
        i = i + 1;
        if i != ms.len() {
            return Err(DecodeError::BadField);
        }
        let t = Bevel { shadow_color: x_shadow_color, highlight_color: x_highlight_color, blur_x: x_blur_x, blur_y: x_blur_y, angle: x_angle, distance: x_distance, strength: x_strength, inner: x_inner, knockout: x_knockout, composite_source: x_composite_source, on_top: x_on_top, passes: x_passes };
        proof {
            assert(members_view(*ms).skip(start as int) =~~= obj_members(enc_bevel(t)));
        }
        Ok(t)
    }

    /// Decodes from the interchange form; succeeds exactly on well-formed
    /// encodings and then returns the encoded value.
    #[verifier::rlimit(100)]
    #[verifier::spinoff_prover]
    pub fn decode(v: &Value) -> (r: Result<Self, DecodeError>)
        ensures
            r is Ok <==> dec_ok_bevel(v@),
            r matches Ok(t) ==> v@ == enc_bevel(t),
    {
        let ms = match v {
            Value::Obj(ms) => ms,
            _ => {
                return Err(DecodeError::ExpectedObject);
            },
        };
        let t = Self::decode_members(ms, 0)?;
        proof {
            assert(members_view(*ms).skip(0) =~= members_view(*ms));
            assert(v@ == Val::Obj(members_view(*ms)));
        }
        Ok(t)
    }
}

/// Field-wise equality of two `Bevel` values (text and payloads by content).
pub open spec fn eq_bevel(a: Bevel, b: Bevel) -> bool {
    &&& eq_straight_srgba8(a.shadow_color, b.shadow_color)
    &&& eq_straight_srgba8(a.highlight_color, b.highlight_color)
    &&& a.blur_x == b.blur_x
    &&& a.blur_y == b.blur_y
    &&& a.angle == b.angle
    &&& a.distance == b.distance
    &&& a.strength == b.strength
    &&& a.inner == b.inner
    &&& a.knockout == b.knockout
    &&& a.composite_source == b.composite_source
    &&& a.on_top == b.on_top
    &&& a.passes == b.passes
}

/// Round trip: every `Bevel` encoding is well-formed and decodes back
/// only to a field-wise equal value.
#[verifier::rlimit(100)]
#[verifier::spinoff_prover]
pub proof fn lemma_bevel_round_trip(a: Bevel, b: Bevel)
    ensures
        dec_ok_bevel(enc_bevel(a)),
        enc_bevel(a) == enc_bevel(b) ==> eq_bevel(a, b),
{
    reveal_strlit("shadow_color");
    reveal_strlit("highlight_color");
    reveal_strlit("blur_x");
    reveal_strlit("blur_y");
    reveal_strlit("angle");
    reveal_strlit("distance");
    reveal_strlit("strength");
    reveal_strlit("inner");
    reveal_strlit("knockout");
    reveal_strlit("composite_source");
    reveal_strlit("on_top");
    reveal_strlit("passes");
    lemma_straight_srgba8_round_trip(a.shadow_color, b.shadow_color);
    lemma_straight_srgba8_round_trip(a.shadow_color, a.shadow_color);
    lemma_straight_srgba8_round_trip(b.shadow_color, b.shadow_color);
    lemma_straight_srgba8_round_trip(a.highlight_color, b.highlight_color);
    lemma_straight_srgba8_round_trip(a.highlight_color, a.highlight_color);
    lemma_straight_srgba8_round_trip(b.highlight_color, b.highlight_color);
    assert(dec_ok_bevel_fields(obj_members(enc_bevel(a))));
    if enc_bevel(a) == enc_bevel(b) {
        assert(eq_bevel(a, b));
    }
}

/// A 5x4 color transform matrix with 16.16 fixed-point entries, applied
/// to the RGBA channels.
#[derive(Clone, Debug, PartialEq, Eq)]
pub struct ColorMatrix {
    pub matrix: Vec<Sfixed16P16>,
}

/// The interchange encoding of a `ColorMatrix`.
pub open spec fn enc_color_matrix(t: ColorMatrix) -> Val {
    Val::Obj(seq![("matrix"@, Val::Arr(t.matrix@.map_values(|y: Sfixed16P16| Val::Int(y.epsilons as int))))])
}

/// Whether `m` is exactly a well-formed `ColorMatrix` field list.
pub open spec fn dec_ok_color_matrix_fields(m: Seq<(Seq<char>, Val)>) -> bool {
    &&& m[0].0 == "matrix"@ && (m[0].1 is Arr && all_ints(arr_items(m[0].1), i32::MIN as int, i32::MAX as int))
    &&& m.len() == 1
}

/// Whether `v` is a well-formed `ColorMatrix` encoding.
pub open spec fn dec_ok_color_matrix(v: Val) -> bool {
    v is Obj && dec_ok_color_matrix_fields(obj_members(v))
}

/// Every element is a well-formed `ColorMatrix` encoding.
pub open spec fn all_dec_ok_color_matrix(items: Seq<Val>) -> bool {
    forall|k: int| 0 <= k < items.len() ==> dec_ok_color_matrix(#[trigger] items[k])
}

impl ColorMatrix {
    /// Appends this record's members to `ms`.
    #[verifier::loop_isolation(false)]
    #[verifier::rlimit(100)]
    #[verifier::spinoff_prover]
    pub fn encode_members(&self, ms: &mut Vec<Member>)
        ensures
            members_view(*final(ms)) == members_view(*old(ms)) + obj_members(enc_color_matrix(*self)),
    {
        let mut arr_0: Vec<Value> = Vec::new();
        let mut j: usize = 0;
        while j < self.matrix.len()
            invariant
                j <= self.matrix@.len(),
                arr_0@.len() == j as int,
                forall|k: int| 0 <= k < j ==> #[trigger] val_view(arr_0@[k]) == Val::Int(self.matrix@[k].epsilons as int),
            decreases self.matrix@.len() - j,
        {
            arr_0.push(Value::Int(self.matrix[j].epsilons as i128));
            j = j + 1;
        }
        proof {
            let m2 = self.matrix@.map_values(|y: Sfixed16P16| Val::Int(y.epsilons as int));
            assert(elems_view(arr_0).len() == m2.len());
            assert forall|k: int| 0 <= k < m2.len() implies elems_view(arr_0)[k] == m2[k] by {
                assert(val_view(arr_0@[k]) == Val::Int(self.matrix@[k].epsilons as int));
                assert(m2[k] == Val::Int(self.matrix@[k].epsilons as int));
            }
            assert(elems_view(arr_0) =~~= m2);
        }
        push_value(ms, "matrix", Value::Arr(arr_0));
        proof {
            assert(members_view(*ms) =~~= members_view(*old(ms)) + obj_members(enc_color_matrix(*self)));
        }
    }

    /// Encodes to the interchange form.
    pub fn encode(&self) -> (v: Value)
        ensures
            v@ == enc_color_matrix(*self),
    {
        let mut ms: Vec<Member> = Vec::new();
        self.encode_members(&mut ms);
        let v = Value::Obj(ms);
        proof {
            assert(members_view(ms) =~= obj_members(enc_color_matrix(*self)));
            assert(v@ == Val::Obj(members_view(ms)));
        }
        v
    }

    /// Decodes this record's members from `ms`, starting at `start`;
    /// succeeds exactly on a well-formed field list reaching the end.
    #[verifier::loop_isolation(false)]
    #[verifier::rlimit(100)]
    #[verifier::spinoff_prover]
    pub fn decode_members(ms: &Vec<Member>, start: usize) -> (r: Result<Self, DecodeError>)
        requires
            start as int <= members_view(*ms).len(),
        ensures
            r is Ok <==> dec_ok_color_matrix_fields(members_view(*ms).skip(start as int)),
            r matches Ok(t) ==> members_view(*ms).skip(start as int) == obj_members(enc_color_matrix(t)),
    {
        let ghost gm = members_view(*ms).skip(start as int);
        proof {
            assert(gm.len() == members_view(*ms).len() - start);
        }
        let mut i: usize = start;
        if ms.len() <= i {
            return Err(DecodeError::BadField);
        }
        if !key_is(ms, i, "matrix") {
            return Err(DecodeError::BadField);
        }
        let items_0 = match &ms[i].value {
            Value::Arr(a) => a,
            _ => {
                return Err(DecodeError::BadField);
            },
        };
        proof {
            assert(members_view(*ms)[i as int].1 == Val::Arr(elems_view(*items_0)));
            assert(arr_items(gm[(i - start) as int].1) == elems_view(*items_0));
        }
        let mut out_0: Vec<Sfixed16P16> = Vec::new();
        let mut j: usize = 0;
        while j < items_0.len()
            invariant
                j <= items_0@.len(),
                out_0@.len() == j as int,
                forall|k: int| 0 <= k < j ==> #[trigger] elems_view(*items_0)[k] == Val::Int(out_0@[k].epsilons as int),
            decreases items_0@.len() - j,
        {
            let x: Sfixed16P16 = match &items_0[j] {
                Value::Int(y) => {
                    if i32::MIN as i128 <= *y && *y <= i32::MAX as i128 {
                        Sfixed16P16 { epsilons: *y as i32 }
                    } else {
                        proof {
                            assert(!({ let q = elems_view(*items_0)[j as int]; q matches Val::Int(z) && i32::MIN as int <= z <= i32::MAX as int }));
                            assert(!all_ints(elems_view(*items_0), i32::MIN as int, i32::MAX as int));
                        }
                        return Err(DecodeError::OutOfRange);
                    }
                },
                _ => {
                    proof {
                        assert(!({ let q = elems_view(*items_0)[j as int]; q matches Val::Int(z) && i32::MIN as int <= z <= i32::MAX as int }));
                        assert(!all_ints(elems_view(*items_0), i32::MIN as int, i32::MAX as int));
                    }
                    return Err(DecodeError::BadField);
                },
            };
            out_0.push(x);
            j = j + 1;
        }
        proof {
            assert(elems_view(*items_0) =~~= out_0@.map_values(|y: Sfixed16P16| Val::Int(y.epsilons as int)));
            assert(all_ints(elems_view(*items_0), i32::MIN as int, i32::MAX as int));
        }
        let x_matrix = out_0;
        i = i + 1;
        if i != ms.len() {
            return Err(DecodeError::BadField);
        }
        let t = ColorMatrix { matrix: x_matrix };
        proof {
            assert(members_view(*ms).skip(start as int) =~~= obj_members(enc_color_matrix(t)));
        }
        Ok(t)
    }

    /// Decodes from the interchange form; succeeds exactly on well-formed
    /// encodings and then returns the encoded value.
    #[verifier::rlimit(100)]
    #[verifier::spinoff_prover]
    pub fn decode(v: &Value) -> (r: Result<Self, DecodeError>)
        ensures
            r is Ok <==> dec_ok_color_matrix(v@),
            r matches Ok(t) ==> v@ == enc_color_matrix(t),
    {
        let ms = match v {
            Value::Obj(ms) => ms,
            _ => {
                return Err(DecodeError::ExpectedObject);
            },
        };
        let t = Self::decode_members(ms, 0)?;
        proof {
            assert(members_view(*ms).skip(0) =~= members_view(*ms));
            assert(v@ == Val::Obj(members_view(*ms)));
        }
        Ok(t)
    }
}

/// Field-wise equality of two `ColorMatrix` values (text and payloads by content).
pub open spec fn eq_color_matrix(a: ColorMatrix, b: ColorMatrix) -> bool {
    &&& a.matrix@ == b.matrix@
}

/// Round trip: every `ColorMatrix` encoding is well-formed and decodes back
/// only to a field-wise equal value.
#[verifier::rlimit(100)]
#[verifier::spinoff_prover]
pub proof fn lemma_color_matrix_round_trip(a: ColorMatrix, b: ColorMatrix)
    ensures
        dec_ok_color_matrix(enc_color_matrix(a)),
        enc_color_matrix(a) == enc_color_matrix(b) ==> eq_color_matrix(a, b),
{
    reveal_strlit("matrix");
    {
        let ea_matrix = a.matrix@.map_values(|y: Sfixed16P16| Val::Int(y.epsilons as int));
        let eb_matrix = b.matrix@.map_values(|y: Sfixed16P16| Val::Int(y.epsilons as int));
        assert forall|k: int| 0 <= k < ea_matrix.len() implies (#[trigger] ea_matrix[k] matches Val::Int(z) && i32::MIN as int <= z <= i32::MAX as int) by {
            assert(ea_matrix[k] == Val::Int(a.matrix@[k].epsilons as int));
        }
        assert(all_ints(ea_matrix, i32::MIN as int, i32::MAX as int));
        if ea_matrix == eb_matrix {
            assert forall|k: int| 0 <= k < a.matrix@.len() implies a.matrix@[k] == b.matrix@[k] by {
                assert(ea_matrix[k] == Val::Int(a.matrix@[k].epsilons as int));
                assert(eb_matrix[k] == Val::Int(b.matrix@[k].epsilons as int));
                assert(a.matrix@[k].epsilons as int == b.matrix@[k].epsilons as int);
            }
            assert(a.matrix@ =~= b.matrix@);
        }
    }
    assert(dec_ok_color_matrix_fields(obj_members(enc_color_matrix(a))));
    if enc_color_matrix(a) == enc_color_matrix(b) {
        assert(eq_color_matrix(a, b));
    }
}

/// A discrete convolution over the object pixels, with 16.16
/// fixed-point coefficients.
#[derive(Clone, Debug, PartialEq, Eq)]
pub struct Convolution {
    pub matrix_x: u8,
    pub matrix_y: u8,
    pub divisor: Sfixed16P16,
    pub bias: Sfixed16P16,
    pub matrix: Vec<Sfixed16P16>,
    pub default_color: StraightSRgba8,
    pub clamp: bool,
    pub preserve_alpha: bool,
}

/// The interchange encoding of a `Convolution`.
pub open spec fn enc_convolution(t: Convolution) -> Val {
    Val::Obj(seq![("matrix_x"@, Val::Int(t.matrix_x as int)), ("matrix_y"@, Val::Int(t.matrix_y as int)), ("divisor"@, Val::Int(t.divisor.epsilons as int)), ("bias"@, Val::Int(t.bias.epsilons as int)), ("matrix"@, Val::Arr(t.matrix@.map_values(|y: Sfixed16P16| Val::Int(y.epsilons as int)))), ("default_color"@, enc_straight_srgba8(t.default_color)), ("clamp"@, Val::Bool(t.clamp)), ("preserve_alpha"@, Val::Bool(t.preserve_alpha))])
}

/// Whether `m` is exactly a well-formed `Convolution` field list.
pub open spec fn dec_ok_convolution_fields(m: Seq<(Seq<char>, Val)>) -> bool {
    &&& int_field(m, 0, "matrix_x"@, 0, u8::MAX as int)
    &&& int_field(m, 1, "matrix_y"@, 0, u8::MAX as int)
    &&& int_field(m, 2, "divisor"@, i32::MIN as int, i32::MAX as int)
    &&& int_field(m, 3, "bias"@, i32::MIN as int, i32::MAX as int)
    &&& m[4].0 == "matrix"@ && (m[4].1 is Arr && all_ints(arr_items(m[4].1), i32::MIN as int, i32::MAX as int))
    &&& m[5].0 == "default_color"@ && dec_ok_straight_srgba8(m[5].1)
    &&& bool_field(m, 6, "clamp"@)
    &&& bool_field(m, 7, "preserve_alpha"@)
    &&& m.len() == 8
}

/// Whether `v` is a well-formed `Convolution` encoding.
pub open spec fn dec_ok_convolution(v: Val) -> bool {
    v is Obj && dec_ok_convolution_fields(obj_members(v))
}

/// Every element is a well-formed `Convolution` encoding.
pub open spec fn all_dec_ok_convolution(items: Seq<Val>) -> bool {
    forall|k: int| 0 <= k < items.len() ==> dec_ok_convolution(#[trigger] items[k])
}

impl Convolution {
    /// Appends this record's members to `ms`.
    #[verifier::loop_isolation(false)]
    #[verifier::rlimit(100)]
    #[verifier::spinoff_prover]
    pub fn encode_members(&self, ms: &mut Vec<Member>)
        ensures
            members_view(*final(ms)) == members_view(*old(ms)) + obj_members(enc_convolution(*self)),
    {
        push_int(ms, "matrix_x", self.matrix_x as i128);
        push_int(ms, "matrix_y", self.matrix_y as i128);
        push_int(ms, "divisor", self.divisor.epsilons as i128);
        push_int(ms, "bias", self.bias.epsilons as i128);
        let mut arr_4: Vec<Value> = Vec::new();
        let mut j: usize = 0;
        while j < self.matrix.len()
            invariant
                j <= self.matrix@.len(),
                arr_4@.len() == j as int,
                forall|k: int| 0 <= k < j ==> #[trigger] val_view(arr_4@[k]) == Val::Int(self.matrix@[k].epsilons as int),
            decreases self.matrix@.len() - j,
        {
            arr_4.push(Value::Int(self.matrix[j].epsilons as i128));
            j = j + 1;
        }
        proof {
            let m2 = self.matrix@.map_values(|y: Sfixed16P16| Val::Int(y.epsilons as int));
            assert(elems_view(arr_4).len() == m2.len());
            assert forall|k: int| 0 <= k < m2.len() implies elems_view(arr_4)[k] == m2[k] by {
                assert(val_view(arr_4@[k]) == Val::Int(self.matrix@[k].epsilons as int));
                assert(m2[k] == Val::Int(self.matrix@[k].epsilons as int));
            }
            assert(elems_view(arr_4) =~~= m2);
        }
        push_value(ms, "matrix", Value::Arr(arr_4));
        push_value(ms, "default_color", self.default_color.encode());
        push_bool(ms, "clamp", self.clamp);
        push_bool(ms, "preserve_alpha", self.preserve_alpha);
        proof {
            assert(members_view(*ms) =~~= members_view(*old(ms)) + obj_members(enc_convolution(*self)));
        }
    }

    /// Encodes to the interchange form.
    pub fn encode(&self) -> (v: Value)
        ensures
            v@ == enc_convolution(*self),
    {
        let mut ms: Vec<Member> = Vec::new();
        self.encode_members(&mut ms);
        let v = Value::Obj(ms);
        proof {
            assert(members_view(ms) =~= obj_members(enc_convolution(*self)));
            assert(v@ == Val::Obj(members_view(ms)));
        }
        v
    }

    /// Decodes this record's members from `ms`, starting at `start`;
    /// succeeds exactly on a well-formed field list reaching the end.
    #[verifier::loop_isolation(false)]
    #[verifier::rlimit(100)]
    #[verifier::spinoff_prover]
    pub fn decode_members(ms: &Vec<Member>, start: usize) -> (r: Result<Self, DecodeError>)
        requires
            start as int <= members_view(*ms).len(),
        ensures
            r is Ok <==> dec_ok_convolution_fields(members_view(*ms).skip(start as int)),
            r matches Ok(t) ==> members_view(*ms).skip(start as int) == obj_members(enc_convolution(t)),
    {
        let ghost gm = members_view(*ms).skip(start as int);
        proof {
            assert(gm.len() == members_view(*ms).len() - start);
        }
        let mut i: usize = start;
        if ms.len() <= i {
            return Err(DecodeError::BadField);
        }
        let x_matrix_x: u8 = take_int(ms, i, "matrix_x", 0, u8::MAX as i128)? as u8;
        i = i + 1;
        if ms.len() <= i {
            return Err(DecodeError::BadField);
        }
        let x_matrix_y: u8 = take_int(ms, i, "matrix_y", 0, u8::MAX as i128)? as u8;
        i = i + 1;
        if ms.len() <= i {
            return Err(DecodeError::BadField);
        }
        let x_divisor: Sfixed16P16 = Sfixed16P16 { epsilons: take_int(ms, i, "divisor", i32::MIN as i128, i32::MAX as i128)? as i32 };
        i = i + 1;
        if ms.len() <= i {
            return Err(DecodeError::BadField);
        }
        let x_bias: Sfixed16P16 = Sfixed16P16 { epsilons: take_int(ms, i, "bias", i32::MIN as i128, i32::MAX as i128)? as i32 };
        i = i + 1;
        if ms.len() <= i {
            return Err(DecodeError::BadField);
        }
        if !key_is(ms, i, "matrix") {
            return Err(DecodeError::BadField);
        }
        let items_4 = match &ms[i].value {
            Value::Arr(a) => a,
            _ => {
                return Err(DecodeError::BadField);
            },
        };
        proof {
            assert(members_view(*ms)[i as int].1 == Val::Arr(elems_view(*items_4)));
            assert(arr_items(gm[(i - start) as int].1) == elems_view(*items_4));
        }
        let mut out_4: Vec<Sfixed16P16> = Vec::new();
        let mut j: usize = 0;
        while j < items_4.len()
            invariant
                j <= items_4@.len(),
                out_4@.len() == j as int,
                forall|k: int| 0 <= k < j ==> #[trigger] elems_view(*items_4)[k] == Val::Int(out_4@[k].epsilons as int),
            decreases items_4@.len() - j,
        {
            let x: Sfixed16P16 = match &items_4[j] {
                Value::Int(y) => {
                    if i32::MIN as i128 <= *y && *y <= i32::MAX as i128 {
                        Sfixed16P16 { epsilons: *y as i32 }
                    } else {
                        proof {
                            assert(!({ let q = elems_view(*items_4)[j as int]; q matches Val::Int(z) && i32::MIN as int <= z <= i32::MAX as int }));
                            assert(!all_ints(elems_view(*items_4), i32::MIN as int, i32::MAX as int));
                        }
                        return Err(DecodeError::OutOfRange);
                    }
                },
                _ => {
                    proof {
                        assert(!({ let q = elems_view(*items_4)[j as int]; q matches Val::Int(z) && i32::MIN as int <= z <= i32::MAX as int }));
                        assert(!all_ints(elems_view(*items_4), i32::MIN as int, i32::MAX as int));
                    }
                    return Err(DecodeError::BadField);
                },
            };
            out_4.push(x);
            j = j + 1;
        }
        proof {
            assert(elems_view(*items_4) =~~= out_4@.map_values(|y: Sfixed16P16| Val::Int(y.epsilons as int)));
            assert(all_ints(elems_view(*items_4), i32::MIN as int, i32::MAX as int));
        }
        let x_matrix = out_4;
        i = i + 1;
        if ms.len() <= i {
            return Err(DecodeError::BadField);
        }
        if !key_is(ms, i, "default_color") {
            return Err(DecodeError::BadField);
        }
        let x_default_color = StraightSRgba8::decode(&ms[i].value)?;
        i = i + 1;
        if ms.len() <= i {
            return Err(DecodeError::BadField);
        }
        let x_clamp: bool = take_bool(ms, i, "clamp")?;
        i = i + 1;
        if ms.len() <= i {
            return Err(DecodeError::BadField);
        }
        let x_preserve_alpha: bool = take_bool(ms, i, "preserve_alpha")?;
        i = i + 1;
        if i != ms.len() {
            return Err(DecodeError::BadField);
        }
        let t = Convolution { matrix_x: x_matrix_x, matrix_y: x_matrix_y, divisor: x_divisor, bias: x_bias, matrix: x_matrix, default_color: x_default_color, clamp: x_clamp, preserve_alpha: x_preserve_alpha };
        proof {
            assert(members_view(*ms).skip(start as int) =~~= obj_members(enc_convolution(t)));
        }
        Ok(t)
    }

    /// Decodes from the interchange form; succeeds exactly on well-formed
    /// encodings and then returns the encoded value.
    #[verifier::rlimit(100)]
    #[verifier::spinoff_prover]
    pub fn decode(v: &Value) -> (r: Result<Self, DecodeError>)
        ensures
            r is Ok <==> dec_ok_convolution(v@),
            r matches Ok(t) ==> v@ == enc_convolution(t),
    {
        let ms = match v {
            Value::Obj(ms) => ms,
            _ => {
                return Err(DecodeError::ExpectedObject);
            },
        };
        let t = Self::decode_members(ms, 0)?;
        proof {
            assert(members_view(*ms).skip(0) =~= members_view(*ms));
            assert(v@ == Val::Obj(members_view(*ms)));
        }
        Ok(t)
    }
}

/// Field-wise equality of two `Convolution` values (text and payloads by content).
pub open spec fn eq_convolution(a: Convolution, b: Convolution) -> bool {
    &&& a.matrix_x == b.matrix_x
    &&& a.matrix_y == b.matrix_y
    &&& a.divisor == b.divisor
    &&& a.bias == b.bias
    &&& a.matrix@ == b.matrix@
    &&& eq_straight_srgba8(a.default_color, b.default_color)
    &&& a.clamp == b.clamp
    &&& a.preserve_alpha == b.preserve_alpha
}

/// Round trip: every `Convolution` encoding is well-formed and decodes back
/// only to a field-wise equal value.
#[verifier::rlimit(100)]
#[verifier::spinoff_prover]
pub proof fn lemma_convolution_round_trip(a: Convolution, b: Convolution)
    ensures
        dec_ok_convolution(enc_convolution(a)),
        enc_convolution(a) == enc_convolution(b) ==> eq_convolution(a, b),
{
    reveal_strlit("matrix_x");
    reveal_strlit("matrix_y");
    reveal_strlit("divisor");
    reveal_strlit("bias");
    reveal_strlit("matrix");
    reveal_strlit("default_color");
    reveal_strlit("clamp");
    reveal_strlit("preserve_alpha");
    {
        let ea_matrix = a.matrix@.map_values(|y: Sfixed16P16| Val::Int(y.epsilons as int));
        let eb_matrix = b.matrix@.map_values(|y: Sfixed16P16| Val::Int(y.epsilons as int));
        assert forall|k: int| 0 <= k < ea_matrix.len() implies (#[trigger] ea_matrix[k] matches Val::Int(z) && i32::MIN as int <= z <= i32::MAX as int) by {
            assert(ea_matrix[k] == Val::Int(a.matrix@[k].epsilons as int));
        }
        assert(all_ints(ea_matrix, i32::MIN as int, i32::MAX as int));
        if ea_matrix == eb_matrix {
            assert forall|k: int| 0 <= k < a.matrix@.len() implies a.matrix@[k] == b.matrix@[k] by {
                assert(ea_matrix[k] == Val::Int(a.matrix@[k].epsilons as int));
                assert(eb_matrix[k] == Val::Int(b.matrix@[k].epsilons as int));
                assert(a.matrix@[k].epsilons as int == b.matrix@[k].epsilons as int);
            }
            assert(a.matrix@ =~= b.matrix@);
        }
    }
    lemma_straight_srgba8_round_trip(a.default_color, b.default_color);
    lemma_straight_srgba8_round_trip(a.default_color, a.default_color);
    lemma_straight_srgba8_round_trip(b.default_color, b.default_color);
    assert(dec_ok_convolution_fields(obj_members(enc_convolution(a))));
    if enc_convolution(a) == enc_convolution(b) {
        assert(eq_convolution(a, b));
    }
}

/// A drop shadow behind the object.
#[derive(Clone, Debug, PartialEq, Eq)]
pub struct DropShadow {
    pub color: StraightSRgba8,
    pub blur_x: i32,
    pub blur_y: i32,
    pub angle: i32,
    pub distance: i32,
    pub strength: i16,
    pub inner: bool,
    pub knockout: bool,
    pub composite_source: bool,
    pub passes: u8,
}

/// The interchange encoding of a `DropShadow`.
pub open spec fn enc_drop_shadow(t: DropShadow) -> Val {
    Val::Obj(seq![("color"@, enc_straight_srgba8(t.color)), ("blur_x"@, Val::Int(t.blur_x as int)), ("blur_y"@, Val::Int(t.blur_y as int)), ("angle"@, Val::Int(t.angle as int)), ("distance"@, Val::Int(t.distance as int)), ("strength"@, Val::Int(t.strength as int)), ("inner"@, Val::Bool(t.inner)), ("knockout"@, Val::Bool(t.knockout)), ("composite_source"@, Val::Bool(t.composite_source)), ("passes"@, Val::Int(t.passes as int))])
}

/// Whether `m` is exactly a well-formed `DropShadow` field list.
pub open spec fn dec_ok_drop_shadow_fields(m: Seq<(Seq<char>, Val)>) -> bool {
    &&& m[0].0 == "color"@ && dec_ok_straight_srgba8(m[0].1)
    &&& int_field(m, 1, "blur_x"@, i32::MIN as int, i32::MAX as int)
    &&& int_field(m, 2, "blur_y"@, i32::MIN as int, i32::MAX as int)
    &&& int_field(m, 3, "angle"@, i32::MIN as int, i32::MAX as int)
    &&& int_field(m, 4, "distance"@, i32::MIN as int, i32::MAX as int)
    &&& int_field(m, 5, "strength"@, i16::MIN as int, i16::MAX as int)
    &&& bool_field(m, 6, "inner"@)
    &&& bool_field(m, 7, "knockout"@)
    &&& bool_field(m, 8, "composite_source"@)
    &&& int_field(m, 9, "passes"@, 0, u8::MAX as int)
    &&& m.len() == 10
}

/// Whether `v` is a well-formed `DropShadow` encoding.
pub open spec fn dec_ok_drop_shadow(v: Val) -> bool {
    v is Obj && dec_ok_drop_shadow_fields(obj_members(v))
}

/// Every element is a well-formed `DropShadow` encoding.
pub open spec fn all_dec_ok_drop_shadow(items: Seq<Val>) -> bool {
    forall|k: int| 0 <= k < items.len() ==> dec_ok_drop_shadow(#[trigger] items[k])
}

impl DropShadow {
    /// Appends this record's members to `ms`.
    #[verifier::loop_isolation(false)]
    #[verifier::rlimit(100)]
    #[verifier::spinoff_prover]
    pub fn encode_members(&self, ms: &mut Vec<Member>)
        ensures
            members_view(*final(ms)) == members_view(*old(ms)) + obj_members(enc_drop_shadow(*self)),
    {
        push_value(ms, "color", self.color.encode());
        push_int(ms, "blur_x", self.blur_x as i128);
        push_int(ms, "blur_y", self.blur_y as i128);
        push_int(ms, "angle", self.angle as i128);
        push_int(ms, "distance", self.distance as i128);
        push_int(ms, "strength", self.strength as i128);
        push_bool(ms, "inner", self.inner);
        push_bool(ms, "knockout", self.knockout);
        push_bool(ms, "composite_source", self.composite_source);
        push_int(ms, "passes", self.passes as i128);
        proof {
            assert(members_view(*ms) =~~= members_view(*old(ms)) + obj_members(enc_drop_shadow(*self)));
        }
    }

    /// Encodes to the interchange form.
    pub fn encode(&self) -> (v: Value)
        ensures
            v@ == enc_drop_shadow(*self),
    {
        let mut ms: Vec<Member> = Vec::new();
        self.encode_members(&mut ms);
        let v = Value::Obj(ms);
        proof {
            assert(members_view(ms) =~= obj_members(enc_drop_shadow(*self)));
            assert(v@ == Val::Obj(members_view(ms)));
        }
        v
    }

    /// Decodes this record's members from `ms`, starting at `start`;
    /// succeeds exactly on a well-formed field list reaching the end.
    #[verifier::loop_isolation(false)]
    #[verifier::rlimit(100)]
    #[verifier::spinoff_prover]
    pub fn decode_members(ms: &Vec<Member>, start: usize) -> (r: Result<Self, DecodeError>)
        requires
            start as int <= members_view(*ms).len(),
        ensures
            r is Ok <==> dec_ok_drop_shadow_fields(members_view(*ms).skip(start as int)),
            r matches Ok(t) ==> members_view(*ms).skip(start as int) == obj_members(enc_drop_shadow(t)),
    {
        let ghost gm = members_view(*ms).skip(start as int);
        proof {
            assert(gm.len() == members_view(*ms).len() - start);
        }
        let mut i: usize = start;
        if ms.len() <= i {
            return Err(DecodeError::BadField);
        }
        if !key_is(ms, i, "color") {
            return Err(DecodeError::BadField);
        }
        let x_color = StraightSRgba8::decode(&ms[i].value)?;
        i = i + 1;
        if ms.len() <= i {
            return Err(DecodeError::BadField);
        }
        let x_blur_x: i32 = take_int(ms, i, "blur_x", i32::MIN as i128, i32::MAX as i128)? as i32;
        i = i + 1;
        if ms.len() <= i {
            return Err(DecodeError::BadField);
        }
        let x_blur_y: i32 = take_int(ms, i, "blur_y", i32::MIN as i128, i32::MAX as i128)? as i32;
        i = i + 1;
        if ms.len() <= i {
            return Err(DecodeError::BadField);
        }
        let x_angle: i32 = take_int(ms, i, "angle", i32::MIN as i128, i32::MAX as i128)? as i32;
        i = i + 1;
        if ms.len() <= i {
            return Err(DecodeError::BadField);
        }
        let x_distance: i32 = take_int(ms, i, "distance", i32::MIN as i128, i32::MAX as i128)? as i32;
        i = i + 1;
        if ms.len() <= i {
            return Err(DecodeError::BadField);
        }
        let x_strength: i16 = take_int(ms, i, "strength", i16::MIN as i128, i16::MAX as i128)? as i16;
        i = i + 1;
        if ms.len() <= i {
            return Err(DecodeError::BadField);
        }
        let x_inner: bool = take_bool(ms, i, "inner")?;
        i = i + 1;
        if ms.len() <= i {
            return Err(DecodeError::BadField);
        }
        let x_knockout: bool = take_bool(ms, i, "knockout")?;
        i = i + 1;
        if ms.len() <= i {
            return Err(DecodeError::BadField);
        }
        let x_composite_source: bool = take_bool(ms, i, "composite_source")?;
        i = i + 1;
        if ms.len() <= i {
            return Err(DecodeError::BadField);
        }
        let x_passes: u8 = take_int(ms, i, "passes", 0, u8::MAX as i128)? as u8;
        i = i + 1;
        if i != ms.len() {
            return Err(DecodeError::BadField);
        }
        let t = DropShadow { color: x_color, blur_x: x_blur_x, blur_y: x_blur_y, angle: x_angle, distance: x_distance, strength: x_strength, inner: x_inner, knockout: x_knockout, composite_source: x_composite_source, passes: x_passes };
        proof {
            assert(members_view(*ms).skip(start as int) =~~= obj_members(enc_drop_shadow(t)));
        }
        Ok(t)
    }

    /// Decodes from the interchange form; succeeds exactly on well-formed
    /// encodings and then returns the encoded value.
    #[verifier::rlimit(100)]
    #[verifier::spinoff_prover]
    pub fn decode(v: &Value) -> (r: Result<Self, DecodeError>)
        ensures
            r is Ok <==> dec_ok_drop_shadow(v@),
            r matches Ok(t) ==> v@ == enc_drop_shadow(t),
    {
        let ms = match v {
            Value::Obj(ms) => ms,
            _ => {
                return Err(DecodeError::ExpectedObject);
            },
        };
        let t = Self::decode_members(ms, 0)?;
        proof {
            assert(members_view(*ms).skip(0) =~= members_view(*ms));
            assert(v@ == Val::Obj(members_view(*ms)));
        }
        Ok(t)
    }
}

/// Field-wise equality of two `DropShadow` values (text and payloads by content).
pub open spec fn eq_drop_shadow(a: DropShadow, b: DropShadow) -> bool {
    &&& eq_straight_srgba8(a.color, b.color)
    &&& a.blur_x == b.blur_x
    &&& a.blur_y == b.blur_y
    &&& a.angle == b.angle
    &&& a.distance == b.distance
    &&& a.strength == b.strength
    &&& a.inner == b.inner
    &&& a.knockout == b.knockout
    &&& a.composite_source == b.composite_source
    &&& a.passes == b.passes
}

/// Round trip: every `DropShadow` encoding is well-formed and decodes back
/// only to a field-wise equal value.
#[verifier::rlimit(100)]
#[verifier::spinoff_prover]
pub proof fn lemma_drop_shadow_round_trip(a: DropShadow, b: DropShadow)
    ensures
        dec_ok_drop_shadow(enc_drop_shadow(a)),
        enc_drop_shadow(a) == enc_drop_shadow(b) ==> eq_drop_shadow(a, b),
{
    reveal_strlit("color");
    reveal_strlit("blur_x");
    reveal_strlit("blur_y");
    reveal_strlit("angle");
    reveal_strlit("distance");
    reveal_strlit("strength");
    reveal_strlit("inner");
    reveal_strlit("knockout");
    reveal_strlit("composite_source");
    reveal_strlit("passes");
    lemma_straight_srgba8_round_trip(a.color, b.color);
    lemma_straight_srgba8_round_trip(a.color, a.color);
    lemma_straight_srgba8_round_trip(b.color, b.color);
    assert(dec_ok_drop_shadow_fields(obj_members(enc_drop_shadow(a))));
    if enc_drop_shadow(a) == enc_drop_shadow(b) {
        assert(eq_drop_shadow(a, b));
    }
}

/// A glow around the object.
#[derive(Clone, Debug, PartialEq, Eq)]
pub struct Glow {
    pub color: StraightSRgba8,
    pub blur_x: i32,
    pub blur_y: i32,
    pub strength: i16,
    pub inner: bool,
    pub knockout: bool,
    pub composite_source: bool,
    pub passes: u8,
}

/// The interchange encoding of a `Glow`.
pub open spec fn enc_glow(t: Glow) -> Val {
    Val::Obj(seq![("color"@, enc_straight_srgba8(t.color)), ("blur_x"@, Val::Int(t.blur_x as int)), ("blur_y"@, Val::Int(t.blur_y as int)), ("strength"@, Val::Int(t.strength as int)), ("inner"@, Val::Bool(t.inner)), ("knockout"@, Val::Bool(t.knockout)), ("composite_source"@, Val::Bool(t.composite_source)), ("passes"@, Val::Int(t.passes as int))])
}

/// Whether `m` is exactly a well-formed `Glow` field list.
pub open spec fn dec_ok_glow_fields(m: Seq<(Seq<char>, Val)>) -> bool {
    &&& m[0].0 == "color"@ && dec_ok_straight_srgba8(m[0].1)
    &&& int_field(m, 1, "blur_x"@, i32::MIN as int, i32::MAX as int)
    &&& int_field(m, 2, "blur_y"@, i32::MIN as int, i32::MAX as int)
    &&& int_field(m, 3, "strength"@, i16::MIN as int, i16::MAX as int)
    &&& bool_field(m, 4, "inner"@)
    &&& bool_field(m, 5, "knockout"@)
    &&& bool_field(m, 6, "composite_source"@)
    &&& int_field(m, 7, "passes"@, 0, u8::MAX as int)
    &&& m.len() == 8
}

/// Whether `v` is a well-formed `Glow` encoding.
pub open spec fn dec_ok_glow(v: Val) -> bool {
    v is Obj && dec_ok_glow_fields(obj_members(v))
}

/// Every element is a well-formed `Glow` encoding.
pub open spec fn all_dec_ok_glow(items: Seq<Val>) -> bool {
    forall|k: int| 0 <= k < items.len() ==> dec_ok_glow(#[trigger] items[k])
}

impl Glow {
    /// Appends this record's members to `ms`.
    #[verifier::loop_isolation(false)]
    #[verifier::rlimit(100)]
    #[verifier::spinoff_prover]
    pub fn encode_members(&self, ms: &mut Vec<Member>)
        ensures
            members_view(*final(ms)) == members_view(*old(ms)) + obj_members(enc_glow(*self)),
    {
        push_value(ms, "color", self.color.encode());
        push_int(ms, "blur_x", self.blur_x as i128);
        push_int(ms, "blur_y", self.blur_y as i128);
        push_int(ms, "strength", self.strength as i128);
        push_bool(ms, "inner", self.inner);
        push_bool(ms, "knockout", self.knockout);
        push_bool(ms, "composite_source", self.composite_source);
        push_int(ms, "passes", self.passes as i128);
        proof {
            assert(members_view(*ms) =~~= members_view(*old(ms)) + obj_members(enc_glow(*self)));
        }
    }

    /// Encodes to the interchange form.
    pub fn encode(&self) -> (v: Value)
        ensures
            v@ == enc_glow(*self),
    {
        let mut ms: Vec<Member> = Vec::new();
        self.encode_members(&mut ms);
        let v = Value::Obj(ms);
        proof {
            assert(members_view(ms) =~= obj_members(enc_glow(*self)));
            assert(v@ == Val::Obj(members_view(ms)));
        }
        v
    }

    /// Decodes this record's members from `ms`, starting at `start`;
    /// succeeds exactly on a well-formed field list reaching the end.
    #[verifier::loop_isolation(false)]
    #[verifier::rlimit(100)]
    #[verifier::spinoff_prover]
    pub fn decode_members(ms: &Vec<Member>, start: usize) -> (r: Result<Self, DecodeError>)
        requires
            start as int <= members_view(*ms).len(),
        ensures
            r is Ok <==> dec_ok_glow_fields(members_view(*ms).skip(start as int)),
            r matches Ok(t) ==> members_view(*ms).skip(start as int) == obj_members(enc_glow(t)),
    {
        let ghost gm = members_view(*ms).skip(start as int);
        proof {
            assert(gm.len() == members_view(*ms).len() - start);
        }
        let mut i: usize = start;
        if ms.len() <= i {
            return Err(DecodeError::BadField);
        }
        if !key_is(ms, i, "color") {
            return Err(DecodeError::BadField);
        }
        let x_color = StraightSRgba8::decode(&ms[i].value)?;
        i = i + 1;
        if ms.len() <= i {
            return Err(DecodeError::BadField);
        }
        let x_blur_x: i32 = take_int(ms, i, "blur_x", i32::MIN as i128, i32::MAX as i128)? as i32;
        i = i + 1;
        if ms.len() <= i {
            return Err(DecodeError::BadField);
        }
        let x_blur_y: i32 = take_int(ms, i, "blur_y", i32::MIN as i128, i32::MAX as i128)? as i32;
        i = i + 1;
        if ms.len() <= i {
            return Err(DecodeError::BadField);
        }
        let x_strength: i16 = take_int(ms, i, "strength", i16::MIN as i128, i16::MAX as i128)? as i16;
        i = i + 1;
        if ms.len() <= i {
            return Err(DecodeError::BadField);
        }
        let x_inner: bool = take_bool(ms, i, "inner")?;
        i = i + 1;
        if ms.len() <= i {
            return Err(DecodeError::BadField);
        }
        let x_knockout: bool = take_bool(ms, i, "knockout")?;
        i = i + 1;
        if ms.len() <= i {
            return Err(DecodeError::BadField);
        }
        let x_composite_source: bool = take_bool(ms, i, "composite_source")?;
        i = i + 1;
        if ms.len() <= i {
            return Err(DecodeError::BadField);
        }
        let x_passes: u8 = take_int(ms, i, "passes", 0, u8::MAX as i128)? as u8;
        i = i + 1;
        if i != ms.len() {
            return Err(DecodeError::BadField);
        }
        let t = Glow { color: x_color, blur_x: x_blur_x, blur_y: x_blur_y, strength: x_strength, inner: x_inner, knockout: x_knockout, composite_source: x_composite_source, passes: x_passes };
        proof {
            assert(members_view(*ms).skip(start as int) =~~= obj_members(enc_glow(t)));
        }
        Ok(t)
    }

    /// Decodes from the interchange form; succeeds exactly on well-formed
    /// encodings and then returns the encoded value.
    #[verifier::rlimit(100)]
    #[verifier::spinoff_prover]
    pub fn decode(v: &Value) -> (r: Result<Self, DecodeError>)
        ensures
            r is Ok <==> dec_ok_glow(v@),
            r matches Ok(t) ==> v@ == enc_glow(t),
    {
        let ms = match v {
            Value::Obj(ms) => ms,
            _ => {
                return Err(DecodeError::ExpectedObject);
            },
        };
        let t = Self::decode_members(ms, 0)?;
        proof {
            assert(members_view(*ms).skip(0) =~= members_view(*ms));
            assert(v@ == Val::Obj(members_view(*ms)));
        }
        Ok(t)
    }
}

/// Field-wise equality of two `Glow` values (text and payloads by content).
pub open spec fn eq_glow(a: Glow, b: Glow) -> bool {
    &&& eq_straight_srgba8(a.color, b.color)
    &&& a.blur_x == b.blur_x
    &&& a.blur_y == b.blur_y
    &&& a.strength == b.strength
    &&& a.inner == b.inner
    &&& a.knockout == b.knockout
    &&& a.composite_source == b.composite_source
    &&& a.passes == b.passes
}

/// Round trip: every `Glow` encoding is well-formed and decodes back
/// only to a field-wise equal value.
#[verifier::rlimit(100)]
#[verifier::spinoff_prover]
pub proof fn lemma_glow_round_trip(a: Glow, b: Glow)
    ensures
        dec_ok_glow(enc_glow(a)),
        enc_glow(a) == enc_glow(b) ==> eq_glow(a, b),
{
    reveal_strlit("color");
    reveal_strlit("blur_x");
    reveal_strlit("blur_y");
    reveal_strlit("strength");
    reveal_strlit("inner");
    reveal_strlit("knockout");
    reveal_strlit("composite_source");
    reveal_strlit("passes");
    lemma_straight_srgba8_round_trip(a.color, b.color);
    lemma_straight_srgba8_round_trip(a.color, a.color);
    lemma_straight_srgba8_round_trip(b.color, b.color);
    assert(dec_ok_glow_fields(obj_members(enc_glow(a))));
    if enc_glow(a) == enc_glow(b) {
        assert(eq_glow(a, b));
    }
}

/// A bevel colored by a gradient ramp.
#[derive(Clone, Debug, PartialEq, Eq)]
pub struct GradientBevel {
    pub gradient: Vec<ColorStop>,
    pub blur_x: i32,
    pub blur_y: i32,
    pub angle: i32,
    pub distance: i32,
    pub strength: i16,
    pub inner: bool,
    pub knockout: bool,
    pub on_top: bool,
    pub passes: u8,
}

/// The interchange encoding of a `GradientBevel`.
pub open spec fn enc_gradient_bevel(t: GradientBevel) -> Val {
    Val::Obj(seq![("gradient"@, Val::Arr(t.gradient@.map_values(|y: ColorStop| enc_color_stop(y)))), ("blur_x"@, Val::Int(t.blur_x as int)), ("blur_y"@, Val::Int(t.blur_y as int)), ("angle"@, Val::Int(t.angle as int)), ("distance"@, Val::Int(t.distance as int)), ("strength"@, Val::Int(t.strength as int)), ("inner"@, Val::Bool(t.inner)), ("knockout"@, Val::Bool(t.knockout)), ("on_top"@, Val::Bool(t.on_top)), ("passes"@, Val::Int(t.passes as int))])
}

/// Whether `m` is exactly a well-formed `GradientBevel` field list.
pub open spec fn dec_ok_gradient_bevel_fields(m: Seq<(Seq<char>, Val)>) -> bool {
    &&& m[0].0 == "gradient"@ && (m[0].1 is Arr && all_dec_ok_color_stop(arr_items(m[0].1)))
    &&& int_field(m, 1, "blur_x"@, i32::MIN as int, i32::MAX as int)
    &&& int_field(m, 2, "blur_y"@, i32::MIN as int, i32::MAX as int)
    &&& int_field(m, 3, "angle"@, i32::MIN as int, i32::MAX as int)
    &&& int_field(m, 4, "distance"@, i32::MIN as int, i32::MAX as int)
    &&& int_field(m, 5, "strength"@, i16::MIN as int, i16::MAX as int)
    &&& bool_field(m, 6, "inner"@)
    &&& bool_field(m, 7, "knockout"@)
    &&& bool_field(m, 8, "on_top"@)
    &&& int_field(m, 9, "passes"@, 0, u8::MAX as int)
    &&& m.len() == 10
}

/// Whether `v` is a well-formed `GradientBevel` encoding.
pub open spec fn dec_ok_gradient_bevel(v: Val) -> bool {
    v is Obj && dec_ok_gradient_bevel_fields(obj_members(v))
}

/// Every element is a well-formed `GradientBevel` encoding.
pub open spec fn all_dec_ok_gradient_bevel(items: Seq<Val>) -> bool {
    forall|k: int| 0 <= k < items.len() ==> dec_ok_gradient_bevel(#[trigger] items[k])
}

impl GradientBevel {
    /// Appends this record's members to `ms`.
    #[verifier::loop_isolation(false)]
    #[verifier::rlimit(100)]
    #[verifier::spinoff_prover]
    pub fn encode_members(&self, ms: &mut Vec<Member>)
        ensures
            members_view(*final(ms)) == members_view(*old(ms)) + obj_members(enc_gradient_bevel(*self)),
    {
        let mut arr_0: Vec<Value> = Vec::new();
        let mut j: usize = 0;
        while j < self.gradient.len()
            invariant
                j <= self.gradient@.len(),
                arr_0@.len() == j as int,
                forall|k: int| 0 <= k < j ==> #[trigger] val_view(arr_0@[k]) == enc_color_stop(self.gradient@[k]),
            decreases self.gradient@.len() - j,
        {
            arr_0.push(self.gradient[j].encode());
            j = j + 1;
        }
        proof {
            let m2 = self.gradient@.map_values(|y: ColorStop| enc_color_stop(y));
            assert(elems_view(arr_0).len() == m2.len());
            assert forall|k: int| 0 <= k < m2.len() implies elems_view(arr_0)[k] == m2[k] by {
                assert(val_view(arr_0@[k]) == enc_color_stop(self.gradient@[k]));
                assert(m2[k] == enc_color_stop(self.gradient@[k]));
            }
            assert(elems_view(arr_0) =~~= m2);
        }
        push_value(ms, "gradient", Value::Arr(arr_0));
        push_int(ms, "blur_x", self.blur_x as i128);
        push_int(ms, "blur_y", self.blur_y as i128);
        push_int(ms, "angle", self.angle as i128);
        push_int(ms, "distance", self.distance as i128);
        push_int(ms, "strength", self.strength as i128);
        push_bool(ms, "inner", self.inner);
        push_bool(ms, "knockout", self.knockout);
        push_bool(ms, "on_top", self.on_top);
        push_int(ms, "passes", self.passes as i128);
        proof {
            assert(members_view(*ms) =~~= members_view(*old(ms)) + obj_members(enc_gradient_bevel(*self)));
        }
    }

    /// Encodes to the interchange form.
    pub fn encode(&self) -> (v: Value)
        ensures
            v@ == enc_gradient_bevel(*self),
    {
        let mut ms: Vec<Member> = Vec::new();
        self.encode_members(&mut ms);
        let v = Value::Obj(ms);
        proof {
            assert(members_view(ms) =~= obj_members(enc_gradient_bevel(*self)));
            assert(v@ == Val::Obj(members_view(ms)));
        }
        v
    }

    /// Decodes this record's members from `ms`, starting at `start`;
    /// succeeds exactly on a well-formed field list reaching the end.
    #[verifier::loop_isolation(false)]
    #[verifier::rlimit(100)]
    #[verifier::spinoff_prover]
    pub fn decode_members(ms: &Vec<Member>, start: usize) -> (r: Result<Self, DecodeError>)
        requires
            start as int <= members_view(*ms).len(),
        ensures
            r is Ok <==> dec_ok_gradient_bevel_fields(members_view(*ms).skip(start as int)),
            r matches Ok(t) ==> members_view(*ms).skip(start as int) == obj_members(enc_gradient_bevel(t)),
    {
        let ghost gm = members_view(*ms).skip(start as int);
        proof {
            assert(gm.len() == members_view(*ms).len() - start);
        }
        let mut i: usize = start;
        if ms.len() <= i {
            return Err(DecodeError::BadField);
        }
        if !key_is(ms, i, "gradient") {
            return Err(DecodeError::BadField);
        }
        let items_0 = match &ms[i].value {
            Value::Arr(a) => a,
            _ => {
                return Err(DecodeError::BadField);
            },
        };
        proof {
            assert(members_view(*ms)[i as int].1 == Val::Arr(elems_view(*items_0)));
            assert(arr_items(gm[(i - start) as int].1) == elems_view(*items_0));
        }
        let mut out_0: Vec<ColorStop> = Vec::new();
        let mut j: usize = 0;
        while j < items_0.len()
            invariant
                j <= items_0@.len(),
                out_0@.len() == j as int,
                forall|k: int| 0 <= k < j ==> #[trigger] elems_view(*items_0)[k] == enc_color_stop(out_0@[k]),
                forall|k: int| 0 <= k < j ==> dec_ok_color_stop(#[trigger] elems_view(*items_0)[k]),
            decreases items_0@.len() - j,
        {
            let x = match ColorStop::decode(&items_0[j]) {
                Ok(x) => x,
                Err(e) => {
                    proof {
                        assert(!dec_ok_color_stop(elems_view(*items_0)[j as int]));
                        assert(!all_dec_ok_color_stop(elems_view(*items_0)));
                    }
                    return Err(e);
                },
            };
            out_0.push(x);
            j = j + 1;
        }
        proof {
            assert(elems_view(*items_0) =~~= out_0@.map_values(|y: ColorStop| enc_color_stop(y)));
            assert(all_dec_ok_color_stop(elems_view(*items_0)));
        }
        let x_gradient = out_0;
        i = i + 1;
        if ms.len() <= i {
            return Err(DecodeError::BadField);
        }
        let x_blur_x: i32 = take_int(ms, i, "blur_x", i32::MIN as i128, i32::MAX as i128)? as i32;
        i = i + 1;
        if ms.len() <= i {
            return Err(DecodeError::BadField);
        }
        let x_blur_y: i32 = take_int(ms, i, "blur_y", i32::MIN as i128, i32::MAX as i128)? as i32;
        i = i + 1;
        if ms.len() <= i {
            return Err(DecodeError::BadField);
        }
        let x_angle: i32 = take_int(ms, i, "angle", i32::MIN as i128, i32::MAX as i128)? as i32;
        i = i + 1;
        if ms.len() <= i {
            return Err(DecodeError::BadField);
        }
        let x_distance: i32 = take_int(ms, i, "distance", i32::MIN as i128, i32::MAX as i128)? as i32;
        i = i + 1;
        if ms.len() <= i {
            return Err(DecodeError::BadField);
        }
        let x_strength: i16 = take_int(ms, i, "strength", i16::MIN as i128, i16::MAX as i128)? as i16;
        i = i + 1;
        if ms.len() <= i {
            return Err(DecodeError::BadField);
        }
        let x_inner: bool = take_bool(ms, i, "inner")?;
        i = i + 1;
        if ms.len() <= i {
            return Err(DecodeError::BadField);
        }
        let x_knockout: bool = take_bool(ms, i, "knockout")?;
        i = i + 1;
        if ms.len() <= i {
            return Err(DecodeError::BadField);
        }
        let x_on_top: bool = take_bool(ms, i, "on_top")?;
        i = i + 1;
        if ms.len() <= i {
            return Err(DecodeError::BadField);
        }
        let x_passes: u8 = take_int(ms, i, "passes", 0, u8::MAX as i128)? as u8;
        i = i + 1;
        if i != ms.len() {
            return Err(DecodeError::BadField);
        }
        let t = GradientBevel { gradient: x_gradient, blur_x: x_blur_x, blur_y: x_blur_y, angle: x_angle, distance: x_distance, strength: x_strength, inner: x_inner, knockout: x_knockout, on_top: x_on_top, passes: x_passes };
        proof {
            assert(members_view(*ms).skip(start as int) =~~= obj_members(enc_gradient_bevel(t)));
        }
        Ok(t)
    }

    /// Decodes from the interchange form; succeeds exactly on well-formed
    /// encodings and then returns the encoded value.
    #[verifier::rlimit(100)]
    #[verifier::spinoff_prover]
    pub fn decode(v: &Value) -> (r: Result<Self, DecodeError>)
        ensures
            r is Ok <==> dec_ok_gradient_bevel(v@),
            r matches Ok(t) ==> v@ == enc_gradient_bevel(t),
    {
        let ms = match v {
            Value::Obj(ms) => ms,
            _ => {
                return Err(DecodeError::ExpectedObject);
            },
        };
        let t = Self::decode_members(ms, 0)?;
        proof {
            assert(members_view(*ms).skip(0) =~= members_view(*ms));
            assert(v@ == Val::Obj(members_view(*ms)));
        }
        Ok(t)
    }
}

/// Field-wise equality of two `GradientBevel` values (text and payloads by content).
pub open spec fn eq_gradient_bevel(a: GradientBevel, b: GradientBevel) -> bool {
    &&& (a.gradient@.len() == b.gradient@.len() && (forall|k: int| 0 <= k < a.gradient@.len() ==> eq_color_stop(#[trigger] a.gradient@[k], b.gradient@[k])))
    &&& a.blur_x == b.blur_x
    &&& a.blur_y == b.blur_y
    &&& a.angle == b.angle
    &&& a.distance == b.distance
    &&& a.strength == b.strength
    &&& a.inner == b.inner
    &&& a.knockout == b.knockout
    &&& a.on_top == b.on_top
    &&& a.passes == b.passes
}

/// Round trip: every `GradientBevel` encoding is well-formed and decodes back
/// only to a field-wise equal value.
#[verifier::rlimit(100)]
#[verifier::spinoff_prover]
pub proof fn lemma_gradient_bevel_round_trip(a: GradientBevel, b: GradientBevel)
    ensures
        dec_ok_gradient_bevel(enc_gradient_bevel(a)),
        enc_gradient_bevel(a) == enc_gradient_bevel(b) ==> eq_gradient_bevel(a, b),
{
    reveal_strlit("gradient");
    reveal_strlit("blur_x");
    reveal_strlit("blur_y");
    reveal_strlit("angle");
    reveal_strlit("distance");
    reveal_strlit("strength");
    reveal_strlit("inner");
    reveal_strlit("knockout");
    reveal_strlit("on_top");
    reveal_strlit("passes");
    {
        let ea0 = a.gradient@.map_values(|y: ColorStop| enc_color_stop(y));
        assert forall|k: int| 0 <= k < ea0.len() implies dec_ok_color_stop(#[trigger] ea0[k]) by {
            lemma_color_stop_round_trip(a.gradient@[k], a.gradient@[k]);
        }
        assert(all_dec_ok_color_stop(ea0));
    }
    {
        let ea = a.gradient@.map_values(|y: ColorStop| enc_color_stop(y));
        let eb = b.gradient@.map_values(|y: ColorStop| enc_color_stop(y));
        if ea == eb {
            assert forall|k: int| 0 <= k < a.gradient@.len() implies eq_color_stop(#[trigger] a.gradient@[k], b.gradient@[k]) by {
                assert(ea[k] == eb[k]);
                lemma_color_stop_round_trip(a.gradient@[k], b.gradient@[k]);
            }
        }
    }
    assert(dec_ok_gradient_bevel_fields(obj_members(enc_gradient_bevel(a))));
    if enc_gradient_bevel(a) == enc_gradient_bevel(b) {
        assert(eq_gradient_bevel(a, b));
    }
}

/// A glow colored by a gradient ramp.
#[derive(Clone, Debug, PartialEq, Eq)]
pub struct GradientGlow {
    pub gradient: Vec<ColorStop>,
    pub blur_x: i32,
    pub blur_y: i32,
    pub angle: i32,
    pub distance: i32,
    pub strength: i16,
    pub inner: bool,
    pub knockout: bool,
    pub passes: u8,
}

/// The interchange encoding of a `GradientGlow`.
pub open spec fn enc_gradient_glow(t: GradientGlow) -> Val {
    Val::Obj(seq![("gradient"@, Val::Arr(t.gradient@.map_values(|y: ColorStop| enc_color_stop(y)))), ("blur_x"@, Val::Int(t.blur_x as int)), ("blur_y"@, Val::Int(t.blur_y as int)), ("angle"@, Val::Int(t.angle as int)), ("distance"@, Val::Int(t.distance as int)), ("strength"@, Val::Int(t.strength as int)), ("inner"@, Val::Bool(t.inner)), ("knockout"@, Val::Bool(t.knockout)), ("passes"@, Val::Int(t.passes as int))])
}

/// Whether `m` is exactly a well-formed `GradientGlow` field list.
pub open spec fn dec_ok_gradient_glow_fields(m: Seq<(Seq<char>, Val)>) -> bool {
    &&& m[0].0 == "gradient"@ && (m[0].1 is Arr && all_dec_ok_color_stop(arr_items(m[0].1)))
    &&& int_field(m, 1, "blur_x"@, i32::MIN as int, i32::MAX as int)
    &&& int_field(m, 2, "blur_y"@, i32::MIN as int, i32::MAX as int)
    &&& int_field(m, 3, "angle"@, i32::MIN as int, i32::MAX as int)
    &&& int_field(m, 4, "distance"@, i32::MIN as int, i32::MAX as int)
    &&& int_field(m, 5, "strength"@, i16::MIN as int, i16::MAX as int)
    &&& bool_field(m, 6, "inner"@)
    &&& bool_field(m, 7, "knockout"@)
    &&& int_field(m, 8, "passes"@, 0, u8::MAX as int)
    &&& m.len() == 9
}

/// Whether `v` is a well-formed `GradientGlow` encoding.
pub open spec fn dec_ok_gradient_glow(v: Val) -> bool {
    v is Obj && dec_ok_gradient_glow_fields(obj_members(v))
}

/// Every element is a well-formed `GradientGlow` encoding.
pub open spec fn all_dec_ok_gradient_glow(items: Seq<Val>) -> bool {
    forall|k: int| 0 <= k < items.len() ==> dec_ok_gradient_glow(#[trigger] items[k])
}

impl GradientGlow {
    /// Appends this record's members to `ms`.
    #[verifier::loop_isolation(false)]
    #[verifier::rlimit(100)]
    #[verifier::spinoff_prover]
    pub fn encode_members(&self, ms: &mut Vec<Member>)
        ensures
            members_view(*final(ms)) == members_view(*old(ms)) + obj_members(enc_gradient_glow(*self)),
    {
        let mut arr_0: Vec<Value> = Vec::new();
        let mut j: usize = 0;
        while j < self.gradient.len()
            invariant
                j <= self.gradient@.len(),
                arr_0@.len() == j as int,
                forall|k: int| 0 <= k < j ==> #[trigger] val_view(arr_0@[k]) == enc_color_stop(self.gradient@[k]),
            decreases self.gradient@.len() - j,
        {
            arr_0.push(self.gradient[j].encode());
            j = j + 1;
        }
        proof {
            let m2 = self.gradient@.map_values(|y: ColorStop| enc_color_stop(y));
            assert(elems_view(arr_0).len() == m2.len());
            assert forall|k: int| 0 <= k < m2.len() implies elems_view(arr_0)[k] == m2[k] by {
                assert(val_view(arr_0@[k]) == enc_color_stop(self.gradient@[k]));
                assert(m2[k] == enc_color_stop(self.gradient@[k]));
            }
            assert(elems_view(arr_0) =~~= m2);
        }
        push_value(ms, "gradient", Value::Arr(arr_0));
        push_int(ms, "blur_x", self.blur_x as i128);
        push_int(ms, "blur_y", self.blur_y as i128);
        push_int(ms, "angle", self.angle as i128);
        push_int(ms, "distance", self.distance as i128);
        push_int(ms, "strength", self.strength as i128);
        push_bool(ms, "inner", self.inner);
        push_bool(ms, "knockout", self.knockout);
        push_int(ms, "passes", self.passes as i128);
        proof {
            assert(members_view(*ms) =~~= members_view(*old(ms)) + obj_members(enc_gradient_glow(*self)));
        }
    }

    /// Encodes to the interchange form.
    pub fn encode(&self) -> (v: Value)
        ensures
            v@ == enc_gradient_glow(*self),
    {
        let mut ms: Vec<Member> = Vec::new();
        self.encode_members(&mut ms);
        let v = Value::Obj(ms);
        proof {
            assert(members_view(ms) =~= obj_members(enc_gradient_glow(*self)));
            assert(v@ == Val::Obj(members_view(ms)));
        }
        v
    }

    /// Decodes this record's members from `ms`, starting at `start`;
    /// succeeds exactly on a well-formed field list reaching the end.
    #[verifier::loop_isolation(false)]
    #[verifier::rlimit(100)]
    #[verifier::spinoff_prover]
    pub fn decode_members(ms: &Vec<Member>, start: usize) -> (r: Result<Self, DecodeError>)
        requires
            start as int <= members_view(*ms).len(),
        ensures
            r is Ok <==> dec_ok_gradient_glow_fields(members_view(*ms).skip(start as int)),
            r matches Ok(t) ==> members_view(*ms).skip(start as int) == obj_members(enc_gradient_glow(t)),
    {
        let ghost gm = members_view(*ms).skip(start as int);
        proof {
            assert(gm.len() == members_view(*ms).len() - start);
        }
        let mut i: usize = start;
        if ms.len() <= i {
            return Err(DecodeError::BadField);
        }
        if !key_is(ms, i, "gradient") {
            return Err(DecodeError::BadField);
        }
        let items_0 = match &ms[i].value {
            Value::Arr(a) => a,
            _ => {
                return Err(DecodeError::BadField);
            },
        };
        proof {
            assert(members_view(*ms)[i as int].1 == Val::Arr(elems_view(*items_0)));
            assert(arr_items(gm[(i - start) as int].1) == elems_view(*items_0));
        }
        let mut out_0: Vec<ColorStop> = Vec::new();
        let mut j: usize = 0;
        while j < items_0.len()
            invariant
                j <= items_0@.len(),
                out_0@.len() == j as int,
                forall|k: int| 0 <= k < j ==> #[trigger] elems_view(*items_0)[k] == enc_color_stop(out_0@[k]),
                forall|k: int| 0 <= k < j ==> dec_ok_color_stop(#[trigger] elems_view(*items_0)[k]),
            decreases items_0@.len() - j,
        {
            let x = match ColorStop::decode(&items_0[j]) {
                Ok(x) => x,
                Err(e) => {
                    proof {
                        assert(!dec_ok_color_stop(elems_view(*items_0)[j as int]));
                        assert(!all_dec_ok_color_stop(elems_view(*items_0)));
                    }
                    return Err(e);
                },
            };
            out_0.push(x);
            j = j + 1;
        }
        proof {
            assert(elems_view(*items_0) =~~= out_0@.map_values(|y: ColorStop| enc_color_stop(y)));
            assert(all_dec_ok_color_stop(elems_view(*items_0)));
        }
        let x_gradient = out_0;
        i = i + 1;
        if ms.len() <= i {
            return Err(DecodeError::BadField);
        }
        let x_blur_x: i32 = take_int(ms, i, "blur_x", i32::MIN as i128, i32::MAX as i128)? as i32;
        i = i + 1;
        if ms.len() <= i {
            return Err(DecodeError::BadField);
        }
        let x_blur_y: i32 = take_int(ms, i, "blur_y", i32::MIN as i128, i32::MAX as i128)? as i32;
        i = i + 1;
        if ms.len() <= i {
            return Err(DecodeError::BadField);
        }
        let x_angle: i32 = take_int(ms, i, "angle", i32::MIN as i128, i32::MAX as i128)? as i32;
        i = i + 1;
        if ms.len() <= i {
            return Err(DecodeError::BadField);
        }
        let x_distance: i32 = take_int(ms, i, "distance", i32::MIN as i128, i32::MAX as i128)? as i32;
        i = i + 1;
        if ms.len() <= i {
            return Err(DecodeError::BadField);
        }
        let x_strength: i16 = take_int(ms, i, "strength", i16::MIN as i128, i16::MAX as i128)? as i16;
        i = i + 1;
        if ms.len() <= i {
            return Err(DecodeError::BadField);
        }
        let x_inner: bool = take_bool(ms, i, "inner")?;
        i = i + 1;
        if ms.len() <= i {
            return Err(DecodeError::BadField);
        }
        let x_knockout: bool = take_bool(ms, i, "knockout")?;
        i = i + 1;
        if ms.len() <= i {
            return Err(DecodeError::BadField);
        }
        let x_passes: u8 = take_int(ms, i, "passes", 0, u8::MAX as i128)? as u8;
        i = i + 1;
        if i != ms.len() {
            return Err(DecodeError::BadField);
        }
        let t = GradientGlow { gradient: x_gradient, blur_x: x_blur_x, blur_y: x_blur_y, angle: x_angle, distance: x_distance, strength: x_strength, inner: x_inner, knockout: x_knockout, passes: x_passes };
        proof {
            assert(members_view(*ms).skip(start as int) =~~= obj_members(enc_gradient_glow(t)));
        }
        Ok(t)
    }

    /// Decodes from the interchange form; succeeds exactly on well-formed
    /// encodings and then returns the encoded value.
    #[verifier::rlimit(100)]
    #[verifier::spinoff_prover]
    pub fn decode(v: &Value) -> (r: Result<Self, DecodeError>)
        ensures
            r is Ok <==> dec_ok_gradient_glow(v@),
            r matches Ok(t) ==> v@ == enc_gradient_glow(t),
    {
        let ms = match v {
            Value::Obj(ms) => ms,
            _ => {
                return Err(DecodeError::ExpectedObject);
            },
        };
        let t = Self::decode_members(ms, 0)?;
        proof {
            assert(members_view(*ms).skip(0) =~= members_view(*ms));
            assert(v@ == Val::Obj(members_view(*ms)));
        }
        Ok(t)
    }
}

/// Field-wise equality of two `GradientGlow` values (text and payloads by content).
pub open spec fn eq_gradient_glow(a: GradientGlow, b: GradientGlow) -> bool {
    &&& (a.gradient@.len() == b.gradient@.len() && (forall|k: int| 0 <= k < a.gradient@.len() ==> eq_color_stop(#[trigger] a.gradient@[k], b.gradient@[k])))
    &&& a.blur_x == b.blur_x
    &&& a.blur_y == b.blur_y
    &&& a.angle == b.angle
    &&& a.distance == b.distance
    &&& a.strength == b.strength
    &&& a.inner == b.inner
    &&& a.knockout == b.knockout
    &&& a.passes == b.passes
}

/// Round trip: every `GradientGlow` encoding is well-formed and decodes back
/// only to a field-wise equal value.
#[verifier::rlimit(100)]
#[verifier::spinoff_prover]
pub proof fn lemma_gradient_glow_round_trip(a: GradientGlow, b: GradientGlow)
    ensures
        dec_ok_gradient_glow(enc_gradient_glow(a)),
        enc_gradient_glow(a) == enc_gradient_glow(b) ==> eq_gradient_glow(a, b),
{
    reveal_strlit("gradient");
    reveal_strlit("blur_x");
    reveal_strlit("blur_y");
    reveal_strlit("angle");
    reveal_strlit("distance");
    reveal_strlit("strength");
    reveal_strlit("inner");
    reveal_strlit("knockout");
    reveal_strlit("passes");
    {
        let ea0 = a.gradient@.map_values(|y: ColorStop| enc_color_stop(y));
        assert forall|k: int| 0 <= k < ea0.len() implies dec_ok_color_stop(#[trigger] ea0[k]) by {
            lemma_color_stop_round_trip(a.gradient@[k], a.gradient@[k]);
        }
        assert(all_dec_ok_color_stop(ea0));
    }
    {
        let ea = a.gradient@.map_values(|y: ColorStop| enc_color_stop(y));
        let eb = b.gradient@.map_values(|y: ColorStop| enc_color_stop(y));
        if ea == eb {
            assert forall|k: int| 0 <= k < a.gradient@.len() implies eq_color_stop(#[trigger] a.gradient@[k], b.gradient@[k]) by {
                assert(ea[k] == eb[k]);
                lemma_color_stop_round_trip(a.gradient@[k], b.gradient@[k]);
            }
        }
    }
    assert(dec_ok_gradient_glow_fields(obj_members(enc_gradient_glow(a))));
    if enc_gradient_glow(a) == enc_gradient_glow(b) {
        assert(eq_gradient_glow(a, b));
    }
}

/// A post-processing effect on a placed object: a closed union of
/// eight filter kinds, discriminated by a hyphenated lowercase tag.
#[derive(Clone, Debug, PartialEq, Eq)]
pub enum Filter {
    Blur(Blur),
    Bevel(Bevel),
    ColorMatrix(ColorMatrix),
    Convolution(Convolution),
    DropShadow(DropShadow),
    Glow(Glow),
    GradientBevel(GradientBevel),
    GradientGlow(GradientGlow),
}

/// The interchange encoding of a `Filter`: an object whose first member is
/// the symbolic `type` discriminant, followed by the variant's fields.
pub open spec fn enc_filter(t: Filter) -> Val {
    match t {
        Filter::Blur(x) => Val::Obj(seq![("type"@, Val::Str("blur"@))] + obj_members(enc_blur(x))),
        Filter::Bevel(x) => Val::Obj(seq![("type"@, Val::Str("bevel"@))] + obj_members(enc_bevel(x))),
        Filter::ColorMatrix(x) => Val::Obj(seq![("type"@, Val::Str("color-matrix"@))] + obj_members(enc_color_matrix(x))),
        Filter::Convolution(x) => Val::Obj(seq![("type"@, Val::Str("convolution"@))] + obj_members(enc_convolution(x))),
        Filter::DropShadow(x) => Val::Obj(seq![("type"@, Val::Str("drop-shadow"@))] + obj_members(enc_drop_shadow(x))),
        Filter::Glow(x) => Val::Obj(seq![("type"@, Val::Str("glow"@))] + obj_members(enc_glow(x))),
        Filter::GradientBevel(x) => Val::Obj(seq![("type"@, Val::Str("gradient-bevel"@))] + obj_members(enc_gradient_bevel(x))),
        Filter::GradientGlow(x) => Val::Obj(seq![("type"@, Val::Str("gradient-glow"@))] + obj_members(enc_gradient_glow(x))),
    }
}

/// Whether `v` is a well-formed `Filter` encoding.
pub open spec fn dec_ok_filter(v: Val) -> bool {
    let m = obj_members(v);
    &&& v is Obj
    &&& m.len() >= 1
    &&& str_field(m, 0, "type"@)
    &&& ({
        let ty = str_at(m, 0);
        if ty == "blur"@ {
            dec_ok_blur_fields(m.skip(1))
        } else if ty == "bevel"@ {
            dec_ok_bevel_fields(m.skip(1))
        } else if ty == "color-matrix"@ {
            dec_ok_color_matrix_fields(m.skip(1))
        } else if ty == "convolution"@ {
            dec_ok_convolution_fields(m.skip(1))
        } else if ty == "drop-shadow"@ {
            dec_ok_drop_shadow_fields(m.skip(1))
        } else if ty == "glow"@ {
            dec_ok_glow_fields(m.skip(1))
        } else if ty == "gradient-bevel"@ {
            dec_ok_gradient_bevel_fields(m.skip(1))
        } else if ty == "gradient-glow"@ {
            dec_ok_gradient_glow_fields(m.skip(1))
        } else {
            false
        }
    })
}

impl Filter {
    /// Encodes to the interchange form.
    pub fn encode(&self) -> (v: Value)
        ensures
            v@ == enc_filter(*self),
    {
        let mut ms: Vec<Member> = Vec::new();
        match self {
            Filter::Blur(x) => {
                push_lit(&mut ms, "type", "blur");
                x.encode_members(&mut ms);
            },
            Filter::Bevel(x) => {
                push_lit(&mut ms, "type", "bevel");
                x.encode_members(&mut ms);
            },
            Filter::ColorMatrix(x) => {
                push_lit(&mut ms, "type", "color-matrix");
                x.encode_members(&mut ms);
            },
            Filter::Convolution(x) => {
                push_lit(&mut ms, "type", "convolution");
                x.encode_members(&mut ms);
            },
            Filter::DropShadow(x) => {
                push_lit(&mut ms, "type", "drop-shadow");
                x.encode_members(&mut ms);
            },
            Filter::Glow(x) => {
                push_lit(&mut ms, "type", "glow");
                x.encode_members(&mut ms);
            },
            Filter::GradientBevel(x) => {
                push_lit(&mut ms, "type", "gradient-bevel");
                x.encode_members(&mut ms);
            },
            Filter::GradientGlow(x) => {
                push_lit(&mut ms, "type", "gradient-glow");
                x.encode_members(&mut ms);
            },
        }
        let v = Value::Obj(ms);
        proof {
            assert(members_view(ms) =~= obj_members(enc_filter(*self)));
            assert(v@ == Val::Obj(members_view(ms)));
        }
        v
    }

    /// Decodes from the interchange form; a discriminant outside the closed
    /// variant set is rejected.
    pub fn decode(v: &Value) -> (r: Result<Self, DecodeError>)
        ensures
            r is Ok <==> dec_ok_filter(v@),
            r matches Ok(t) ==> v@ == enc_filter(t),
    {
        let ms = match v {
            Value::Obj(ms) => ms,
            _ => {
                return Err(DecodeError::ExpectedObject);
            },
        };
        if ms.len() < 1 {
            return Err(DecodeError::BadField);
        }
        let ty = take_str(ms, 0, "type")?;
        if str_is(&ty, "blur") {
            let x = Blur::decode_members(ms, 1)?;
            let out = Filter::Blur(x);
            proof {
                assert(members_view(*ms) =~= obj_members(enc_filter(out)));
                assert(v@ == Val::Obj(members_view(*ms)));
            }
            Ok(out)
        } else if str_is(&ty, "bevel") {
            let x = Bevel::decode_members(ms, 1)?;
            let out = Filter::Bevel(x);
            proof {
                assert(members_view(*ms) =~= obj_members(enc_filter(out)));
                assert(v@ == Val::Obj(members_view(*ms)));
            }
            Ok(out)
        } else if str_is(&ty, "color-matrix") {
            let x = ColorMatrix::decode_members(ms, 1)?;
            let out = Filter::ColorMatrix(x);
            proof {
                assert(members_view(*ms) =~= obj_members(enc_filter(out)));
                assert(v@ == Val::Obj(members_view(*ms)));
            }
            Ok(out)
        } else if str_is(&ty, "convolution") {
            let x = Convolution::decode_members(ms, 1)?;
            let out = Filter::Convolution(x);
            proof {
                assert(members_view(*ms) =~= obj_members(enc_filter(out)));
                assert(v@ == Val::Obj(members_view(*ms)));
            }
            Ok(out)
        } else if str_is(&ty, "drop-shadow") {
            let x = DropShadow::decode_members(ms, 1)?;
            let out = Filter::DropShadow(x);
            proof {
                assert(members_view(*ms) =~= obj_members(enc_filter(out)));
                assert(v@ == Val::Obj(members_view(*ms)));
            }
            Ok(out)
        } else if str_is(&ty, "glow") {
            let x = Glow::decode_members(ms, 1)?;
            let out = Filter::Glow(x);
            proof {
                assert(members_view(*ms) =~= obj_members(enc_filter(out)));
                assert(v@ == Val::Obj(members_view(*ms)));
            }
            Ok(out)
        } else if str_is(&ty, "gradient-bevel") {
            let x = GradientBevel::decode_members(ms, 1)?;
            let out = Filter::GradientBevel(x);
            proof {
                assert(members_view(*ms) =~= obj_members(enc_filter(out)));
                assert(v@ == Val::Obj(members_view(*ms)));
            }
            Ok(out)
        } else if str_is(&ty, "gradient-glow") {
            let x = GradientGlow::decode_members(ms, 1)?;
            let out = Filter::GradientGlow(x);
            proof {
                assert(members_view(*ms) =~= obj_members(enc_filter(out)));
                assert(v@ == Val::Obj(members_view(*ms)));
            }
            Ok(out)
        } else {
            Err(DecodeError::UnknownVariant)
        }
    }
}

/// Every element is a well-formed `Filter` encoding.
pub open spec fn all_dec_ok_filter(items: Seq<Val>) -> bool {
    forall|k: int| 0 <= k < items.len() ==> dec_ok_filter(#[trigger] items[k])
}

/// Variant-wise equality of two `Filter` values.
pub open spec fn eq_filter(a: Filter, b: Filter) -> bool {
    match (a, b) {
        (Filter::Blur(x), Filter::Blur(y)) => eq_blur(x, y),
        (Filter::Bevel(x), Filter::Bevel(y)) => eq_bevel(x, y),
        (Filter::ColorMatrix(x), Filter::ColorMatrix(y)) => eq_color_matrix(x, y),
        (Filter::Convolution(x), Filter::Convolution(y)) => eq_convolution(x, y),
        (Filter::DropShadow(x), Filter::DropShadow(y)) => eq_drop_shadow(x, y),
        (Filter::Glow(x), Filter::Glow(y)) => eq_glow(x, y),
        (Filter::GradientBevel(x), Filter::GradientBevel(y)) => eq_gradient_bevel(x, y),
        (Filter::GradientGlow(x), Filter::GradientGlow(y)) => eq_gradient_glow(x, y),
        _ => false,
    }
}

/// Round trip: every `Filter` encoding carries a discriminant of the closed
/// set and decodes back only to an equal value of the same variant.
pub proof fn lemma_filter_round_trip(a: Filter, b: Filter)
    ensures
        dec_ok_filter(enc_filter(a)),
        enc_filter(a) == enc_filter(b) ==> eq_filter(a, b),
{
    reveal_strlit("type");
    reveal_strlit("blur");
    reveal_strlit("bevel");
    reveal_strlit("color-matrix");
    reveal_strlit("convolution");
    reveal_strlit("drop-shadow");
    reveal_strlit("glow");
    reveal_strlit("gradient-bevel");
    reveal_strlit("gradient-glow");
    assert("bevel"@.len() == 5);
    assert("blur"@.len() == 4);
    assert("color-matrix"@.len() == 12);
    assert("convolution"@.len() == 11);
    assert("drop-shadow"@.len() == 11);
    assert("glow"@.len() == 4);
    assert("gradient-bevel"@.len() == 14);
    assert("gradient-glow"@.len() == 13);
    assert("blur"@ != "bevel"@);
    assert("blur"@ != "color-matrix"@);
    assert("blur"@ != "convolution"@);
    assert("blur"@ != "drop-shadow"@);
    assert("blur"@[0] == 'b');
    assert("glow"@[0] == 'g');
    assert("blur"@ != "glow"@);
    assert("blur"@ != "gradient-bevel"@);
    assert("blur"@ != "gradient-glow"@);
    assert("bevel"@ != "color-matrix"@);
    assert("bevel"@ != "convolution"@);
    assert("bevel"@ != "drop-shadow"@);
    assert("bevel"@ != "glow"@);
    assert("bevel"@ != "gradient-bevel"@);
    assert("bevel"@ != "gradient-glow"@);
    assert("color-matrix"@ != "convolution"@);
    assert("color-matrix"@ != "drop-shadow"@);
    assert("color-matrix"@ != "glow"@);
    assert("color-matrix"@ != "gradient-bevel"@);
    assert("color-matrix"@ != "gradient-glow"@);
    assert("convolution"@[0] == 'c');
    assert("drop-shadow"@[0] == 'd');
    assert("convolution"@ != "drop-shadow"@);
    assert("convolution"@ != "glow"@);
    assert("convolution"@ != "gradient-bevel"@);
    assert("convolution"@ != "gradient-glow"@);
    assert("drop-shadow"@ != "glow"@);
    assert("drop-shadow"@ != "gradient-bevel"@);
    assert("drop-shadow"@ != "gradient-glow"@);
    assert("glow"@ != "gradient-bevel"@);
    assert("glow"@ != "gradient-glow"@);
    assert("gradient-bevel"@ != "gradient-glow"@);
    match a {
        Filter::Blur(x) => {
            lemma_blur_round_trip(x, x);
            assert(obj_members(enc_filter(a)).skip(1) =~= obj_members(enc_blur(x)));
        },
        Filter::Bevel(x) => {
            lemma_bevel_round_trip(x, x);
            assert(obj_members(enc_filter(a)).skip(1) =~= obj_members(enc_bevel(x)));
        },
        Filter::ColorMatrix(x) => {
            lemma_color_matrix_round_trip(x, x);
            assert(obj_members(enc_filter(a)).skip(1) =~= obj_members(enc_color_matrix(x)));
        },
        Filter::Convolution(x) => {
            lemma_convolution_round_trip(x, x);
            assert(obj_members(enc_filter(a)).skip(1) =~= obj_members(enc_convolution(x)));
        },
        Filter::DropShadow(x) => {
            lemma_drop_shadow_round_trip(x, x);
            assert(obj_members(enc_filter(a)).skip(1) =~= obj_members(enc_drop_shadow(x)));
        },
        Filter::Glow(x) => {
            lemma_glow_round_trip(x, x);
            assert(obj_members(enc_filter(a)).skip(1) =~= obj_members(enc_glow(x)));
        },
        Filter::GradientBevel(x) => {
            lemma_gradient_bevel_round_trip(x, x);
            assert(obj_members(enc_filter(a)).skip(1) =~= obj_members(enc_gradient_bevel(x)));
        },
        Filter::GradientGlow(x) => {
            lemma_gradient_glow_round_trip(x, x);
            assert(obj_members(enc_filter(a)).skip(1) =~= obj_members(enc_gradient_glow(x)));
        },
    }
    if enc_filter(a) == enc_filter(b) {
        match (a, b) {
            (Filter::Blur(x), Filter::Blur(y)) => {
                assert(obj_members(enc_filter(a)).skip(1) =~= obj_members(enc_blur(x)));
                assert(obj_members(enc_filter(b)).skip(1) =~= obj_members(enc_blur(y)));
                lemma_blur_round_trip(x, y);
            },
            (Filter::Bevel(x), Filter::Bevel(y)) => {
                assert(obj_members(enc_filter(a)).skip(1) =~= obj_members(enc_bevel(x)));
                assert(obj_members(enc_filter(b)).skip(1) =~= obj_members(enc_bevel(y)));
                lemma_bevel_round_trip(x, y);
            },
            (Filter::ColorMatrix(x), Filter::ColorMatrix(y)) => {
                assert(obj_members(enc_filter(a)).skip(1) =~= obj_members(enc_color_matrix(x)));
                assert(obj_members(enc_filter(b)).skip(1) =~= obj_members(enc_color_matrix(y)));
                lemma_color_matrix_round_trip(x, y);
            },
            (Filter::Convolution(x), Filter::Convolution(y)) => {
                assert(obj_members(enc_filter(a)).skip(1) =~= obj_members(enc_convolution(x)));
                assert(obj_members(enc_filter(b)).skip(1) =~= obj_members(enc_convolution(y)));
                lemma_convolution_round_trip(x, y);
            },
            (Filter::DropShadow(x), Filter::DropShadow(y)) => {
                assert(obj_members(enc_filter(a)).skip(1) =~= obj_members(enc_drop_shadow(x)));
                assert(obj_members(enc_filter(b)).skip(1) =~= obj_members(enc_drop_shadow(y)));
                lemma_drop_shadow_round_trip(x, y);
            },
            (Filter::Glow(x), Filter::Glow(y)) => {
                assert(obj_members(enc_filter(a)).skip(1) =~= obj_members(enc_glow(x)));
                assert(obj_members(enc_filter(b)).skip(1) =~= obj_members(enc_glow(y)));
                lemma_glow_round_trip(x, y);
            },
            (Filter::GradientBevel(x), Filter::GradientBevel(y)) => {
                assert(obj_members(enc_filter(a)).skip(1) =~= obj_members(enc_gradient_bevel(x)));
                assert(obj_members(enc_filter(b)).skip(1) =~= obj_members(enc_gradient_bevel(y)));
                lemma_gradient_bevel_round_trip(x, y);
            },
            (Filter::GradientGlow(x), Filter::GradientGlow(y)) => {
                assert(obj_members(enc_filter(a)).skip(1) =~= obj_members(enc_gradient_glow(x)));
                assert(obj_members(enc_filter(b)).skip(1) =~= obj_members(enc_gradient_glow(y)));
                lemma_gradient_glow_round_trip(x, y);
            },
            _ => {},
        }
    }
}

} // verus!
