//! Geometric and color primitives.
//!
//! Fixed-shape value types with integer or fixed-point fields. Fixed-point
//! numbers keep their raw bit pattern (8.8 or 16.16 fractional split), so
//! they round-trip exactly through their numeric encoding.
use vstd::prelude::*;

use crate::value::{DecodeError, Member, Val, Value, int_field, members_view, obj_members, push_int, push_str, str_field, str_is, take_int, take_str};

verus! {

broadcast use vstd::std_specs::vec::group_vec_axioms, vstd::seq::group_seq_axioms;

/// A signed 8.8 fixed-point number, stored as its raw bit pattern.
#[derive(Copy, Clone, Debug, PartialEq, Eq, PartialOrd, Ord, Hash, Structural)]
pub struct Sfixed8P8 {
    pub epsilons: i16,
}

/// A signed 16.16 fixed-point number, stored as its raw bit pattern.
#[derive(Copy, Clone, Debug, PartialEq, Eq, PartialOrd, Ord, Hash, Structural)]
pub struct Sfixed16P16 {
    pub epsilons: i32,
}

/// An axis-aligned rectangle, in twips.
#[derive(Copy, Clone, Debug, PartialEq, Eq, PartialOrd, Ord, Hash, Structural)]
pub struct Rect {
    pub x_min: i32,
    pub x_max: i32,
    pub y_min: i32,
    pub y_max: i32,
}

/// The interchange encoding of a `Rect`.
pub open spec fn enc_rect(t: Rect) -> Val {
    Val::Obj(seq![("x_min"@, Val::Int(t.x_min as int)), ("x_max"@, Val::Int(t.x_max as int)), ("y_min"@, Val::Int(t.y_min as int)), ("y_max"@, Val::Int(t.y_max as int))])
}

/// Whether `m` is exactly a well-formed `Rect` field list.
pub open spec fn dec_ok_rect_fields(m: Seq<(Seq<char>, Val)>) -> bool {
    &&& int_field(m, 0, "x_min"@, i32::MIN as int, i32::MAX as int)
    &&& int_field(m, 1, "x_max"@, i32::MIN as int, i32::MAX as int)
    &&& int_field(m, 2, "y_min"@, i32::MIN as int, i32::MAX as int)
    &&& int_field(m, 3, "y_max"@, i32::MIN as int, i32::MAX as int)
    &&& m.len() == 4
}

/// Whether `v` is a well-formed `Rect` encoding.
pub open spec fn dec_ok_rect(v: Val) -> bool {
    v is Obj && dec_ok_rect_fields(obj_members(v))
}

/// Every element is a well-formed `Rect` encoding.
pub open spec fn all_dec_ok_rect(items: Seq<Val>) -> bool {
    forall|k: int| 0 <= k < items.len() ==> dec_ok_rect(#[trigger] items[k])
}

impl Rect {
    /// Appends this record's members to `ms`.
    #[verifier::loop_isolation(false)]
    #[verifier::rlimit(100)]
    #[verifier::spinoff_prover]
    pub fn encode_members(&self, ms: &mut Vec<Member>)
        ensures
            members_view(*final(ms)) == members_view(*old(ms)) + obj_members(enc_rect(*self)),
    {
        push_int(ms, "x_min", self.x_min as i128);
        push_int(ms, "x_max", self.x_max as i128);
        push_int(ms, "y_min", self.y_min as i128);
        push_int(ms, "y_max", self.y_max as i128);
        proof {
            assert(members_view(*ms) =~~= members_view(*old(ms)) + obj_members(enc_rect(*self)));
        }
    }

    /// Encodes to the interchange form.
    pub fn encode(&self) -> (v: Value)
        ensures
            v@ == enc_rect(*self),
    {
        let mut ms: Vec<Member> = Vec::new();
        self.encode_members(&mut ms);
        let v = Value::Obj(ms);
        proof {
            assert(members_view(ms) =~= obj_members(enc_rect(*self)));
            assert(v@ == Val::Obj(members_view(ms)));
        }
        v
    }

    /// Decodes this record's members from `ms`, starting at `start`;
    /// succeeds exactly on a well-formed field list reaching the end.
    #[verifier::loop_isolation(false)]
    #[verifier::rlimit(100)]
    #[verifier::spinoff_prover]
    pub fn decode_members(ms: &Vec<Member>, start: usize) -> (r: Result<Self, DecodeError>)
        requires
            start as int <= members_view(*ms).len(),
        ensures
            r is Ok <==> dec_ok_rect_fields(members_view(*ms).skip(start as int)),
            r matches Ok(t) ==> members_view(*ms).skip(start as int) == obj_members(enc_rect(t)),
    {
        let ghost gm = members_view(*ms).skip(start as int);
        proof {
            assert(gm.len() == members_view(*ms).len() - start);
        }
        let mut i: usize = start;
        if ms.len() <= i {
            return Err(DecodeError::BadField);
        }
        let x_x_min: i32 = take_int(ms, i, "x_min", i32::MIN as i128, i32::MAX as i128)? as i32;
        i = i + 1;
        if ms.len() <= i {
            return Err(DecodeError::BadField);
        }
        let x_x_max: i32 = take_int(ms, i, "x_max", i32::MIN as i128, i32::MAX as i128)? as i32;
        i = i + 1;
        if ms.len() <= i {
            return Err(DecodeError::BadField);
        }
        let x_y_min: i32 = take_int(ms, i, "y_min", i32::MIN as i128, i32::MAX as i128)? as i32;
        i = i + 1;
        if ms.len() <= i {
            return Err(DecodeError::BadField);
        }
        let x_y_max: i32 = take_int(ms, i, "y_max", i32::MIN as i128, i32::MAX as i128)? as i32;
        i = i + 1;
        if i != ms.len() {
            return Err(DecodeError::BadField);
        }
        let t = Rect { x_min: x_x_min, x_max: x_x_max, y_min: x_y_min, y_max: x_y_max };
        proof {
            assert(members_view(*ms).skip(start as int) =~~= obj_members(enc_rect(t)));
        }
        Ok(t)
    }

    /// Decodes from the interchange form; succeeds exactly on well-formed
    /// encodings and then returns the encoded value.
    #[verifier::rlimit(100)]
    #[verifier::spinoff_prover]
    pub fn decode(v: &Value) -> (r: Result<Self, DecodeError>)
        ensures
            r is Ok <==> dec_ok_rect(v@),
            r matches Ok(t) ==> v@ == enc_rect(t),
    {
        let ms = match v {
            Value::Obj(ms) => ms,
            _ => {
                return Err(DecodeError::ExpectedObject);
            },
        };
        let t = Self::decode_members(ms, 0)?;
        proof {
            assert(members_view(*ms).skip(0) =~= members_view(*ms));
            assert(v@ == Val::Obj(members_view(*ms)));
        }
        Ok(t)
    }
}

/// Field-wise equality of two `Rect` values (text and payloads by content).
pub open spec fn eq_rect(a: Rect, b: Rect) -> bool {
    &&& a.x_min == b.x_min
    &&& a.x_max == b.x_max
    &&& a.y_min == b.y_min
    &&& a.y_max == b.y_max
}

/// Round trip: every `Rect` encoding is well-formed and decodes back
/// only to a field-wise equal value.
#[verifier::rlimit(100)]
#[verifier::spinoff_prover]
pub proof fn lemma_rect_round_trip(a: Rect, b: Rect)
    ensures
        dec_ok_rect(enc_rect(a)),
        enc_rect(a) == enc_rect(b) ==> eq_rect(a, b),
{
    reveal_strlit("x_min");
    reveal_strlit("x_max");
    reveal_strlit("y_min");
    reveal_strlit("y_max");

    assert(dec_ok_rect_fields(obj_members(enc_rect(a))));
    if enc_rect(a) == enc_rect(b) {
        assert(eq_rect(a, b));
    }
}

/// A color point in the sRGB color space with 8-bit color depth.
#[derive(Copy, Clone, Debug, PartialEq, Eq, PartialOrd, Ord, Hash, Structural)]
pub struct SRgb8 {
    pub r: u8,
    pub g: u8,
    pub b: u8,
}

/// The interchange encoding of a `SRgb8`.
pub open spec fn enc_srgb8(t: SRgb8) -> Val {
    Val::Obj(seq![("r"@, Val::Int(t.r as int)), ("g"@, Val::Int(t.g as int)), ("b"@, Val::Int(t.b as int))])
}

/// Whether `m` is exactly a well-formed `SRgb8` field list.
pub open spec fn dec_ok_srgb8_fields(m: Seq<(Seq<char>, Val)>) -> bool {
    &&& int_field(m, 0, "r"@, 0, u8::MAX as int)
    &&& int_field(m, 1, "g"@, 0, u8::MAX as int)
    &&& int_field(m, 2, "b"@, 0, u8::MAX as int)
    &&& m.len() == 3
}

/// Whether `v` is a well-formed `SRgb8` encoding.
pub open spec fn dec_ok_srgb8(v: Val) -> bool {
    v is Obj && dec_ok_srgb8_fields(obj_members(v))
}

/// Every element is a well-formed `SRgb8` encoding.
pub open spec fn all_dec_ok_srgb8(items: Seq<Val>) -> bool {
    forall|k: int| 0 <= k < items.len() ==> dec_ok_srgb8(#[trigger] items[k])
}

impl SRgb8 {
    /// Appends this record's members to `ms`.
    #[verifier::loop_isolation(false)]
    #[verifier::rlimit(100)]
    #[verifier::spinoff_prover]
    pub fn encode_members(&self, ms: &mut Vec<Member>)
        ensures
            members_view(*final(ms)) == members_view(*old(ms)) + obj_members(enc_srgb8(*self)),
    {
        push_int(ms, "r", self.r as i128);
        push_int(ms, "g", self.g as i128);
        push_int(ms, "b", self.b as i128);
        proof {
            assert(members_view(*ms) =~~= members_view(*old(ms)) + obj_members(enc_srgb8(*self)));
        }
    }

    /// Encodes to the interchange form.
    pub fn encode(&self) -> (v: Value)
        ensures
            v@ == enc_srgb8(*self),
    {
        let mut ms: Vec<Member> = Vec::new();
        self.encode_members(&mut ms);
        let v = Value::Obj(ms);
        proof {
            assert(members_view(ms) =~= obj_members(enc_srgb8(*self)));
            assert(v@ == Val::Obj(members_view(ms)));
        }
        v
    }

    /// Decodes this record's members from `ms`, starting at `start`;
    /// succeeds exactly on a well-formed field list reaching the end.
    #[verifier::loop_isolation(false)]
    #[verifier::rlimit(100)]
    #[verifier::spinoff_prover]
    pub fn decode_members(ms: &Vec<Member>, start: usize) -> (r: Result<Self, DecodeError>)
        requires
            start as int <= members_view(*ms).len(),
        ensures
            r is Ok <==> dec_ok_srgb8_fields(members_view(*ms).skip(start as int)),
            r matches Ok(t) ==> members_view(*ms).skip(start as int) == obj_members(enc_srgb8(t)),
    {
        let ghost gm = members_view(*ms).skip(start as int);
        proof {
            assert(gm.len() == members_view(*ms).len() - start);
        }
        let mut i: usize = start;
        if ms.len() <= i {
            return Err(DecodeError::BadField);
        }
        let x_r: u8 = take_int(ms, i, "r", 0, u8::MAX as i128)? as u8;
        i = i + 1;
        if ms.len() <= i {
            return Err(DecodeError::BadField);
        }
        let x_g: u8 = take_int(ms, i, "g", 0, u8::MAX as i128)? as u8;
        i = i + 1;
        if ms.len() <= i {
            return Err(DecodeError::BadField);
        }
        let x_b: u8 = take_int(ms, i, "b", 0, u8::MAX as i128)? as u8;
        i = i + 1;
        if i != ms.len() {
            return Err(DecodeError::BadField);
        }
        let t = SRgb8 { r: x_r, g: x_g, b: x_b };
        proof {
            assert(members_view(*ms).skip(start as int) =~~= obj_members(enc_srgb8(t)));
        }
        Ok(t)
    }

    /// Decodes from the interchange form; succeeds exactly on well-formed
    /// encodings and then returns the encoded value.
    #[verifier::rlimit(100)]
    #[verifier::spinoff_prover]
    pub fn decode(v: &Value) -> (r: Result<Self, DecodeError>)
        ensures
            r is Ok <==> dec_ok_srgb8(v@),
            r matches Ok(t) ==> v@ == enc_srgb8(t),
    {
        let ms = match v {
            Value::Obj(ms) => ms,
            _ => {
                return Err(DecodeError::ExpectedObject);
            },
        };
        let t = Self::decode_members(ms, 0)?;
        proof {
            assert(members_view(*ms).skip(0) =~= members_view(*ms));
            assert(v@ == Val::Obj(members_view(*ms)));
        }
        Ok(t)
    }
}

/// Field-wise equality of two `SRgb8` values (text and payloads by content).
pub open spec fn eq_srgb8(a: SRgb8, b: SRgb8) -> bool {
    &&& a.r == b.r
    &&& a.g == b.g
    &&& a.b == b.b
}

/// Round trip: every `SRgb8` encoding is well-formed and decodes back
/// only to a field-wise equal value.
#[verifier::rlimit(100)]
#[verifier::spinoff_prover]
pub proof fn lemma_srgb8_round_trip(a: SRgb8, b: SRgb8)
    ensures
        dec_ok_srgb8(enc_srgb8(a)),
        enc_srgb8(a) == enc_srgb8(b) ==> eq_srgb8(a, b),
{
    reveal_strlit("r");
    reveal_strlit("g");
    reveal_strlit("b");

    assert(dec_ok_srgb8_fields(obj_members(enc_srgb8(a))));
    if enc_srgb8(a) == enc_srgb8(b) {
        assert(eq_srgb8(a, b));
    }
}

/// A color point with straight (non-premultiplied) alpha in the sRGB
/// color space with 8-bit color depth.
#[derive(Copy, Clone, Debug, PartialEq, Eq, PartialOrd, Ord, Hash, Structural)]
pub struct StraightSRgba8 {
    pub r: u8,
    pub g: u8,
    pub b: u8,
    pub a: u8,
}

/// The interchange encoding of a `StraightSRgba8`.
pub open spec fn enc_straight_srgba8(t: StraightSRgba8) -> Val {
    Val::Obj(seq![("r"@, Val::Int(t.r as int)), ("g"@, Val::Int(t.g as int)), ("b"@, Val::Int(t.b as int)), ("a"@, Val::Int(t.a as int))])
}

/// Whether `m` is exactly a well-formed `StraightSRgba8` field list.
pub open spec fn dec_ok_straight_srgba8_fields(m: Seq<(Seq<char>, Val)>) -> bool {
    &&& int_field(m, 0, "r"@, 0, u8::MAX as int)
    &&& int_field(m, 1, "g"@, 0, u8::MAX as int)
    &&& int_field(m, 2, "b"@, 0, u8::MAX as int)
    &&& int_field(m, 3, "a"@, 0, u8::MAX as int)
    &&& m.len() == 4
}

/// Whether `v` is a well-formed `StraightSRgba8` encoding.
pub open spec fn dec_ok_straight_srgba8(v: Val) -> bool {
    v is Obj && dec_ok_straight_srgba8_fields(obj_members(v))
}

/// Every element is a well-formed `StraightSRgba8` encoding.
pub open spec fn all_dec_ok_straight_srgba8(items: Seq<Val>) -> bool {
    forall|k: int| 0 <= k < items.len() ==> dec_ok_straight_srgba8(#[trigger] items[k])
}

impl StraightSRgba8 {
    /// Appends this record's members to `ms`.
    #[verifier::loop_isolation(false)]
    #[verifier::rlimit(100)]
    #[verifier::spinoff_prover]
    pub fn encode_members(&self, ms: &mut Vec<Member>)
        ensures
            members_view(*final(ms)) == members_view(*old(ms)) + obj_members(enc_straight_srgba8(*self)),
    {
        push_int(ms, "r", self.r as i128);
        push_int(ms, "g", self.g as i128);
        push_int(ms, "b", self.b as i128);
        push_int(ms, "a", self.a as i128);
        proof {
            assert(members_view(*ms) =~~= members_view(*old(ms)) + obj_members(enc_straight_srgba8(*self)));
        }
    }

    /// Encodes to the interchange form.
    pub fn encode(&self) -> (v: Value)
        ensures
            v@ == enc_straight_srgba8(*self),
    {
        let mut ms: Vec<Member> = Vec::new();
        self.encode_members(&mut ms);
        let v = Value::Obj(ms);
        proof {
            assert(members_view(ms) =~= obj_members(enc_straight_srgba8(*self)));
            assert(v@ == Val::Obj(members_view(ms)));
        }
        v
    }

    /// Decodes this record's members from `ms`, starting at `start`;
    /// succeeds exactly on a well-formed field list reaching the end.
    #[verifier::loop_isolation(false)]
    #[verifier::rlimit(100)]
    #[verifier::spinoff_prover]
    pub fn decode_members(ms: &Vec<Member>, start: usize) -> (r: Result<Self, DecodeError>)
        requires
            start as int <= members_view(*ms).len(),
        ensures
            r is Ok <==> dec_ok_straight_srgba8_fields(members_view(*ms).skip(start as int)),
            r matches Ok(t) ==> members_view(*ms).skip(start as int) == obj_members(enc_straight_srgba8(t)),
    {
        let ghost gm = members_view(*ms).skip(start as int);
        proof {
            assert(gm.len() == members_view(*ms).len() - start);
        }
        let mut i: usize = start;
        if ms.len() <= i {
            return Err(DecodeError::BadField);
        }
        let x_r: u8 = take_int(ms, i, "r", 0, u8::MAX as i128)? as u8;
        i = i + 1;
        if ms.len() <= i {
            return Err(DecodeError::BadField);
        }
        let x_g: u8 = take_int(ms, i, "g", 0, u8::MAX as i128)? as u8;
        i = i + 1;
        if ms.len() <= i {
            return Err(DecodeError::BadField);
        }
        let x_b: u8 = take_int(ms, i, "b", 0, u8::MAX as i128)? as u8;
        i = i + 1;
        if ms.len() <= i {
            return Err(DecodeError::BadField);
        }
        let x_a: u8 = take_int(ms, i, "a", 0, u8::MAX as i128)? as u8;
        i = i + 1;
        if i != ms.len() {
            return Err(DecodeError::BadField);
        }
        let t = StraightSRgba8 { r: x_r, g: x_g, b: x_b, a: x_a };
        proof {
            assert(members_view(*ms).skip(start as int) =~~= obj_members(enc_straight_srgba8(t)));
        }
        Ok(t)
    }

    /// Decodes from the interchange form; succeeds exactly on well-formed
    /// encodings and then returns the encoded value.
    #[verifier::rlimit(100)]
    #[verifier::spinoff_prover]
    pub fn decode(v: &Value) -> (r: Result<Self, DecodeError>)
        ensures
            r is Ok <==> dec_ok_straight_srgba8(v@),
            r matches Ok(t) ==> v@ == enc_straight_srgba8(t),
    {
        let ms = match v {
            Value::Obj(ms) => ms,
            _ => {
                return Err(DecodeError::ExpectedObject);
            },
        };
        let t = Self::decode_members(ms, 0)?;
        proof {
            assert(members_view(*ms).skip(0) =~= members_view(*ms));
            assert(v@ == Val::Obj(members_view(*ms)));
        }
        Ok(t)
    }
}

/// Field-wise equality of two `StraightSRgba8` values (text and payloads by content).
pub open spec fn eq_straight_srgba8(a: StraightSRgba8, b: StraightSRgba8) -> bool {
    &&& a.r == b.r
    &&& a.g == b.g
    &&& a.b == b.b
    &&& a.a == b.a
}

/// Round trip: every `StraightSRgba8` encoding is well-formed and decodes back
/// only to a field-wise equal value.
#[verifier::rlimit(100)]
#[verifier::spinoff_prover]
pub proof fn lemma_straight_srgba8_round_trip(a: StraightSRgba8, b: StraightSRgba8)
    ensures
        dec_ok_straight_srgba8(enc_straight_srgba8(a)),
        enc_straight_srgba8(a) == enc_straight_srgba8(b) ==> eq_straight_srgba8(a, b),
{
    reveal_strlit("r");
    reveal_strlit("g");
    reveal_strlit("b");
    reveal_strlit("a");

    assert(dec_ok_straight_srgba8_fields(obj_members(enc_straight_srgba8(a))));
    if enc_straight_srgba8(a) == enc_straight_srgba8(b) {
        assert(eq_straight_srgba8(a, b));
    }
}

/// A two-dimensional vector, in twips.
#[derive(Copy, Clone, Debug, PartialEq, Eq, PartialOrd, Ord, Hash, Structural)]
pub struct Vector2D {
    pub x: i32,
    pub y: i32,
}

/// The interchange encoding of a `Vector2D`.
pub open spec fn enc_vector2d(t: Vector2D) -> Val {
    Val::Obj(seq![("x"@, Val::Int(t.x as int)), ("y"@, Val::Int(t.y as int))])
}

/// Whether `m` is exactly a well-formed `Vector2D` field list.
pub open spec fn dec_ok_vector2d_fields(m: Seq<(Seq<char>, Val)>) -> bool {
    &&& int_field(m, 0, "x"@, i32::MIN as int, i32::MAX as int)
    &&& int_field(m, 1, "y"@, i32::MIN as int, i32::MAX as int)
    &&& m.len() == 2
}

/// Whether `v` is a well-formed `Vector2D` encoding.
pub open spec fn dec_ok_vector2d(v: Val) -> bool {
    v is Obj && dec_ok_vector2d_fields(obj_members(v))
}

/// Every element is a well-formed `Vector2D` encoding.
pub open spec fn all_dec_ok_vector2d(items: Seq<Val>) -> bool {
    forall|k: int| 0 <= k < items.len() ==> dec_ok_vector2d(#[trigger] items[k])
}

impl Vector2D {
    /// Appends this record's members to `ms`.
    #[verifier::loop_isolation(false)]
    #[verifier::rlimit(100)]
    #[verifier::spinoff_prover]
    pub fn encode_members(&self, ms: &mut Vec<Member>)
        ensures
            members_view(*final(ms)) == members_view(*old(ms)) + obj_members(enc_vector2d(*self)),
    {
        push_int(ms, "x", self.x as i128);
        push_int(ms, "y", self.y as i128);
        proof {
            assert(members_view(*ms) =~~= members_view(*old(ms)) + obj_members(enc_vector2d(*self)));
        }
    }

    /// Encodes to the interchange form.
    pub fn encode(&self) -> (v: Value)
        ensures
            v@ == enc_vector2d(*self),
    {
        let mut ms: Vec<Member> = Vec::new();
        self.encode_members(&mut ms);
        let v = Value::Obj(ms);
        proof {
            assert(members_view(ms) =~= obj_members(enc_vector2d(*self)));
            assert(v@ == Val::Obj(members_view(ms)));
        }
        v
    }

    /// Decodes this record's members from `ms`, starting at `start`;
    /// succeeds exactly on a well-formed field list reaching the end.
    #[verifier::loop_isolation(false)]
    #[verifier::rlimit(100)]
    #[verifier::spinoff_prover]
    pub fn decode_members(ms: &Vec<Member>, start: usize) -> (r: Result<Self, DecodeError>)
        requires
            start as int <= members_view(*ms).len(),
        ensures
            r is Ok <==> dec_ok_vector2d_fields(members_view(*ms).skip(start as int)),
            r matches Ok(t) ==> members_view(*ms).skip(start as int) == obj_members(enc_vector2d(t)),
    {
        let ghost gm = members_view(*ms).skip(start as int);
        proof {
            assert(gm.len() == members_view(*ms).len() - start);
        }
        let mut i: usize = start;
        if ms.len() <= i {
            return Err(DecodeError::BadField);
        }
        let x_x: i32 = take_int(ms, i, "x", i32::MIN as i128, i32::MAX as i128)? as i32;
        i = i + 1;
        if ms.len() <= i {
            return Err(DecodeError::BadField);
        }
        let x_y: i32 = take_int(ms, i, "y", i32::MIN as i128, i32::MAX as i128)? as i32;
        i = i + 1;
        if i != ms.len() {
            return Err(DecodeError::BadField);
        }
        let t = Vector2D { x: x_x, y: x_y };
        proof {
            assert(members_view(*ms).skip(start as int) =~~= obj_members(enc_vector2d(t)));
        }
        Ok(t)
    }

    /// Decodes from the interchange form; succeeds exactly on well-formed
    /// encodings and then returns the encoded value.
    #[verifier::rlimit(100)]
    #[verifier::spinoff_prover]
    pub fn decode(v: &Value) -> (r: Result<Self, DecodeError>)
        ensures
            r is Ok <==> dec_ok_vector2d(v@),
            r matches Ok(t) ==> v@ == enc_vector2d(t),
    {
        let ms = match v {
            Value::Obj(ms) => ms,
            _ => {
                return Err(DecodeError::ExpectedObject);
            },
        };
        let t = Self::decode_members(ms, 0)?;
        proof {
            assert(members_view(*ms).skip(0) =~= members_view(*ms));
            assert(v@ == Val::Obj(members_view(*ms)));
        }
        Ok(t)
    }
}

/// Field-wise equality of two `Vector2D` values (text and payloads by content).
pub open spec fn eq_vector2d(a: Vector2D, b: Vector2D) -> bool {
    &&& a.x == b.x
    &&& a.y == b.y
}

/// Round trip: every `Vector2D` encoding is well-formed and decodes back
/// only to a field-wise equal value.
#[verifier::rlimit(100)]
#[verifier::spinoff_prover]
pub proof fn lemma_vector2d_round_trip(a: Vector2D, b: Vector2D)
    ensures
        dec_ok_vector2d(enc_vector2d(a)),
        enc_vector2d(a) == enc_vector2d(b) ==> eq_vector2d(a, b),
{
    reveal_strlit("x");
    reveal_strlit("y");

    assert(dec_ok_vector2d_fields(obj_members(enc_vector2d(a))));
    if enc_vector2d(a) == enc_vector2d(b) {
        assert(eq_vector2d(a, b));
    }
}

/// A 2x3 affine transform matrix with 16.16 fixed-point coefficients.
#[derive(Copy, Clone, Debug, PartialEq, Eq, PartialOrd, Ord, Hash, Structural)]
pub struct Matrix {
    pub scale_x: Sfixed16P16,
    pub scale_y: Sfixed16P16,
    pub rotate_skew0: Sfixed16P16,
    pub rotate_skew1: Sfixed16P16,
    pub translate_x: i32,
    pub translate_y: i32,
}

/// The interchange encoding of a `Matrix`.
pub open spec fn enc_matrix(t: Matrix) -> Val {
    Val::Obj(seq![("scale_x"@, Val::Int(t.scale_x.epsilons as int)), ("scale_y"@, Val::Int(t.scale_y.epsilons as int)), ("rotate_skew0"@, Val::Int(t.rotate_skew0.epsilons as int)), ("rotate_skew1"@, Val::Int(t.rotate_skew1.epsilons as int)), ("translate_x"@, Val::Int(t.translate_x as int)), ("translate_y"@, Val::Int(t.translate_y as int))])
}

/// Whether `m` is exactly a well-formed `Matrix` field list.
pub open spec fn dec_ok_matrix_fields(m: Seq<(Seq<char>, Val)>) -> bool {
    &&& int_field(m, 0, "scale_x"@, i32::MIN as int, i32::MAX as int)
    &&& int_field(m, 1, "scale_y"@, i32::MIN as int, i32::MAX as int)
    &&& int_field(m, 2, "rotate_skew0"@, i32::MIN as int, i32::MAX as int)
    &&& int_field(m, 3, "rotate_skew1"@, i32::MIN as int, i32::MAX as int)
    &&& int_field(m, 4, "translate_x"@, i32::MIN as int, i32::MAX as int)
    &&& int_field(m, 5, "translate_y"@, i32::MIN as int, i32::MAX as int)
    &&& m.len() == 6
}

/// Whether `v` is a well-formed `Matrix` encoding.
pub open spec fn dec_ok_matrix(v: Val) -> bool {
    v is Obj && dec_ok_matrix_fields(obj_members(v))
}

/// Every element is a well-formed `Matrix` encoding.
pub open spec fn all_dec_ok_matrix(items: Seq<Val>) -> bool {
    forall|k: int| 0 <= k < items.len() ==> dec_ok_matrix(#[trigger] items[k])
}

impl Matrix {
    /// Appends this record's members to `ms`.
    #[verifier::loop_isolation(false)]
    #[verifier::rlimit(100)]
    #[verifier::spinoff_prover]
    pub fn encode_members(&self, ms: &mut Vec<Member>)
        ensures
            members_view(*final(ms)) == members_view(*old(ms)) + obj_members(enc_matrix(*self)),
    {
        push_int(ms, "scale_x", self.scale_x.epsilons as i128);
        push_int(ms, "scale_y", self.scale_y.epsilons as i128);
        push_int(ms, "rotate_skew0", self.rotate_skew0.epsilons as i128);
        push_int(ms, "rotate_skew1", self.rotate_skew1.epsilons as i128);
        push_int(ms, "translate_x", self.translate_x as i128);
        push_int(ms, "translate_y", self.translate_y as i128);
        proof {
            assert(members_view(*ms) =~~= members_view(*old(ms)) + obj_members(enc_matrix(*self)));
        }
    }

    /// Encodes to the interchange form.
    pub fn encode(&self) -> (v: Value)
        ensures
            v@ == enc_matrix(*self),
    {
        let mut ms: Vec<Member> = Vec::new();
        self.encode_members(&mut ms);
        let v = Value::Obj(ms);
        proof {
            assert(members_view(ms) =~= obj_members(enc_matrix(*self)));
            assert(v@ == Val::Obj(members_view(ms)));
        }
        v
    }

    /// Decodes this record's members from `ms`, starting at `start`;
    /// succeeds exactly on a well-formed field list reaching the end.
    #[verifier::loop_isolation(false)]
    #[verifier::rlimit(100)]
    #[verifier::spinoff_prover]
    pub fn decode_members(ms: &Vec<Member>, start: usize) -> (r: Result<Self, DecodeError>)
        requires
            start as int <= members_view(*ms).len(),
        ensures
            r is Ok <==> dec_ok_matrix_fields(members_view(*ms).skip(start as int)),
            r matches Ok(t) ==> members_view(*ms).skip(start as int) == obj_members(enc_matrix(t)),
    {
        let ghost gm = members_view(*ms).skip(start as int);
        proof {
            assert(gm.len() == members_view(*ms).len() - start);
        }
        let mut i: usize = start;
        if ms.len() <= i {
            return Err(DecodeError::BadField);
        }
        let x_scale_x: Sfixed16P16 = Sfixed16P16 { epsilons: take_int(ms, i, "scale_x", i32::MIN as i128, i32::MAX as i128)? as i32 };
        i = i + 1;
        if ms.len() <= i {
            return Err(DecodeError::BadField);
        }
        let x_scale_y: Sfixed16P16 = Sfixed16P16 { epsilons: take_int(ms, i, "scale_y", i32::MIN as i128, i32::MAX as i128)? as i32 };
        i = i + 1;
        if ms.len() <= i {
            return Err(DecodeError::BadField);
        }
        let x_rotate_skew0: Sfixed16P16 = Sfixed16P16 { epsilons: take_int(ms, i, "rotate_skew0", i32::MIN as i128, i32::MAX as i128)? as i32 };
        i = i + 1;
        if ms.len() <= i {
            return Err(DecodeError::BadField);
        }
        let x_rotate_skew1: Sfixed16P16 = Sfixed16P16 { epsilons: take_int(ms, i, "rotate_skew1", i32::MIN as i128, i32::MAX as i128)? as i32 };
        i = i + 1;
        if ms.len() <= i {
            return Err(DecodeError::BadField);
        }
        let x_translate_x: i32 = take_int(ms, i, "translate_x", i32::MIN as i128, i32::MAX as i128)? as i32;
        i = i + 1;
        if ms.len() <= i {
            return Err(DecodeError::BadField);
        }
        let x_translate_y: i32 = take_int(ms, i, "translate_y", i32::MIN as i128, i32::MAX as i128)? as i32;
        i = i + 1;
        if i != ms.len() {
            return Err(DecodeError::BadField);
        }
        let t = Matrix { scale_x: x_scale_x, scale_y: x_scale_y, rotate_skew0: x_rotate_skew0, rotate_skew1: x_rotate_skew1, translate_x: x_translate_x, translate_y: x_translate_y };
        proof {
            assert(members_view(*ms).skip(start as int) =~~= obj_members(enc_matrix(t)));
        }
        Ok(t)
    }

    /// Decodes from the interchange form; succeeds exactly on well-formed
    /// encodings and then returns the encoded value.
    #[verifier::rlimit(100)]
    #[verifier::spinoff_prover]
    pub fn decode(v: &Value) -> (r: Result<Self, DecodeError>)
        ensures
            r is Ok <==> dec_ok_matrix(v@),
            r matches Ok(t) ==> v@ == enc_matrix(t),
    {
        let ms = match v {
            Value::Obj(ms) => ms,
            _ => {
                return Err(DecodeError::ExpectedObject);
            },
        };
        let t = Self::decode_members(ms, 0)?;
        proof {
            assert(members_view(*ms).skip(0) =~= members_view(*ms));
            assert(v@ == Val::Obj(members_view(*ms)));
        }
        Ok(t)
    }
}

/// Field-wise equality of two `Matrix` values (text and payloads by content).
pub open spec fn eq_matrix(a: Matrix, b: Matrix) -> bool {
    &&& a.scale_x == b.scale_x
    &&& a.scale_y == b.scale_y
    &&& a.rotate_skew0 == b.rotate_skew0
    &&& a.rotate_skew1 == b.rotate_skew1
    &&& a.translate_x == b.translate_x
    &&& a.translate_y == b.translate_y
}

/// Round trip: every `Matrix` encoding is well-formed and decodes back
/// only to a field-wise equal value.
#[verifier::rlimit(100)]
#[verifier::spinoff_prover]
pub proof fn lemma_matrix_round_trip(a: Matrix, b: Matrix)
    ensures
        dec_ok_matrix(enc_matrix(a)),
        enc_matrix(a) == enc_matrix(b) ==> eq_matrix(a, b),
{
    reveal_strlit("scale_x");
    reveal_strlit("scale_y");
    reveal_strlit("rotate_skew0");
    reveal_strlit("rotate_skew1");
    reveal_strlit("translate_x");
    reveal_strlit("translate_y");

    assert(dec_ok_matrix_fields(obj_members(enc_matrix(a))));
    if enc_matrix(a) == enc_matrix(b) {
        assert(eq_matrix(a, b));
    }
}

/// A per-channel color transform: 8.8 fixed-point multipliers and
/// integer offsets.
#[derive(Copy, Clone, Debug, PartialEq, Eq, PartialOrd, Ord, Hash, Structural)]
pub struct ColorTransform {
    pub red_mult: Sfixed8P8,
    pub green_mult: Sfixed8P8,
    pub blue_mult: Sfixed8P8,
    pub red_add: i16,
    pub green_add: i16,
    pub blue_add: i16,
}

/// The interchange encoding of a `ColorTransform`.
pub open spec fn enc_color_transform(t: ColorTransform) -> Val {
    Val::Obj(seq![("red_mult"@, Val::Int(t.red_mult.epsilons as int)), ("green_mult"@, Val::Int(t.green_mult.epsilons as int)), ("blue_mult"@, Val::Int(t.blue_mult.epsilons as int)), ("red_add"@, Val::Int(t.red_add as int)), ("green_add"@, Val::Int(t.green_add as int)), ("blue_add"@, Val::Int(t.blue_add as int))])
}

/// Whether `m` is exactly a well-formed `ColorTransform` field list.
pub open spec fn dec_ok_color_transform_fields(m: Seq<(Seq<char>, Val)>) -> bool {
    &&& int_field(m, 0, "red_mult"@, i16::MIN as int, i16::MAX as int)
    &&& int_field(m, 1, "green_mult"@, i16::MIN as int, i16::MAX as int)
    &&& int_field(m, 2, "blue_mult"@, i16::MIN as int, i16::MAX as int)
    &&& int_field(m, 3, "red_add"@, i16::MIN as int, i16::MAX as int)
    &&& int_field(m, 4, "green_add"@, i16::MIN as int, i16::MAX as int)
    &&& int_field(m, 5, "blue_add"@, i16::MIN as int, i16::MAX as int)
    &&& m.len() == 6
}

/// Whether `v` is a well-formed `ColorTransform` encoding.
pub open spec fn dec_ok_color_transform(v: Val) -> bool {
    v is Obj && dec_ok_color_transform_fields(obj_members(v))
}

/// Every element is a well-formed `ColorTransform` encoding.
pub open spec fn all_dec_ok_color_transform(items: Seq<Val>) -> bool {
    forall|k: int| 0 <= k < items.len() ==> dec_ok_color_transform(#[trigger] items[k])
}

impl ColorTransform {
    /// Appends this record's members to `ms`.
    #[verifier::loop_isolation(false)]
    #[verifier::rlimit(100)]
    #[verifier::spinoff_prover]
    pub fn encode_members(&self, ms: &mut Vec<Member>)
        ensures
            members_view(*final(ms)) == members_view(*old(ms)) + obj_members(enc_color_transform(*self)),
    {
        push_int(ms, "red_mult", self.red_mult.epsilons as i128);
        push_int(ms, "green_mult", self.green_mult.epsilons as i128);
        push_int(ms, "blue_mult", self.blue_mult.epsilons as i128);
        push_int(ms, "red_add", self.red_add as i128);
        push_int(ms, "green_add", self.green_add as i128);
        push_int(ms, "blue_add", self.blue_add as i128);
        proof {
            assert(members_view(*ms) =~~= members_view(*old(ms)) + obj_members(enc_color_transform(*self)));
        }
    }

    /// Encodes to the interchange form.
    pub fn encode(&self) -> (v: Value)
        ensures
            v@ == enc_color_transform(*self),
    {
        let mut ms: Vec<Member> = Vec::new();
        self.encode_members(&mut ms);
        let v = Value::Obj(ms);
        proof {
            assert(members_view(ms) =~= obj_members(enc_color_transform(*self)));
            assert(v@ == Val::Obj(members_view(ms)));
        }
        v
    }

    /// Decodes this record's members from `ms`, starting at `start`;
    /// succeeds exactly on a well-formed field list reaching the end.
    #[verifier::loop_isolation(false)]
    #[verifier::rlimit(100)]
    #[verifier::spinoff_prover]
    pub fn decode_members(ms: &Vec<Member>, start: usize) -> (r: Result<Self, DecodeError>)
        requires
            start as int <= members_view(*ms).len(),
        ensures
            r is Ok <==> dec_ok_color_transform_fields(members_view(*ms).skip(start as int)),
            r matches Ok(t) ==> members_view(*ms).skip(start as int) == obj_members(enc_color_transform(t)),
    {
        let ghost gm = members_view(*ms).skip(start as int);
        proof {
            assert(gm.len() == members_view(*ms).len() - start);
        }
        let mut i: usize = start;
        if ms.len() <= i {
            return Err(DecodeError::BadField);
        }
        let x_red_mult: Sfixed8P8 = Sfixed8P8 { epsilons: take_int(ms, i, "red_mult", i16::MIN as i128, i16::MAX as i128)? as i16 };
        i = i + 1;
        if ms.len() <= i {
            return Err(DecodeError::BadField);
        }
        let x_green_mult: Sfixed8P8 = Sfixed8P8 { epsilons: take_int(ms, i, "green_mult", i16::MIN as i128, i16::MAX as i128)? as i16 };
        i = i + 1;
        if ms.len() <= i {
            return Err(DecodeError::BadField);
        }
        let x_blue_mult: Sfixed8P8 = Sfixed8P8 { epsilons: take_int(ms, i, "blue_mult", i16::MIN as i128, i16::MAX as i128)? as i16 };
        i = i + 1;
        if ms.len() <= i {
            return Err(DecodeError::BadField);
        }
        let x_red_add: i16 = take_int(ms, i, "red_add", i16::MIN as i128, i16::MAX as i128)? as i16;
        i = i + 1;
        if ms.len() <= i {
            return Err(DecodeError::BadField);
        }
        let x_green_add: i16 = take_int(ms, i, "green_add", i16::MIN as i128, i16::MAX as i128)? as i16;
        i = i + 1;
        if ms.len() <= i {
            return Err(DecodeError::BadField);
        }
        let x_blue_add: i16 = take_int(ms, i, "blue_add", i16::MIN as i128, i16::MAX as i128)? as i16;
        i = i + 1;
        if i != ms.len() {
            return Err(DecodeError::BadField);
        }
        let t = ColorTransform { red_mult: x_red_mult, green_mult: x_green_mult, blue_mult: x_blue_mult, red_add: x_red_add, green_add: x_green_add, blue_add: x_blue_add };
        proof {
            assert(members_view(*ms).skip(start as int) =~~= obj_members(enc_color_transform(t)));
        }
        Ok(t)
    }

    /// Decodes from the interchange form; succeeds exactly on well-formed
    /// encodings and then returns the encoded value.
    #[verifier::rlimit(100)]
    #[verifier::spinoff_prover]
    pub fn decode(v: &Value) -> (r: Result<Self, DecodeError>)
        ensures
            r is Ok <==> dec_ok_color_transform(v@),
            r matches Ok(t) ==> v@ == enc_color_transform(t),
    {
        let ms = match v {
            Value::Obj(ms) => ms,
            _ => {
                return Err(DecodeError::ExpectedObject);
            },
        };
        let t = Self::decode_members(ms, 0)?;
        proof {
            assert(members_view(*ms).skip(0) =~= members_view(*ms));
            assert(v@ == Val::Obj(members_view(*ms)));
        }
        Ok(t)
    }
}

/// Field-wise equality of two `ColorTransform` values (text and payloads by content).
pub open spec fn eq_color_transform(a: ColorTransform, b: ColorTransform) -> bool {
    &&& a.red_mult == b.red_mult
    &&& a.green_mult == b.green_mult
    &&& a.blue_mult == b.blue_mult
    &&& a.red_add == b.red_add
    &&& a.green_add == b.green_add
    &&& a.blue_add == b.blue_add
}

/// Round trip: every `ColorTransform` encoding is well-formed and decodes back
/// only to a field-wise equal value.
#[verifier::rlimit(100)]
#[verifier::spinoff_prover]
pub proof fn lemma_color_transform_round_trip(a: ColorTransform, b: ColorTransform)
    ensures
        dec_ok_color_transform(enc_color_transform(a)),
        enc_color_transform(a) == enc_color_transform(b) ==> eq_color_transform(a, b),
{
    reveal_strlit("red_mult");
    reveal_strlit("green_mult");
    reveal_strlit("blue_mult");
    reveal_strlit("red_add");
    reveal_strlit("green_add");
    reveal_strlit("blue_add");

    assert(dec_ok_color_transform_fields(obj_members(enc_color_transform(a))));
    if enc_color_transform(a) == enc_color_transform(b) {
        assert(eq_color_transform(a, b));
    }
}

/// A per-channel color transform that also transforms the alpha channel.
#[derive(Copy, Clone, Debug, PartialEq, Eq, PartialOrd, Ord, Hash, Structural)]
pub struct ColorTransformWithAlpha {
    pub red_mult: Sfixed8P8,
    pub green_mult: Sfixed8P8,
    pub blue_mult: Sfixed8P8,
    pub alpha_mult: Sfixed8P8,
    pub red_add: i16,
    pub green_add: i16,
    pub blue_add: i16,
    pub alpha_add: i16,
}

/// The interchange encoding of a `ColorTransformWithAlpha`.
pub open spec fn enc_color_transform_with_alpha(t: ColorTransformWithAlpha) -> Val {
    Val::Obj(seq![("red_mult"@, Val::Int(t.red_mult.epsilons as int)), ("green_mult"@, Val::Int(t.green_mult.epsilons as int)), ("blue_mult"@, Val::Int(t.blue_mult.epsilons as int)), ("alpha_mult"@, Val::Int(t.alpha_mult.epsilons as int)), ("red_add"@, Val::Int(t.red_add as int)), ("green_add"@, Val::Int(t.green_add as int)), ("blue_add"@, Val::Int(t.blue_add as int)), ("alpha_add"@, Val::Int(t.alpha_add as int))])
}

/// Whether `m` is exactly a well-formed `ColorTransformWithAlpha` field list.
pub open spec fn dec_ok_color_transform_with_alpha_fields(m: Seq<(Seq<char>, Val)>) -> bool {
    &&& int_field(m, 0, "red_mult"@, i16::MIN as int, i16::MAX as int)
    &&& int_field(m, 1, "green_mult"@, i16::MIN as int, i16::MAX as int)
    &&& int_field(m, 2, "blue_mult"@, i16::MIN as int, i16::MAX as int)
    &&& int_field(m, 3, "alpha_mult"@, i16::MIN as int, i16::MAX as int)
    &&& int_field(m, 4, "red_add"@, i16::MIN as int, i16::MAX as int)
    &&& int_field(m, 5, "green_add"@, i16::MIN as int, i16::MAX as int)
    &&& int_field(m, 6, "blue_add"@, i16::MIN as int, i16::MAX as int)
    &&& int_field(m, 7, "alpha_add"@, i16::MIN as int, i16::MAX as int)
    &&& m.len() == 8
}

/// Whether `v` is a well-formed `ColorTransformWithAlpha` encoding.
pub open spec fn dec_ok_color_transform_with_alpha(v: Val) -> bool {
    v is Obj && dec_ok_color_transform_with_alpha_fields(obj_members(v))
}

/// Every element is a well-formed `ColorTransformWithAlpha` encoding.
pub open spec fn all_dec_ok_color_transform_with_alpha(items: Seq<Val>) -> bool {
    forall|k: int| 0 <= k < items.len() ==> dec_ok_color_transform_with_alpha(#[trigger] items[k])
}

impl ColorTransformWithAlpha {
    /// Appends this record's members to `ms`.
    #[verifier::loop_isolation(false)]
    #[verifier::rlimit(100)]
    #[verifier::spinoff_prover]
    pub fn encode_members(&self, ms: &mut Vec<Member>)
        ensures
            members_view(*final(ms)) == members_view(*old(ms)) + obj_members(enc_color_transform_with_alpha(*self)),
    {
        push_int(ms, "red_mult", self.red_mult.epsilons as i128);
        push_int(ms, "green_mult", self.green_mult.epsilons as i128);
        push_int(ms, "blue_mult", self.blue_mult.epsilons as i128);
        push_int(ms, "alpha_mult", self.alpha_mult.epsilons as i128);
        push_int(ms, "red_add", self.red_add as i128);
        push_int(ms, "green_add", self.green_add as i128);
        push_int(ms, "blue_add", self.blue_add as i128);
        push_int(ms, "alpha_add", self.alpha_add as i128);
        proof {
            assert(members_view(*ms) =~~= members_view(*old(ms)) + obj_members(enc_color_transform_with_alpha(*self)));
        }
    }

    /// Encodes to the interchange form.
    pub fn encode(&self) -> (v: Value)
        ensures
            v@ == enc_color_transform_with_alpha(*self),
    {
        let mut ms: Vec<Member> = Vec::new();
        self.encode_members(&mut ms);
        let v = Value::Obj(ms);
        proof {
            assert(members_view(ms) =~= obj_members(enc_color_transform_with_alpha(*self)));
            assert(v@ == Val::Obj(members_view(ms)));
        }
        v
    }

    /// Decodes this record's members from `ms`, starting at `start`;
    /// succeeds exactly on a well-formed field list reaching the end.
    #[verifier::loop_isolation(false)]
    #[verifier::rlimit(100)]
    #[verifier::spinoff_prover]
    pub fn decode_members(ms: &Vec<Member>, start: usize) -> (r: Result<Self, DecodeError>)
        requires
            start as int <= members_view(*ms).len(),
        ensures
            r is Ok <==> dec_ok_color_transform_with_alpha_fields(members_view(*ms).skip(start as int)),
            r matches Ok(t) ==> members_view(*ms).skip(start as int) == obj_members(enc_color_transform_with_alpha(t)),
    {
        let ghost gm = members_view(*ms).skip(start as int);
        proof {
            assert(gm.len() == members_view(*ms).len() - start);
        }
        let mut i: usize = start;
        if ms.len() <= i {
            return Err(DecodeError::BadField);
        }
        let x_red_mult: Sfixed8P8 = Sfixed8P8 { epsilons: take_int(ms, i, "red_mult", i16::MIN as i128, i16::MAX as i128)? as i16 };
        i = i + 1;
        if ms.len() <= i {
            return Err(DecodeError::BadField);
        }
        let x_green_mult: Sfixed8P8 = Sfixed8P8 { epsilons: take_int(ms, i, "green_mult", i16::MIN as i128, i16::MAX as i128)? as i16 };
        i = i + 1;
        if ms.len() <= i {
            return Err(DecodeError::BadField);
        }
        let x_blue_mult: Sfixed8P8 = Sfixed8P8 { epsilons: take_int(ms, i, "blue_mult", i16::MIN as i128, i16::MAX as i128)? as i16 };
        i = i + 1;
        if ms.len() <= i {
            return Err(DecodeError::BadField);
        }
        let x_alpha_mult: Sfixed8P8 = Sfixed8P8 { epsilons: take_int(ms, i, "alpha_mult", i16::MIN as i128, i16::MAX as i128)? as i16 };
        i = i + 1;
        if ms.len() <= i {
            return Err(DecodeError::BadField);
        }
        let x_red_add: i16 = take_int(ms, i, "red_add", i16::MIN as i128, i16::MAX as i128)? as i16;
        i = i + 1;
        if ms.len() <= i {
            return Err(DecodeError::BadField);
        }
        let x_green_add: i16 = take_int(ms, i, "green_add", i16::MIN as i128, i16::MAX as i128)? as i16;
        i = i + 1;
        if ms.len() <= i {
            return Err(DecodeError::BadField);
        }
        let x_blue_add: i16 = take_int(ms, i, "blue_add", i16::MIN as i128, i16::MAX as i128)? as i16;
        i = i + 1;
        if ms.len() <= i {
            return Err(DecodeError::BadField);
        }
        let x_alpha_add: i16 = take_int(ms, i, "alpha_add", i16::MIN as i128, i16::MAX as i128)? as i16;
        i = i + 1;
        if i != ms.len() {
            return Err(DecodeError::BadField);
        }
        let t = ColorTransformWithAlpha { red_mult: x_red_mult, green_mult: x_green_mult, blue_mult: x_blue_mult, alpha_mult: x_alpha_mult, red_add: x_red_add, green_add: x_green_add, blue_add: x_blue_add, alpha_add: x_alpha_add };
        proof {
            assert(members_view(*ms).skip(start as int) =~~= obj_members(enc_color_transform_with_alpha(t)));
        }
        Ok(t)
    }

    /// Decodes from the interchange form; succeeds exactly on well-formed
    /// encodings and then returns the encoded value.
    #[verifier::rlimit(100)]
    #[verifier::spinoff_prover]
    pub fn decode(v: &Value) -> (r: Result<Self, DecodeError>)
        ensures
            r is Ok <==> dec_ok_color_transform_with_alpha(v@),
            r matches Ok(t) ==> v@ == enc_color_transform_with_alpha(t),
    {
        let ms = match v {
            Value::Obj(ms) => ms,
            _ => {
                return Err(DecodeError::ExpectedObject);
            },
        };
        let t = Self::decode_members(ms, 0)?;
        proof {
            assert(members_view(*ms).skip(0) =~= members_view(*ms));
            assert(v@ == Val::Obj(members_view(*ms)));
        }
        Ok(t)
    }
}

/// Field-wise equality of two `ColorTransformWithAlpha` values (text and payloads by content).
pub open spec fn eq_color_transform_with_alpha(a: ColorTransformWithAlpha, b: ColorTransformWithAlpha) -> bool {
    &&& a.red_mult == b.red_mult
    &&& a.green_mult == b.green_mult
    &&& a.blue_mult == b.blue_mult
    &&& a.alpha_mult == b.alpha_mult
    &&& a.red_add == b.red_add
    &&& a.green_add == b.green_add
    &&& a.blue_add == b.blue_add
    &&& a.alpha_add == b.alpha_add
}

/// Round trip: every `ColorTransformWithAlpha` encoding is well-formed and decodes back
/// only to a field-wise equal value.
#[verifier::rlimit(100)]
#[verifier::spinoff_prover]
pub proof fn lemma_color_transform_with_alpha_round_trip(a: ColorTransformWithAlpha, b: ColorTransformWithAlpha)
    ensures
        dec_ok_color_transform_with_alpha(enc_color_transform_with_alpha(a)),
        enc_color_transform_with_alpha(a) == enc_color_transform_with_alpha(b) ==> eq_color_transform_with_alpha(a, b),
{
    reveal_strlit("red_mult");
    reveal_strlit("green_mult");
    reveal_strlit("blue_mult");
    reveal_strlit("alpha_mult");
    reveal_strlit("red_add");
    reveal_strlit("green_add");
    reveal_strlit("blue_add");
    reveal_strlit("alpha_add");

    assert(dec_ok_color_transform_with_alpha_fields(obj_members(enc_color_transform_with_alpha(a))));
    if enc_color_transform_with_alpha(a) == enc_color_transform_with_alpha(b) {
        assert(eq_color_transform_with_alpha(a, b));
    }
}

/// A 16-bit character identifier paired with a display name. Uniqueness
/// of the id belongs to the containing collection, not to this type.
#[derive(Clone, Debug, PartialEq, Eq, PartialOrd, Ord, Hash)]
pub struct NamedId {
    pub id: u16,
    pub name: String,
}

/// The interchange encoding of a `NamedId`.
pub open spec fn enc_named_id(t: NamedId) -> Val {
    Val::Obj(seq![("id"@, Val::Int(t.id as int)), ("name"@, Val::Str(t.name@))])
}

/// Whether `m` is exactly a well-formed `NamedId` field list.
pub open spec fn dec_ok_named_id_fields(m: Seq<(Seq<char>, Val)>) -> bool {
    &&& int_field(m, 0, "id"@, 0, u16::MAX as int)
    &&& str_field(m, 1, "name"@)
    &&& m.len() == 2
}

/// Whether `v` is a well-formed `NamedId` encoding.
pub open spec fn dec_ok_named_id(v: Val) -> bool {
    v is Obj && dec_ok_named_id_fields(obj_members(v))
}

/// Every element is a well-formed `NamedId` encoding.
pub open spec fn all_dec_ok_named_id(items: Seq<Val>) -> bool {
    forall|k: int| 0 <= k < items.len() ==> dec_ok_named_id(#[trigger] items[k])
}

impl NamedId {
    /// Appends this record's members to `ms`.
    #[verifier::loop_isolation(false)]
    #[verifier::rlimit(100)]
    #[verifier::spinoff_prover]
    pub fn encode_members(&self, ms: &mut Vec<Member>)
        ensures
            members_view(*final(ms)) == members_view(*old(ms)) + obj_members(enc_named_id(*self)),
    {
        push_int(ms, "id", self.id as i128);
        push_str(ms, "name", &self.name);
        proof {
            assert(members_view(*ms) =~~= members_view(*old(ms)) + obj_members(enc_named_id(*self)));
        }
    }

    /// Encodes to the interchange form.
    pub fn encode(&self) -> (v: Value)
        ensures
            v@ == enc_named_id(*self),
    {
        let mut ms: Vec<Member> = Vec::new();
        self.encode_members(&mut ms);
        let v = Value::Obj(ms);
        proof {
            assert(members_view(ms) =~= obj_members(enc_named_id(*self)));
            assert(v@ == Val::Obj(members_view(ms)));
        }
        v
    }

    /// Decodes this record's members from `ms`, starting at `start`;
    /// succeeds exactly on a well-formed field list reaching the end.
    #[verifier::loop_isolation(false)]
    #[verifier::rlimit(100)]
    #[verifier::spinoff_prover]
    pub fn decode_members(ms: &Vec<Member>, start: usize) -> (r: Result<Self, DecodeError>)
        requires
            start as int <= members_view(*ms).len(),
        ensures
            r is Ok <==> dec_ok_named_id_fields(members_view(*ms).skip(start as int)),
            r matches Ok(t) ==> members_view(*ms).skip(start as int) == obj_members(enc_named_id(t)),
    {
        let ghost gm = members_view(*ms).skip(start as int);
        proof {
            assert(gm.len() == members_view(*ms).len() - start);
        }
        let mut i: usize = start;
        if ms.len() <= i {
            return Err(DecodeError::BadField);
        }
        let x_id: u16 = take_int(ms, i, "id", 0, u16::MAX as i128)? as u16;
        i = i + 1;
        if ms.len() <= i {
            return Err(DecodeError::BadField);
        }
        let x_name: String = take_str(ms, i, "name")?;
        i = i + 1;
        if i != ms.len() {
            return Err(DecodeError::BadField);
        }
        let t = NamedId { id: x_id, name: x_name };
        proof {
            assert(members_view(*ms).skip(start as int) =~~= obj_members(enc_named_id(t)));
        }
        Ok(t)
    }

    /// Decodes from the interchange form; succeeds exactly on well-formed
    /// encodings and then returns the encoded value.
    #[verifier::rlimit(100)]
    #[verifier::spinoff_prover]
    pub fn decode(v: &Value) -> (r: Result<Self, DecodeError>)
        ensures
            r is Ok <==> dec_ok_named_id(v@),
            r matches Ok(t) ==> v@ == enc_named_id(t),
    {
        let ms = match v {
            Value::Obj(ms) => ms,
            _ => {
                return Err(DecodeError::ExpectedObject);
            },
        };
        let t = Self::decode_members(ms, 0)?;
        proof {
            assert(members_view(*ms).skip(0) =~= members_view(*ms));
            assert(v@ == Val::Obj(members_view(*ms)));
        }
        Ok(t)
    }
}

/// Field-wise equality of two `NamedId` values (text and payloads by content).
pub open spec fn eq_named_id(a: NamedId, b: NamedId) -> bool {
    &&& a.id == b.id
    &&& a.name@ == b.name@
}

/// Round trip: every `NamedId` encoding is well-formed and decodes back
/// only to a field-wise equal value.
#[verifier::rlimit(100)]
#[verifier::spinoff_prover]
pub proof fn lemma_named_id_round_trip(a: NamedId, b: NamedId)
    ensures
        dec_ok_named_id(enc_named_id(a)),
        enc_named_id(a) == enc_named_id(b) ==> eq_named_id(a, b),
{
    reveal_strlit("id");
    reveal_strlit("name");

    assert(dec_ok_named_id_fields(obj_members(enc_named_id(a))));
    if enc_named_id(a) == enc_named_id(b) {
        assert(eq_named_id(a, b));
    }
}

/// A text language, with a hyphenated lowercase discriminant.
#[derive(Copy, Clone, Debug, PartialEq, Eq, Hash, Structural)]
pub enum LanguageCode {
    Auto,
    Latin,
    Japanese,
    Korean,
    SimplifiedChinese,
    TraditionalChinese,
}

/// The symbolic discriminant of a `LanguageCode` variant.
pub open spec fn language_code_text(x: LanguageCode) -> Seq<char> {
    match x {
        LanguageCode::Auto => "auto"@,
        LanguageCode::Latin => "latin"@,
        LanguageCode::Japanese => "japanese"@,
        LanguageCode::Korean => "korean"@,
        LanguageCode::SimplifiedChinese => "simplified-chinese"@,
        LanguageCode::TraditionalChinese => "traditional-chinese"@,
    }
}

/// The interchange encoding of a `LanguageCode`: its discriminant as text.
pub open spec fn enc_language_code(t: LanguageCode) -> Val {
    Val::Str(language_code_text(t))
}

/// Whether `v` is the discriminant of some `LanguageCode` variant.
pub open spec fn dec_ok_language_code(v: Val) -> bool {
    ||| v == Val::Str("auto"@)
    ||| v == Val::Str("latin"@)
    ||| v == Val::Str("japanese"@)
    ||| v == Val::Str("korean"@)
    ||| v == Val::Str("simplified-chinese"@)
    ||| v == Val::Str("traditional-chinese"@)
}

impl LanguageCode {
    /// Encodes to the interchange form.
    pub fn encode(&self) -> (v: Value)
        ensures
            v@ == enc_language_code(*self),
    {
        let s: &str = match self {
            LanguageCode::Auto => "auto",
            LanguageCode::Latin => "latin",
            LanguageCode::Japanese => "japanese",
            LanguageCode::Korean => "korean",
            LanguageCode::SimplifiedChinese => "simplified-chinese",
            LanguageCode::TraditionalChinese => "traditional-chinese",
        };
        Value::Str(s.to_owned())
    }

    /// Decodes from the interchange form; any text outside the closed
    /// variant set is rejected.
    pub fn decode(v: &Value) -> (r: Result<Self, DecodeError>)
        ensures
            r is Ok <==> dec_ok_language_code(v@),
            r matches Ok(t) ==> v@ == enc_language_code(t),
    {
        let s = match v {
            Value::Str(s) => s,
            _ => {
                return Err(DecodeError::UnknownVariant);
            },
        };
        if str_is(s, "auto") {
            Ok(LanguageCode::Auto)
        } else if str_is(s, "latin") {
            Ok(LanguageCode::Latin)
        } else if str_is(s, "japanese") {
            Ok(LanguageCode::Japanese)
        } else if str_is(s, "korean") {
            Ok(LanguageCode::Korean)
        } else if str_is(s, "simplified-chinese") {
            Ok(LanguageCode::SimplifiedChinese)
        } else if str_is(s, "traditional-chinese") {
            Ok(LanguageCode::TraditionalChinese)
        } else {
            Err(DecodeError::UnknownVariant)
        }
    }
}

/// Field-wise equality of two `LanguageCode` values.
pub open spec fn eq_language_code(a: LanguageCode, b: LanguageCode) -> bool {
    a == b
}

/// Round trip: every discriminant is in the closed set and decodes back
/// to the same variant.
pub proof fn lemma_language_code_round_trip(a: LanguageCode, b: LanguageCode)
    ensures
        dec_ok_language_code(enc_language_code(a)),
        enc_language_code(a) == enc_language_code(b) ==> a == b,
{
    reveal_strlit("auto");
    reveal_strlit("latin");
    reveal_strlit("japanese");
    reveal_strlit("korean");
    reveal_strlit("simplified-chinese");
    reveal_strlit("traditional-chinese");
    assert("auto"@.len() == 4);
    assert("japanese"@.len() == 8);
    assert("korean"@.len() == 6);
    assert("latin"@.len() == 5);
    assert("simplified-chinese"@.len() == 18);
    assert("traditional-chinese"@.len() == 19);
    assert("auto"@ != "latin"@);
    assert("auto"@ != "japanese"@);
    assert("auto"@ != "korean"@);
    assert("auto"@ != "simplified-chinese"@);
    assert("auto"@ != "traditional-chinese"@);
    assert("latin"@ != "japanese"@);
    assert("latin"@ != "korean"@);
    assert("latin"@ != "simplified-chinese"@);
    assert("latin"@ != "traditional-chinese"@);
    assert("japanese"@ != "korean"@);
    assert("japanese"@ != "simplified-chinese"@);
    assert("japanese"@ != "traditional-chinese"@);
    assert("korean"@ != "simplified-chinese"@);
    assert("korean"@ != "traditional-chinese"@);
    assert("simplified-chinese"@ != "traditional-chinese"@);
}

} // verus!
