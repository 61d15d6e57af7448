//! Vector outline geometry.
//!
//! Shapes, glyph outlines and morph shapes own ordered sequences of
//! per-segment records; clip actions bind action bytes to clip events.
use vstd::prelude::*;

use crate::value::{DecodeError, Member, Val, Value, arr_items, elems_view, int_field, key_is, maybe, members_view, obj_members, push_int, push_lit, push_str, push_value, str_at, str_field, str_is, take_int, take_str, val_view};
use crate::hex::{hex_decode, hex_encode, hex_of, is_hex_seq};
use crate::basic_types::{Vector2D, dec_ok_vector2d, enc_vector2d, eq_vector2d, lemma_vector2d_round_trip};

verus! {

broadcast use vstd::std_specs::vec::group_vec_axioms, vstd::seq::group_seq_axioms;

/// Moves the pen without drawing.
#[derive(Clone, Debug, PartialEq, Eq)]
pub struct MoveTo {
    pub delta: Vector2D,
}

/// The interchange encoding of a `MoveTo`.
pub open spec fn enc_move_to(t: MoveTo) -> Val {
    Val::Obj(seq![("delta"@, enc_vector2d(t.delta))])
}

/// Whether `m` is exactly a well-formed `MoveTo` field list.
pub open spec fn dec_ok_move_to_fields(m: Seq<(Seq<char>, Val)>) -> bool {
    &&& m[0].0 == "delta"@ && dec_ok_vector2d(m[0].1)
    &&& m.len() == 1
}

/// Whether `v` is a well-formed `MoveTo` encoding.
pub open spec fn dec_ok_move_to(v: Val) -> bool {
    v is Obj && dec_ok_move_to_fields(obj_members(v))
}

/// Every element is a well-formed `MoveTo` encoding.
pub open spec fn all_dec_ok_move_to(items: Seq<Val>) -> bool {
    forall|k: int| 0 <= k < items.len() ==> dec_ok_move_to(#[trigger] items[k])
}

impl MoveTo {
    /// Appends this record's members to `ms`.
    #[verifier::loop_isolation(false)]
    #[verifier::rlimit(100)]
    #[verifier::spinoff_prover]
    pub fn encode_members(&self, ms: &mut Vec<Member>)
        ensures
            members_view(*final(ms)) == members_view(*old(ms)) + obj_members(enc_move_to(*self)),
    {
        push_value(ms, "delta", self.delta.encode());
        proof {
            assert(members_view(*ms) =~~= members_view(*old(ms)) + obj_members(enc_move_to(*self)));
        }
    }

    /// Encodes to the interchange form.
    pub fn encode(&self) -> (v: Value)
        ensures
            v@ == enc_move_to(*self),
    {
        let mut ms: Vec<Member> = Vec::new();
        self.encode_members(&mut ms);
        let v = Value::Obj(ms);
        proof {
            assert(members_view(ms) =~= obj_members(enc_move_to(*self)));
            assert(v@ == Val::Obj(members_view(ms)));
        }
        v
    }

    /// Decodes this record's members from `ms`, starting at `start`;
    /// succeeds exactly on a well-formed field list reaching the end.
    #[verifier::loop_isolation(false)]
    #[verifier::rlimit(100)]
    #[verifier::spinoff_prover]
    pub fn decode_members(ms: &Vec<Member>, start: usize) -> (r: Result<Self, DecodeError>)
        requires
            start as int <= members_view(*ms).len(),
        ensures
            r is Ok <==> dec_ok_move_to_fields(members_view(*ms).skip(start as int)),
            r matches Ok(t) ==> members_view(*ms).skip(start as int) == obj_members(enc_move_to(t)),
    {
        let ghost gm = members_view(*ms).skip(start as int);
        proof {
            assert(gm.len() == members_view(*ms).len() - start);
        }
        let mut i: usize = start;
        if ms.len() <= i {
            return Err(DecodeError::BadField);
        }
        if !key_is(ms, i, "delta") {
            return Err(DecodeError::BadField);
        }
        let x_delta = Vector2D::decode(&ms[i].value)?;
        i = i + 1;
        if i != ms.len() {
            return Err(DecodeError::BadField);
        }
        let t = MoveTo { delta: x_delta };
        proof {
            assert(members_view(*ms).skip(start as int) =~~= obj_members(enc_move_to(t)));
        }
        Ok(t)
    }

    /// Decodes from the interchange form; succeeds exactly on well-formed
    /// encodings and then returns the encoded value.
    #[verifier::rlimit(100)]
    #[verifier::spinoff_prover]
    pub fn decode(v: &Value) -> (r: Result<Self, DecodeError>)
        ensures
            r is Ok <==> dec_ok_move_to(v@),
            r matches Ok(t) ==> v@ == enc_move_to(t),
    {
        let ms = match v {
            Value::Obj(ms) => ms,
            _ => {
                return Err(DecodeError::ExpectedObject);
            },
        };
        let t = Self::decode_members(ms, 0)?;
        proof {
            assert(members_view(*ms).skip(0) =~= members_view(*ms));
            assert(v@ == Val::Obj(members_view(*ms)));
        }
        Ok(t)
    }
}

/// Field-wise equality of two `MoveTo` values (text and payloads by content).
pub open spec fn eq_move_to(a: MoveTo, b: MoveTo) -> bool {
    &&& eq_vector2d(a.delta, b.delta)
}

/// Round trip: every `MoveTo` encoding is well-formed and decodes back
/// only to a field-wise equal value.
#[verifier::rlimit(100)]
#[verifier::spinoff_prover]
pub proof fn lemma_move_to_round_trip(a: MoveTo, b: MoveTo)
    ensures
        dec_ok_move_to(enc_move_to(a)),
        enc_move_to(a) == enc_move_to(b) ==> eq_move_to(a, b),
{
    reveal_strlit("delta");
    lemma_vector2d_round_trip(a.delta, b.delta);
    lemma_vector2d_round_trip(a.delta, a.delta);
    lemma_vector2d_round_trip(b.delta, b.delta);
    assert(dec_ok_move_to_fields(obj_members(enc_move_to(a))));
    if enc_move_to(a) == enc_move_to(b) {
        assert(eq_move_to(a, b));
    }
}

/// A straight outline segment.
#[derive(Clone, Debug, PartialEq, Eq)]
pub struct StraightEdge {
    pub delta: Vector2D,
}

/// The interchange encoding of a `StraightEdge`.
pub open spec fn enc_straight_edge(t: StraightEdge) -> Val {
    Val::Obj(seq![("delta"@, enc_vector2d(t.delta))])
}

/// Whether `m` is exactly a well-formed `StraightEdge` field list.
pub open spec fn dec_ok_straight_edge_fields(m: Seq<(Seq<char>, Val)>) -> bool {
    &&& m[0].0 == "delta"@ && dec_ok_vector2d(m[0].1)
    &&& m.len() == 1
}

/// Whether `v` is a well-formed `StraightEdge` encoding.
pub open spec fn dec_ok_straight_edge(v: Val) -> bool {
    v is Obj && dec_ok_straight_edge_fields(obj_members(v))
}

/// Every element is a well-formed `StraightEdge` encoding.
pub open spec fn all_dec_ok_straight_edge(items: Seq<Val>) -> bool {
    forall|k: int| 0 <= k < items.len() ==> dec_ok_straight_edge(#[trigger] items[k])
}

impl StraightEdge {
    /// Appends this record's members to `ms`.
    #[verifier::loop_isolation(false)]
    #[verifier::rlimit(100)]
    #[verifier::spinoff_prover]
    pub fn encode_members(&self, ms: &mut Vec<Member>)
        ensures
            members_view(*final(ms)) == members_view(*old(ms)) + obj_members(enc_straight_edge(*self)),
    {
        push_value(ms, "delta", self.delta.encode());
        proof {
            assert(members_view(*ms) =~~= members_view(*old(ms)) + obj_members(enc_straight_edge(*self)));
        }
    }

    /// Encodes to the interchange form.
    pub fn encode(&self) -> (v: Value)
        ensures
            v@ == enc_straight_edge(*self),
    {
        let mut ms: Vec<Member> = Vec::new();
        self.encode_members(&mut ms);
        let v = Value::Obj(ms);
        proof {
            assert(members_view(ms) =~= obj_members(enc_straight_edge(*self)));
            assert(v@ == Val::Obj(members_view(ms)));
        }
        v
    }

    /// Decodes this record's members from `ms`, starting at `start`;
    /// succeeds exactly on a well-formed field list reaching the end.
    #[verifier::loop_isolation(false)]
    #[verifier::rlimit(100)]
    #[verifier::spinoff_prover]
    pub fn decode_members(ms: &Vec<Member>, start: usize) -> (r: Result<Self, DecodeError>)
        requires
            start as int <= members_view(*ms).len(),
        ensures
            r is Ok <==> dec_ok_straight_edge_fields(members_view(*ms).skip(start as int)),
            r matches Ok(t) ==> members_view(*ms).skip(start as int) == obj_members(enc_straight_edge(t)),
    {
        let ghost gm = members_view(*ms).skip(start as int);
        proof {
            assert(gm.len() == members_view(*ms).len() - start);
        }
        let mut i: usize = start;
        if ms.len() <= i {
            return Err(DecodeError::BadField);
        }
        if !key_is(ms, i, "delta") {
            return Err(DecodeError::BadField);
        }
        let x_delta = Vector2D::decode(&ms[i].value)?;
        i = i + 1;
        if i != ms.len() {
            return Err(DecodeError::BadField);
        }
        let t = StraightEdge { delta: x_delta };
        proof {
            assert(members_view(*ms).skip(start as int) =~~= obj_members(enc_straight_edge(t)));
        }
        Ok(t)
    }

    /// Decodes from the interchange form; succeeds exactly on well-formed
    /// encodings and then returns the encoded value.
    #[verifier::rlimit(100)]
    #[verifier::spinoff_prover]
    pub fn decode(v: &Value) -> (r: Result<Self, DecodeError>)
        ensures
            r is Ok <==> dec_ok_straight_edge(v@),
            r matches Ok(t) ==> v@ == enc_straight_edge(t),
    {
        let ms = match v {
            Value::Obj(ms) => ms,
            _ => {
                return Err(DecodeError::ExpectedObject);
            },
        };
        let t = Self::decode_members(ms, 0)?;
        proof {
            assert(members_view(*ms).skip(0) =~= members_view(*ms));
            assert(v@ == Val::Obj(members_view(*ms)));
        }
        Ok(t)
    }
}

/// Field-wise equality of two `StraightEdge` values (text and payloads by content).
pub open spec fn eq_straight_edge(a: StraightEdge, b: StraightEdge) -> bool {
    &&& eq_vector2d(a.delta, b.delta)
}

/// Round trip: every `StraightEdge` encoding is well-formed and decodes back
/// only to a field-wise equal value.
#[verifier::rlimit(100)]
#[verifier::spinoff_prover]
pub proof fn lemma_straight_edge_round_trip(a: StraightEdge, b: StraightEdge)
    ensures
        dec_ok_straight_edge(enc_straight_edge(a)),
        enc_straight_edge(a) == enc_straight_edge(b) ==> eq_straight_edge(a, b),
{
    reveal_strlit("delta");
    lemma_vector2d_round_trip(a.delta, b.delta);
    lemma_vector2d_round_trip(a.delta, a.delta);
    lemma_vector2d_round_trip(b.delta, b.delta);
    assert(dec_ok_straight_edge_fields(obj_members(enc_straight_edge(a))));
    if enc_straight_edge(a) == enc_straight_edge(b) {
        assert(eq_straight_edge(a, b));
    }
}

/// A quadratic outline segment through a control point.
#[derive(Clone, Debug, PartialEq, Eq)]
pub struct CurvedEdge {
    pub control_delta: Vector2D,
    pub anchor_delta: Vector2D,
}

/// The interchange encoding of a `CurvedEdge`.
pub open spec fn enc_curved_edge(t: CurvedEdge) -> Val {
    Val::Obj(seq![("control_delta"@, enc_vector2d(t.control_delta)), ("anchor_delta"@, enc_vector2d(t.anchor_delta))])
}

/// Whether `m` is exactly a well-formed `CurvedEdge` field list.
pub open spec fn dec_ok_curved_edge_fields(m: Seq<(Seq<char>, Val)>) -> bool {
    &&& m[0].0 == "control_delta"@ && dec_ok_vector2d(m[0].1)
    &&& m[1].0 == "anchor_delta"@ && dec_ok_vector2d(m[1].1)
    &&& m.len() == 2
}

/// Whether `v` is a well-formed `CurvedEdge` encoding.
pub open spec fn dec_ok_curved_edge(v: Val) -> bool {
    v is Obj && dec_ok_curved_edge_fields(obj_members(v))
}

/// Every element is a well-formed `CurvedEdge` encoding.
pub open spec fn all_dec_ok_curved_edge(items: Seq<Val>) -> bool {
    forall|k: int| 0 <= k < items.len() ==> dec_ok_curved_edge(#[trigger] items[k])
}

impl CurvedEdge {
    /// Appends this record's members to `ms`.
    #[verifier::loop_isolation(false)]
    #[verifier::rlimit(100)]
    #[verifier::spinoff_prover]
    pub fn encode_members(&self, ms: &mut Vec<Member>)
        ensures
            members_view(*final(ms)) == members_view(*old(ms)) + obj_members(enc_curved_edge(*self)),
    {
        push_value(ms, "control_delta", self.control_delta.encode());
        push_value(ms, "anchor_delta", self.anchor_delta.encode());
        proof {
            assert(members_view(*ms) =~~= members_view(*old(ms)) + obj_members(enc_curved_edge(*self)));
        }
    }

    /// Encodes to the interchange form.
    pub fn encode(&self) -> (v: Value)
        ensures
            v@ == enc_curved_edge(*self),
    {
        let mut ms: Vec<Member> = Vec::new();
        self.encode_members(&mut ms);
        let v = Value::Obj(ms);
        proof {
            assert(members_view(ms) =~= obj_members(enc_curved_edge(*self)));
            assert(v@ == Val::Obj(members_view(ms)));
        }
        v
    }

    /// Decodes this record's members from `ms`, starting at `start`;
    /// succeeds exactly on a well-formed field list reaching the end.
    #[verifier::loop_isolation(false)]
    #[verifier::rlimit(100)]
    #[verifier::spinoff_prover]
    pub fn decode_members(ms: &Vec<Member>, start: usize) -> (r: Result<Self, DecodeError>)
        requires
            start as int <= members_view(*ms).len(),
        ensures
            r is Ok <==> dec_ok_curved_edge_fields(members_view(*ms).skip(start as int)),
            r matches Ok(t) ==> members_view(*ms).skip(start as int) == obj_members(enc_curved_edge(t)),
    {
        let ghost gm = members_view(*ms).skip(start as int);
        proof {
            assert(gm.len() == members_view(*ms).len() - start);
        }
        let mut i: usize = start;
        if ms.len() <= i {
            return Err(DecodeError::BadField);
        }
        if !key_is(ms, i, "control_delta") {
            return Err(DecodeError::BadField);
        }
        let x_control_delta = Vector2D::decode(&ms[i].value)?;
        i = i + 1;
        if ms.len() <= i {
            return Err(DecodeError::BadField);
        }
        if !key_is(ms, i, "anchor_delta") {
            return Err(DecodeError::BadField);
        }
        let x_anchor_delta = Vector2D::decode(&ms[i].value)?;
        i = i + 1;
        if i != ms.len() {
            return Err(DecodeError::BadField);
        }
        let t = CurvedEdge { control_delta: x_control_delta, anchor_delta: x_anchor_delta };
        proof {
            assert(members_view(*ms).skip(start as int) =~~= obj_members(enc_curved_edge(t)));
        }
        Ok(t)
    }

    /// Decodes from the interchange form; succeeds exactly on well-formed
    /// encodings and then returns the encoded value.
    #[verifier::rlimit(100)]
    #[verifier::spinoff_prover]
    pub fn decode(v: &Value) -> (r: Result<Self, DecodeError>)
        ensures
            r is Ok <==> dec_ok_curved_edge(v@),
            r matches Ok(t) ==> v@ == enc_curved_edge(t),
    {
        let ms = match v {
            Value::Obj(ms) => ms,
            _ => {
                return Err(DecodeError::ExpectedObject);
            },
        };
        let t = Self::decode_members(ms, 0)?;
        proof {
            assert(members_view(*ms).skip(0) =~= members_view(*ms));
            assert(v@ == Val::Obj(members_view(*ms)));
        }
        Ok(t)
    }
}

/// Field-wise equality of two `CurvedEdge` values (text and payloads by content).
pub open spec fn eq_curved_edge(a: CurvedEdge, b: CurvedEdge) -> bool {
    &&& eq_vector2d(a.control_delta, b.control_delta)
    &&& eq_vector2d(a.anchor_delta, b.anchor_delta)
}

/// Round trip: every `CurvedEdge` encoding is well-formed and decodes back
/// only to a field-wise equal value.
#[verifier::rlimit(100)]
#[verifier::spinoff_prover]
pub proof fn lemma_curved_edge_round_trip(a: CurvedEdge, b: CurvedEdge)
    ensures
        dec_ok_curved_edge(enc_curved_edge(a)),
        enc_curved_edge(a) == enc_curved_edge(b) ==> eq_curved_edge(a, b),
{
    reveal_strlit("control_delta");
    reveal_strlit("anchor_delta");
    lemma_vector2d_round_trip(a.control_delta, b.control_delta);
    lemma_vector2d_round_trip(a.control_delta, a.control_delta);
    lemma_vector2d_round_trip(b.control_delta, b.control_delta);
    lemma_vector2d_round_trip(a.anchor_delta, b.anchor_delta);
    lemma_vector2d_round_trip(a.anchor_delta, a.anchor_delta);
    lemma_vector2d_round_trip(b.anchor_delta, b.anchor_delta);
    assert(dec_ok_curved_edge_fields(obj_members(enc_curved_edge(a))));
    if enc_curved_edge(a) == enc_curved_edge(b) {
        assert(eq_curved_edge(a, b));
    }
}

/// One per-segment record of a vector outline.
#[derive(Clone, Debug, PartialEq, Eq)]
pub enum ShapeRecord {
    MoveTo(MoveTo),
    StraightEdge(StraightEdge),
    CurvedEdge(CurvedEdge),
}

/// The interchange encoding of a `ShapeRecord`: an object whose first member is
/// the symbolic `type` discriminant, followed by the variant's fields.
pub open spec fn enc_shape_record(t: ShapeRecord) -> Val {
    match t {
        ShapeRecord::MoveTo(x) => Val::Obj(seq![("type"@, Val::Str("move-to"@))] + obj_members(enc_move_to(x))),
        ShapeRecord::StraightEdge(x) => Val::Obj(seq![("type"@, Val::Str("straight-edge"@))] + obj_members(enc_straight_edge(x))),
        ShapeRecord::CurvedEdge(x) => Val::Obj(seq![("type"@, Val::Str("curved-edge"@))] + obj_members(enc_curved_edge(x))),
    }
}

/// Whether `v` is a well-formed `ShapeRecord` encoding.
pub open spec fn dec_ok_shape_record(v: Val) -> bool {
    let m = obj_members(v);
    &&& v is Obj
    &&& m.len() >= 1
    &&& str_field(m, 0, "type"@)
    &&& ({
        let ty = str_at(m, 0);
        if ty == "move-to"@ {
            dec_ok_move_to_fields(m.skip(1))
        } else if ty == "straight-edge"@ {
            dec_ok_straight_edge_fields(m.skip(1))
        } else if ty == "curved-edge"@ {
            dec_ok_curved_edge_fields(m.skip(1))
        } else {
            false
        }
    })
}

impl ShapeRecord {
    /// Encodes to the interchange form.
    pub fn encode(&self) -> (v: Value)
        ensures
            v@ == enc_shape_record(*self),
    {
        let mut ms: Vec<Member> = Vec::new();
        match self {
            ShapeRecord::MoveTo(x) => {
                push_lit(&mut ms, "type", "move-to");
                x.encode_members(&mut ms);
            },
            ShapeRecord::StraightEdge(x) => {
                push_lit(&mut ms, "type", "straight-edge");
                x.encode_members(&mut ms);
            },
            ShapeRecord::CurvedEdge(x) => {
                push_lit(&mut ms, "type", "curved-edge");
                x.encode_members(&mut ms);
            },
        }
        let v = Value::Obj(ms);
        proof {
            assert(members_view(ms) =~= obj_members(enc_shape_record(*self)));
            assert(v@ == Val::Obj(members_view(ms)));
        }
        v
    }

    /// Decodes from the interchange form; a discriminant outside the closed
    /// variant set is rejected.
    pub fn decode(v: &Value) -> (r: Result<Self, DecodeError>)
        ensures
            r is Ok <==> dec_ok_shape_record(v@),
            r matches Ok(t) ==> v@ == enc_shape_record(t),
    {
        let ms = match v {
            Value::Obj(ms) => ms,
            _ => {
                return Err(DecodeError::ExpectedObject);
            },
        };
        if ms.len() < 1 {
            return Err(DecodeError::BadField);
        }
        let ty = take_str(ms, 0, "type")?;
        if str_is(&ty, "move-to") {
            let x = MoveTo::decode_members(ms, 1)?;
            let out = ShapeRecord::MoveTo(x);
            proof {
                assert(members_view(*ms) =~= obj_members(enc_shape_record(out)));
                assert(v@ == Val::Obj(members_view(*ms)));
            }
            Ok(out)
        } else if str_is(&ty, "straight-edge") {
            let x = StraightEdge::decode_members(ms, 1)?;
            let out = ShapeRecord::StraightEdge(x);
            proof {
                assert(members_view(*ms) =~= obj_members(enc_shape_record(out)));
                assert(v@ == Val::Obj(members_view(*ms)));
            }
            Ok(out)
        } else if str_is(&ty, "curved-edge") {
            let x = CurvedEdge::decode_members(ms, 1)?;
            let out = ShapeRecord::CurvedEdge(x);
            proof {
                assert(members_view(*ms) =~= obj_members(enc_shape_record(out)));
                assert(v@ == Val::Obj(members_view(*ms)));
            }
            Ok(out)
        } else {
            Err(DecodeError::UnknownVariant)
        }
    }
}

/// Every element is a well-formed `ShapeRecord` encoding.
pub open spec fn all_dec_ok_shape_record(items: Seq<Val>) -> bool {
    forall|k: int| 0 <= k < items.len() ==> dec_ok_shape_record(#[trigger] items[k])
}

/// Variant-wise equality of two `ShapeRecord` values.
pub open spec fn eq_shape_record(a: ShapeRecord, b: ShapeRecord) -> bool {
    match (a, b) {
        (ShapeRecord::MoveTo(x), ShapeRecord::MoveTo(y)) => eq_move_to(x, y),
        (ShapeRecord::StraightEdge(x), ShapeRecord::StraightEdge(y)) => eq_straight_edge(x, y),
        (ShapeRecord::CurvedEdge(x), ShapeRecord::CurvedEdge(y)) => eq_curved_edge(x, y),
        _ => false,
    }
}

/// Round trip: every `ShapeRecord` encoding carries a discriminant of the closed
/// set and decodes back only to an equal value of the same variant.
pub proof fn lemma_shape_record_round_trip(a: ShapeRecord, b: ShapeRecord)
    ensures
        dec_ok_shape_record(enc_shape_record(a)),
        enc_shape_record(a) == enc_shape_record(b) ==> eq_shape_record(a, b),
{
    reveal_strlit("type");
    reveal_strlit("move-to");
    reveal_strlit("straight-edge");
    reveal_strlit("curved-edge");
    assert("curved-edge"@.len() == 11);
    assert("move-to"@.len() == 7);
    assert("straight-edge"@.len() == 13);
    assert("move-to"@ != "straight-edge"@);
    assert("move-to"@ != "curved-edge"@);
    assert("straight-edge"@ != "curved-edge"@);
    match a {
        ShapeRecord::MoveTo(x) => {
            lemma_move_to_round_trip(x, x);
            assert(obj_members(enc_shape_record(a)).skip(1) =~= obj_members(enc_move_to(x)));
        },
        ShapeRecord::StraightEdge(x) => {
            lemma_straight_edge_round_trip(x, x);
            assert(obj_members(enc_shape_record(a)).skip(1) =~= obj_members(enc_straight_edge(x)));
        },
        ShapeRecord::CurvedEdge(x) => {
            lemma_curved_edge_round_trip(x, x);
            assert(obj_members(enc_shape_record(a)).skip(1) =~= obj_members(enc_curved_edge(x)));
        },
    }
    if enc_shape_record(a) == enc_shape_record(b) {
        match (a, b) {
            (ShapeRecord::MoveTo(x), ShapeRecord::MoveTo(y)) => {
                assert(obj_members(enc_shape_record(a)).skip(1) =~= obj_members(enc_move_to(x)));
                assert(obj_members(enc_shape_record(b)).skip(1) =~= obj_members(enc_move_to(y)));
                lemma_move_to_round_trip(x, y);
            },
            (ShapeRecord::StraightEdge(x), ShapeRecord::StraightEdge(y)) => {
                assert(obj_members(enc_shape_record(a)).skip(1) =~= obj_members(enc_straight_edge(x)));
                assert(obj_members(enc_shape_record(b)).skip(1) =~= obj_members(enc_straight_edge(y)));
                lemma_straight_edge_round_trip(x, y);
            },
            (ShapeRecord::CurvedEdge(x), ShapeRecord::CurvedEdge(y)) => {
                assert(obj_members(enc_shape_record(a)).skip(1) =~= obj_members(enc_curved_edge(x)));
                assert(obj_members(enc_shape_record(b)).skip(1) =~= obj_members(enc_curved_edge(y)));
                lemma_curved_edge_round_trip(x, y);
            },
            _ => {},
        }
    }
}

/// A vector outline: an ordered sequence of shape records.
#[derive(Clone, Debug, PartialEq, Eq)]
pub struct Shape {
    pub records: Vec<ShapeRecord>,
}

/// The interchange encoding of a `Shape`.
pub open spec fn enc_shape(t: Shape) -> Val {
    Val::Obj(seq![("records"@, Val::Arr(t.records@.map_values(|y: ShapeRecord| enc_shape_record(y))))])
}

/// Whether `m` is exactly a well-formed `Shape` field list.
pub open spec fn dec_ok_shape_fields(m: Seq<(Seq<char>, Val)>) -> bool {
    &&& m[0].0 == "records"@ && (m[0].1 is Arr && all_dec_ok_shape_record(arr_items(m[0].1)))
    &&& m.len() == 1
}

/// Whether `v` is a well-formed `Shape` encoding.
pub open spec fn dec_ok_shape(v: Val) -> bool {
    v is Obj && dec_ok_shape_fields(obj_members(v))
}

/// Every element is a well-formed `Shape` encoding.
pub open spec fn all_dec_ok_shape(items: Seq<Val>) -> bool {
    forall|k: int| 0 <= k < items.len() ==> dec_ok_shape(#[trigger] items[k])
}

impl Shape {
    /// Appends this record's members to `ms`.
    #[verifier::loop_isolation(false)]
    #[verifier::rlimit(100)]
    #[verifier::spinoff_prover]
    pub fn encode_members(&self, ms: &mut Vec<Member>)
        ensures
            members_view(*final(ms)) == members_view(*old(ms)) + obj_members(enc_shape(*self)),
    {
        let mut arr_0: Vec<Value> = Vec::new();
        let mut j: usize = 0;
        while j < self.records.len()
            invariant
                j <= self.records@.len(),
                arr_0@.len() == j as int,
                forall|k: int| 0 <= k < j ==> #[trigger] val_view(arr_0@[k]) == enc_shape_record(self.records@[k]),
            decreases self.records@.len() - j,
        {
            arr_0.push(self.records[j].encode());
            j = j + 1;
        }
        proof {
            let m2 = self.records@.map_values(|y: ShapeRecord| enc_shape_record(y));
            assert(elems_view(arr_0).len() == m2.len());
            assert forall|k: int| 0 <= k < m2.len() implies elems_view(arr_0)[k] == m2[k] by {
                assert(val_view(arr_0@[k]) == enc_shape_record(self.records@[k]));
                assert(m2[k] == enc_shape_record(self.records@[k]));
            }
            assert(elems_view(arr_0) =~~= m2);
        }
        push_value(ms, "records", Value::Arr(arr_0));
        proof {
            assert(members_view(*ms) =~~= members_view(*old(ms)) + obj_members(enc_shape(*self)));
        }
    }

    /// Encodes to the interchange form.
    pub fn encode(&self) -> (v: Value)
        ensures
            v@ == enc_shape(*self),
    {
        let mut ms: Vec<Member> = Vec::new();
        self.encode_members(&mut ms);
        let v = Value::Obj(ms);
        proof {
            assert(members_view(ms) =~= obj_members(enc_shape(*self)));
            assert(v@ == Val::Obj(members_view(ms)));
        }
        v
    }

    /// Decodes this record's members from `ms`, starting at `start`;
    /// succeeds exactly on a well-formed field list reaching the end.
    #[verifier::loop_isolation(false)]
    #[verifier::rlimit(100)]
    #[verifier::spinoff_prover]
    pub fn decode_members(ms: &Vec<Member>, start: usize) -> (r: Result<Self, DecodeError>)
        requires
            start as int <= members_view(*ms).len(),
        ensures
            r is Ok <==> dec_ok_shape_fields(members_view(*ms).skip(start as int)),
            r matches Ok(t) ==> members_view(*ms).skip(start as int) == obj_members(enc_shape(t)),
    {
        let ghost gm = members_view(*ms).skip(start as int);
        proof {
            assert(gm.len() == members_view(*ms).len() - start);
        }
        let mut i: usize = start;
        if ms.len() <= i {
            return Err(DecodeError::BadField);
        }
        if !key_is(ms, i, "records") {
            return Err(DecodeError::BadField);
        }
        let items_0 = match &ms[i].value {
            Value::Arr(a) => a,
            _ => {
                return Err(DecodeError::BadField);
            },
        };
        proof {
            assert(members_view(*ms)[i as int].1 == Val::Arr(elems_view(*items_0)));
            assert(arr_items(gm[(i - start) as int].1) == elems_view(*items_0));
        }
        let mut out_0: Vec<ShapeRecord> = Vec::new();
        let mut j: usize = 0;
        while j < items_0.len()
            invariant
                j <= items_0@.len(),
                out_0@.len() == j as int,
                forall|k: int| 0 <= k < j ==> #[trigger] elems_view(*items_0)[k] == enc_shape_record(out_0@[k]),
                forall|k: int| 0 <= k < j ==> dec_ok_shape_record(#[trigger] elems_view(*items_0)[k]),
            decreases items_0@.len() - j,
        {
            let x = match ShapeRecord::decode(&items_0[j]) {
                Ok(x) => x,
                Err(e) => {
                    proof {
                        assert(!dec_ok_shape_record(elems_view(*items_0)[j as int]));
                        assert(!all_dec_ok_shape_record(elems_view(*items_0)));
                    }
                    return Err(e);
                },
            };
            out_0.push(x);
            j = j + 1;
        }
        proof {
            assert(elems_view(*items_0) =~~= out_0@.map_values(|y: ShapeRecord| enc_shape_record(y)));
            assert(all_dec_ok_shape_record(elems_view(*items_0)));
        }
        let x_records = out_0;
        i = i + 1;
        if i != ms.len() {
            return Err(DecodeError::BadField);
        }
        let t = Shape { records: x_records };
        proof {
            assert(members_view(*ms).skip(start as int) =~~= obj_members(enc_shape(t)));
        }
        Ok(t)
    }

    /// Decodes from the interchange form; succeeds exactly on well-formed
    /// encodings and then returns the encoded value.
    #[verifier::rlimit(100)]
    #[verifier::spinoff_prover]
    pub fn decode(v: &Value) -> (r: Result<Self, DecodeError>)
        ensures
            r is Ok <==> dec_ok_shape(v@),
            r matches Ok(t) ==> v@ == enc_shape(t),
    {
        let ms = match v {
            Value::Obj(ms) => ms,
            _ => {
                return Err(DecodeError::ExpectedObject);
            },
        };
        let t = Self::decode_members(ms, 0)?;
        proof {
            assert(members_view(*ms).skip(0) =~= members_view(*ms));
            assert(v@ == Val::Obj(members_view(*ms)));
        }
        Ok(t)
    }
}

/// Field-wise equality of two `Shape` values (text and payloads by content).
pub open spec fn eq_shape(a: Shape, b: Shape) -> bool {
    &&& (a.records@.len() == b.records@.len() && (forall|k: int| 0 <= k < a.records@.len() ==> eq_shape_record(#[trigger] a.records@[k], b.records@[k])))
}

/// Round trip: every `Shape` encoding is well-formed and decodes back
/// only to a field-wise equal value.
#[verifier::rlimit(100)]
#[verifier::spinoff_prover]
pub proof fn lemma_shape_round_trip(a: Shape, b: Shape)
    ensures
        dec_ok_shape(enc_shape(a)),
        enc_shape(a) == enc_shape(b) ==> eq_shape(a, b),
{
    reveal_strlit("records");
    {
        let ea0 = a.records@.map_values(|y: ShapeRecord| enc_shape_record(y));
        assert forall|k: int| 0 <= k < ea0.len() implies dec_ok_shape_record(#[trigger] ea0[k]) by {
            lemma_shape_record_round_trip(a.records@[k], a.records@[k]);
        }
        assert(all_dec_ok_shape_record(ea0));
    }
    {
        let ea = a.records@.map_values(|y: ShapeRecord| enc_shape_record(y));
        let eb = b.records@.map_values(|y: ShapeRecord| enc_shape_record(y));
        if ea == eb {
            assert forall|k: int| 0 <= k < a.records@.len() implies eq_shape_record(#[trigger] a.records@[k], b.records@[k]) by {
                assert(ea[k] == eb[k]);
                lemma_shape_record_round_trip(a.records@[k], b.records@[k]);
            }
        }
    }
    assert(dec_ok_shape_fields(obj_members(enc_shape(a))));
    if enc_shape(a) == enc_shape(b) {
        assert(eq_shape(a, b));
    }
}

/// The outline of one font glyph.
#[derive(Clone, Debug, PartialEq, Eq)]
pub struct Glyph {
    pub records: Vec<ShapeRecord>,
}

/// The interchange encoding of a `Glyph`.
pub open spec fn enc_glyph(t: Glyph) -> Val {
    Val::Obj(seq![("records"@, Val::Arr(t.records@.map_values(|y: ShapeRecord| enc_shape_record(y))))])
}

/// Whether `m` is exactly a well-formed `Glyph` field list.
pub open spec fn dec_ok_glyph_fields(m: Seq<(Seq<char>, Val)>) -> bool {
    &&& m[0].0 == "records"@ && (m[0].1 is Arr && all_dec_ok_shape_record(arr_items(m[0].1)))
    &&& m.len() == 1
}

/// Whether `v` is a well-formed `Glyph` encoding.
pub open spec fn dec_ok_glyph(v: Val) -> bool {
    v is Obj && dec_ok_glyph_fields(obj_members(v))
}

/// Every element is a well-formed `Glyph` encoding.
pub open spec fn all_dec_ok_glyph(items: Seq<Val>) -> bool {
    forall|k: int| 0 <= k < items.len() ==> dec_ok_glyph(#[trigger] items[k])
}

impl Glyph {
    /// Appends this record's members to `ms`.
    #[verifier::loop_isolation(false)]
    #[verifier::rlimit(100)]
    #[verifier::spinoff_prover]
    pub fn encode_members(&self, ms: &mut Vec<Member>)
        ensures
            members_view(*final(ms)) == members_view(*old(ms)) + obj_members(enc_glyph(*self)),
    {
        let mut arr_0: Vec<Value> = Vec::new();
        let mut j: usize = 0;
        while j < self.records.len()
            invariant
                j <= self.records@.len(),
                arr_0@.len() == j as int,
                forall|k: int| 0 <= k < j ==> #[trigger] val_view(arr_0@[k]) == enc_shape_record(self.records@[k]),
            decreases self.records@.len() - j,
        {
            arr_0.push(self.records[j].encode());
            j = j + 1;
        }
        proof {
            let m2 = self.records@.map_values(|y: ShapeRecord| enc_shape_record(y));
            assert(elems_view(arr_0).len() == m2.len());
            assert forall|k: int| 0 <= k < m2.len() implies elems_view(arr_0)[k] == m2[k] by {
                assert(val_view(arr_0@[k]) == enc_shape_record(self.records@[k]));
                assert(m2[k] == enc_shape_record(self.records@[k]));
            }
            assert(elems_view(arr_0) =~~= m2);
        }
        push_value(ms, "records", Value::Arr(arr_0));
        proof {
            assert(members_view(*ms) =~~= members_view(*old(ms)) + obj_members(enc_glyph(*self)));
        }
    }

    /// Encodes to the interchange form.
    pub fn encode(&self) -> (v: Value)
        ensures
            v@ == enc_glyph(*self),
    {
        let mut ms: Vec<Member> = Vec::new();
        self.encode_members(&mut ms);
        let v = Value::Obj(ms);
        proof {
            assert(members_view(ms) =~= obj_members(enc_glyph(*self)));
            assert(v@ == Val::Obj(members_view(ms)));
        }
        v
    }

    /// Decodes this record's members from `ms`, starting at `start`;
    /// succeeds exactly on a well-formed field list reaching the end.
    #[verifier::loop_isolation(false)]
    #[verifier::rlimit(100)]
    #[verifier::spinoff_prover]
    pub fn decode_members(ms: &Vec<Member>, start: usize) -> (r: Result<Self, DecodeError>)
        requires
            start as int <= members_view(*ms).len(),
        ensures
            r is Ok <==> dec_ok_glyph_fields(members_view(*ms).skip(start as int)),
            r matches Ok(t) ==> members_view(*ms).skip(start as int) == obj_members(enc_glyph(t)),
    {
        let ghost gm = members_view(*ms).skip(start as int);
        proof {
            assert(gm.len() == members_view(*ms).len() - start);
        }
        let mut i: usize = start;
        if ms.len() <= i {
            return Err(DecodeError::BadField);
        }
        if !key_is(ms, i, "records") {
            return Err(DecodeError::BadField);
        }
        let items_0 = match &ms[i].value {
            Value::Arr(a) => a,
            _ => {
                return Err(DecodeError::BadField);
            },
        };
        proof {
            assert(members_view(*ms)[i as int].1 == Val::Arr(elems_view(*items_0)));
            assert(arr_items(gm[(i - start) as int].1) == elems_view(*items_0));
        }
        let mut out_0: Vec<ShapeRecord> = Vec::new();
        let mut j: usize = 0;
        while j < items_0.len()
            invariant
                j <= items_0@.len(),
                out_0@.len() == j as int,
                forall|k: int| 0 <= k < j ==> #[trigger] elems_view(*items_0)[k] == enc_shape_record(out_0@[k]),
                forall|k: int| 0 <= k < j ==> dec_ok_shape_record(#[trigger] elems_view(*items_0)[k]),
            decreases items_0@.len() - j,
        {
            let x = match ShapeRecord::decode(&items_0[j]) {
                Ok(x) => x,
                Err(e) => {
                    proof {
                        assert(!dec_ok_shape_record(elems_view(*items_0)[j as int]));
                        assert(!all_dec_ok_shape_record(elems_view(*items_0)));
                    }
                    return Err(e);
                },
            };
            out_0.push(x);
            j = j + 1;
        }
        proof {
            assert(elems_view(*items_0) =~~= out_0@.map_values(|y: ShapeRecord| enc_shape_record(y)));
            assert(all_dec_ok_shape_record(elems_view(*items_0)));
        }
        let x_records = out_0;
        i = i + 1;
        if i != ms.len() {
            return Err(DecodeError::BadField);
        }
        let t = Glyph { records: x_records };
        proof {
            assert(members_view(*ms).skip(start as int) =~~= obj_members(enc_glyph(t)));
        }
        Ok(t)
    }

    /// Decodes from the interchange form; succeeds exactly on well-formed
    /// encodings and then returns the encoded value.
    #[verifier::rlimit(100)]
    #[verifier::spinoff_prover]
    pub fn decode(v: &Value) -> (r: Result<Self, DecodeError>)
        ensures
            r is Ok <==> dec_ok_glyph(v@),
            r matches Ok(t) ==> v@ == enc_glyph(t),
    {
        let ms = match v {
            Value::Obj(ms) => ms,
            _ => {
                return Err(DecodeError::ExpectedObject);
            },
        };
        let t = Self::decode_members(ms, 0)?;
        proof {
            assert(members_view(*ms).skip(0) =~= members_view(*ms));
            assert(v@ == Val::Obj(members_view(*ms)));
        }
        Ok(t)
    }
}

/// Field-wise equality of two `Glyph` values (text and payloads by content).
pub open spec fn eq_glyph(a: Glyph, b: Glyph) -> bool {
    &&& (a.records@.len() == b.records@.len() && (forall|k: int| 0 <= k < a.records@.len() ==> eq_shape_record(#[trigger] a.records@[k], b.records@[k])))
}

/// Round trip: every `Glyph` encoding is well-formed and decodes back
/// only to a field-wise equal value.
#[verifier::rlimit(100)]
#[verifier::spinoff_prover]
pub proof fn lemma_glyph_round_trip(a: Glyph, b: Glyph)
    ensures
        dec_ok_glyph(enc_glyph(a)),
        enc_glyph(a) == enc_glyph(b) ==> eq_glyph(a, b),
{
    reveal_strlit("records");
    {
        let ea0 = a.records@.map_values(|y: ShapeRecord| enc_shape_record(y));
        assert forall|k: int| 0 <= k < ea0.len() implies dec_ok_shape_record(#[trigger] ea0[k]) by {
            lemma_shape_record_round_trip(a.records@[k], a.records@[k]);
        }
        assert(all_dec_ok_shape_record(ea0));
    }
    {
        let ea = a.records@.map_values(|y: ShapeRecord| enc_shape_record(y));
        let eb = b.records@.map_values(|y: ShapeRecord| enc_shape_record(y));
        if ea == eb {
            assert forall|k: int| 0 <= k < a.records@.len() implies eq_shape_record(#[trigger] a.records@[k], b.records@[k]) by {
                assert(ea[k] == eb[k]);
                lemma_shape_record_round_trip(a.records@[k], b.records@[k]);
            }
        }
    }
    assert(dec_ok_glyph_fields(obj_members(enc_glyph(a))));
    if enc_glyph(a) == enc_glyph(b) {
        assert(eq_glyph(a, b));
    }
}

/// A morphable vector outline.
#[derive(Clone, Debug, PartialEq, Eq)]
pub struct MorphShape {
    pub records: Vec<ShapeRecord>,
}

/// The interchange encoding of a `MorphShape`.
pub open spec fn enc_morph_shape(t: MorphShape) -> Val {
    Val::Obj(seq![("records"@, Val::Arr(t.records@.map_values(|y: ShapeRecord| enc_shape_record(y))))])
}

/// Whether `m` is exactly a well-formed `MorphShape` field list.
pub open spec fn dec_ok_morph_shape_fields(m: Seq<(Seq<char>, Val)>) -> bool {
    &&& m[0].0 == "records"@ && (m[0].1 is Arr && all_dec_ok_shape_record(arr_items(m[0].1)))
    &&& m.len() == 1
}

/// Whether `v` is a well-formed `MorphShape` encoding.
pub open spec fn dec_ok_morph_shape(v: Val) -> bool {
    v is Obj && dec_ok_morph_shape_fields(obj_members(v))
}

/// Every element is a well-formed `MorphShape` encoding.
pub open spec fn all_dec_ok_morph_shape(items: Seq<Val>) -> bool {
    forall|k: int| 0 <= k < items.len() ==> dec_ok_morph_shape(#[trigger] items[k])
}

impl MorphShape {
    /// Appends this record's members to `ms`.
    #[verifier::loop_isolation(false)]
    #[verifier::rlimit(100)]
    #[verifier::spinoff_prover]
    pub fn encode_members(&self, ms: &mut Vec<Member>)
        ensures
            members_view(*final(ms)) == members_view(*old(ms)) + obj_members(enc_morph_shape(*self)),
    {
        let mut arr_0: Vec<Value> = Vec::new();
        let mut j: usize = 0;
        while j < self.records.len()
            invariant
                j <= self.records@.len(),
                arr_0@.len() == j as int,
                forall|k: int| 0 <= k < j ==> #[trigger] val_view(arr_0@[k]) == enc_shape_record(self.records@[k]),
            decreases self.records@.len() - j,
        {
            arr_0.push(self.records[j].encode());
            j = j + 1;
        }
        proof {
            let m2 = self.records@.map_values(|y: ShapeRecord| enc_shape_record(y));
            assert(elems_view(arr_0).len() == m2.len());
            assert forall|k: int| 0 <= k < m2.len() implies elems_view(arr_0)[k] == m2[k] by {
                assert(val_view(arr_0@[k]) == enc_shape_record(self.records@[k]));
                assert(m2[k] == enc_shape_record(self.records@[k]));
            }
            assert(elems_view(arr_0) =~~= m2);
        }
        push_value(ms, "records", Value::Arr(arr_0));
        proof {
            assert(members_view(*ms) =~~= members_view(*old(ms)) + obj_members(enc_morph_shape(*self)));
        }
    }

    /// Encodes to the interchange form.
    pub fn encode(&self) -> (v: Value)
        ensures
            v@ == enc_morph_shape(*self),
    {
        let mut ms: Vec<Member> = Vec::new();
        self.encode_members(&mut ms);
        let v = Value::Obj(ms);
        proof {
            assert(members_view(ms) =~= obj_members(enc_morph_shape(*self)));
            assert(v@ == Val::Obj(members_view(ms)));
        }
        v
    }

    /// Decodes this record's members from `ms`, starting at `start`;
    /// succeeds exactly on a well-formed field list reaching the end.
    #[verifier::loop_isolation(false)]
    #[verifier::rlimit(100)]
    #[verifier::spinoff_prover]
    pub fn decode_members(ms: &Vec<Member>, start: usize) -> (r: Result<Self, DecodeError>)
        requires
            start as int <= members_view(*ms).len(),
        ensures
            r is Ok <==> dec_ok_morph_shape_fields(members_view(*ms).skip(start as int)),
            r matches Ok(t) ==> members_view(*ms).skip(start as int) == obj_members(enc_morph_shape(t)),
    {
        let ghost gm = members_view(*ms).skip(start as int);
        proof {
            assert(gm.len() == members_view(*ms).len() - start);
        }
        let mut i: usize = start;
        if ms.len() <= i {
            return Err(DecodeError::BadField);
        }
        if !key_is(ms, i, "records") {
            return Err(DecodeError::BadField);
        }
        let items_0 = match &ms[i].value {
            Value::Arr(a) => a,
            _ => {
                return Err(DecodeError::BadField);
            },
        };
        proof {
            assert(members_view(*ms)[i as int].1 == Val::Arr(elems_view(*items_0)));
            assert(arr_items(gm[(i - start) as int].1) == elems_view(*items_0));
        }
        let mut out_0: Vec<ShapeRecord> = Vec::new();
        let mut j: usize = 0;
        while j < items_0.len()
            invariant
                j <= items_0@.len(),
                out_0@.len() == j as int,
                forall|k: int| 0 <= k < j ==> #[trigger] elems_view(*items_0)[k] == enc_shape_record(out_0@[k]),
                forall|k: int| 0 <= k < j ==> dec_ok_shape_record(#[trigger] elems_view(*items_0)[k]),
            decreases items_0@.len() - j,
        {
            let x = match ShapeRecord::decode(&items_0[j]) {
                Ok(x) => x,
                Err(e) => {
                    proof {
                        assert(!dec_ok_shape_record(elems_view(*items_0)[j as int]));
                        assert(!all_dec_ok_shape_record(elems_view(*items_0)));
                    }
                    return Err(e);
                },
            };
            out_0.push(x);
            j = j + 1;
        }
        proof {
            assert(elems_view(*items_0) =~~= out_0@.map_values(|y: ShapeRecord| enc_shape_record(y)));
            assert(all_dec_ok_shape_record(elems_view(*items_0)));
        }
        let x_records = out_0;
        i = i + 1;
        if i != ms.len() {
            return Err(DecodeError::BadField);
        }
        let t = MorphShape { records: x_records };
        proof {
            assert(members_view(*ms).skip(start as int) =~~= obj_members(enc_morph_shape(t)));
        }
        Ok(t)
    }

    /// Decodes from the interchange form; succeeds exactly on well-formed
    /// encodings and then returns the encoded value.
    #[verifier::rlimit(100)]
    #[verifier::spinoff_prover]
    pub fn decode(v: &Value) -> (r: Result<Self, DecodeError>)
        ensures
            r is Ok <==> dec_ok_morph_shape(v@),
            r matches Ok(t) ==> v@ == enc_morph_shape(t),
    {
        let ms = match v {
            Value::Obj(ms) => ms,
            _ => {
                return Err(DecodeError::ExpectedObject);
            },
        };
        let t = Self::decode_members(ms, 0)?;
        proof {
            assert(members_view(*ms).skip(0) =~= members_view(*ms));
            assert(v@ == Val::Obj(members_view(*ms)));
        }
        Ok(t)
    }
}

/// Field-wise equality of two `MorphShape` values (text and payloads by content).
pub open spec fn eq_morph_shape(a: MorphShape, b: MorphShape) -> bool {
    &&& (a.records@.len() == b.records@.len() && (forall|k: int| 0 <= k < a.records@.len() ==> eq_shape_record(#[trigger] a.records@[k], b.records@[k])))
}

/// Round trip: every `MorphShape` encoding is well-formed and decodes back
/// only to a field-wise equal value.
#[verifier::rlimit(100)]
#[verifier::spinoff_prover]
pub proof fn lemma_morph_shape_round_trip(a: MorphShape, b: MorphShape)
    ensures
        dec_ok_morph_shape(enc_morph_shape(a)),
        enc_morph_shape(a) == enc_morph_shape(b) ==> eq_morph_shape(a, b),
{
    reveal_strlit("records");
    {
        let ea0 = a.records@.map_values(|y: ShapeRecord| enc_shape_record(y));
        assert forall|k: int| 0 <= k < ea0.len() implies dec_ok_shape_record(#[trigger] ea0[k]) by {
            lemma_shape_record_round_trip(a.records@[k], a.records@[k]);
        }
        assert(all_dec_ok_shape_record(ea0));
    }
    {
        let ea = a.records@.map_values(|y: ShapeRecord| enc_shape_record(y));
        let eb = b.records@.map_values(|y: ShapeRecord| enc_shape_record(y));
        if ea == eb {
            assert forall|k: int| 0 <= k < a.records@.len() implies eq_shape_record(#[trigger] a.records@[k], b.records@[k]) by {
                assert(ea[k] == eb[k]);
                lemma_shape_record_round_trip(a.records@[k], b.records@[k]);
            }
        }
    }
    assert(dec_ok_morph_shape_fields(obj_members(enc_morph_shape(a))));
    if enc_morph_shape(a) == enc_morph_shape(b) {
        assert(eq_morph_shape(a, b));
    }
}

/// An event mask and the action bytes a placed clip runs on it.
#[derive(Clone, Debug, PartialEq, Eq)]
pub struct ClipAction {
    pub events: u32,
    pub key_code: Option<u8>,
    pub actions: Vec<u8>,
}

/// The interchange encoding of a `ClipAction`.
pub open spec fn enc_clip_action(t: ClipAction) -> Val {
    Val::Obj(seq![("events"@, Val::Int(t.events as int))] + maybe("key_code"@, match t.key_code { Option::Some(x) => Option::Some(Val::Int(x as int)), Option::None => Option::None }) + seq![("actions"@, Val::Str(hex_of(t.actions@)))])
}

/// Whether `m` is exactly a well-formed `ClipAction` field list.
pub open spec fn dec_ok_clip_action_fields(m: Seq<(Seq<char>, Val)>) -> bool {
    let has_key_code = m.len() > 1 && m[1].0 == "key_code"@;
    let j1 = if has_key_code { 1 + 1int } else { 1 };
    &&& int_field(m, 0, "events"@, 0, u32::MAX as int)
    &&& has_key_code ==> ((m[1].1 matches Val::Int(x) && 0 <= x <= u8::MAX as int))
    &&& str_field(m, j1, "actions"@) && is_hex_seq(str_at(m, j1))
    &&& m.len() == j1 + 1
}

/// Whether `v` is a well-formed `ClipAction` encoding.
pub open spec fn dec_ok_clip_action(v: Val) -> bool {
    v is Obj && dec_ok_clip_action_fields(obj_members(v))
}

/// Every element is a well-formed `ClipAction` encoding.
pub open spec fn all_dec_ok_clip_action(items: Seq<Val>) -> bool {
    forall|k: int| 0 <= k < items.len() ==> dec_ok_clip_action(#[trigger] items[k])
}

impl ClipAction {
    /// Appends this record's members to `ms`.
    #[verifier::loop_isolation(false)]
    #[verifier::rlimit(100)]
    #[verifier::spinoff_prover]
    pub fn encode_members(&self, ms: &mut Vec<Member>)
        ensures
            members_view(*final(ms)) == members_view(*old(ms)) + obj_members(enc_clip_action(*self)),
    {
        push_int(ms, "events", self.events as i128);
        if let Some(x) = &self.key_code {
            push_int(ms, "key_code", (*x) as i128);
        }
        let hx_2 = hex_encode(&self.actions);
        push_str(ms, "actions", &hx_2);
        proof {
            assert(members_view(*ms) =~~= members_view(*old(ms)) + obj_members(enc_clip_action(*self)));
        }
    }

    /// Encodes to the interchange form.
    pub fn encode(&self) -> (v: Value)
        ensures
            v@ == enc_clip_action(*self),
    {
        let mut ms: Vec<Member> = Vec::new();
        self.encode_members(&mut ms);
        let v = Value::Obj(ms);
        proof {
            assert(members_view(ms) =~= obj_members(enc_clip_action(*self)));
            assert(v@ == Val::Obj(members_view(ms)));
        }
        v
    }

    /// Decodes this record's members from `ms`, starting at `start`;
    /// succeeds exactly on a well-formed field list reaching the end.
    #[verifier::loop_isolation(false)]
    #[verifier::rlimit(100)]
    #[verifier::spinoff_prover]
    pub fn decode_members(ms: &Vec<Member>, start: usize) -> (r: Result<Self, DecodeError>)
        requires
            start as int <= members_view(*ms).len(),
        ensures
            r is Ok <==> dec_ok_clip_action_fields(members_view(*ms).skip(start as int)),
            r matches Ok(t) ==> members_view(*ms).skip(start as int) == obj_members(enc_clip_action(t)),
    {
        let ghost gm = members_view(*ms).skip(start as int);
        proof {
            assert(gm.len() == members_view(*ms).len() - start);
        }
        let mut i: usize = start;
        if ms.len() <= i {
            return Err(DecodeError::BadField);
        }
        let x_events: u32 = take_int(ms, i, "events", 0, u32::MAX as i128)? as u32;
        i = i + 1;
        let x_key_code: Option<u8>;
        if i < ms.len() && key_is(ms, i, "key_code") {
            if ms.len() <= i {
                return Err(DecodeError::BadField);
            }
            let inner_key_code: u8 = take_int(ms, i, "key_code", 0, u8::MAX as i128)? as u8;
            i = i + 1;
            x_key_code = Some(inner_key_code);
        } else {
            x_key_code = None;
        }
        if ms.len() <= i {
            return Err(DecodeError::BadField);
        }
        let s_2 = take_str(ms, i, "actions")?;
        let x_actions: Vec<u8> = hex_decode(s_2.as_str())?;
        i = i + 1;
        if i != ms.len() {
            return Err(DecodeError::BadField);
        }
        let t = ClipAction { events: x_events, key_code: x_key_code, actions: x_actions };
        proof {
            assert(members_view(*ms).skip(start as int) =~~= obj_members(enc_clip_action(t)));
        }
        Ok(t)
    }

    /// Decodes from the interchange form; succeeds exactly on well-formed
    /// encodings and then returns the encoded value.
    #[verifier::rlimit(100)]
    #[verifier::spinoff_prover]
    pub fn decode(v: &Value) -> (r: Result<Self, DecodeError>)
        ensures
            r is Ok <==> dec_ok_clip_action(v@),
            r matches Ok(t) ==> v@ == enc_clip_action(t),
    {
        let ms = match v {
            Value::Obj(ms) => ms,
            _ => {
                return Err(DecodeError::ExpectedObject);
            },
        };
        let t = Self::decode_members(ms, 0)?;
        proof {
            assert(members_view(*ms).skip(0) =~= members_view(*ms));
            assert(v@ == Val::Obj(members_view(*ms)));
        }
        Ok(t)
    }
}

/// Field-wise equality of two `ClipAction` values (text and payloads by content).
pub open spec fn eq_clip_action(a: ClipAction, b: ClipAction) -> bool {
    &&& a.events == b.events
    &&& a.key_code == b.key_code
    &&& a.actions@ == b.actions@
}

/// Round trip: every `ClipAction` encoding is well-formed and decodes back
/// only to a field-wise equal value.
#[verifier::rlimit(100)]
#[verifier::spinoff_prover]
pub proof fn lemma_clip_action_round_trip(a: ClipAction, b: ClipAction)
    ensures
        dec_ok_clip_action(enc_clip_action(a)),
        enc_clip_action(a) == enc_clip_action(b) ==> eq_clip_action(a, b),
{
    reveal_strlit("events");
    reveal_strlit("key_code");
    reveal_strlit("actions");
    assert("actions"@.len() == 7);
    assert("events"@.len() == 6);
    assert("key_code"@.len() == 8);
    assert("events"@ != "key_code"@);
    assert("events"@ != "actions"@);
    assert("key_code"@ != "actions"@);
    crate::hex::lemma_hex_round_trip(a.actions@);
    crate::hex::lemma_hex_round_trip(b.actions@);
    assert(dec_ok_clip_action_fields(obj_members(enc_clip_action(a))));
    if enc_clip_action(a) == enc_clip_action(b) {
        assert(eq_clip_action(a, b));
    }
}

} // verus!
