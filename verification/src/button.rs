//! Button records.
//!
//! The characters a button shows per state, and the actions bound to its
//! transitions.
use vstd::prelude::*;

use crate::value::{DecodeError, Member, Val, Value, bool_field, int_field, members_view, obj_members, push_bool, push_int, push_str, str_at, str_field, take_bool, take_int, take_str};
use crate::hex::{hex_decode, hex_encode, hex_of, is_hex_seq};

verus! {

broadcast use vstd::std_specs::vec::group_vec_axioms, vstd::seq::group_seq_axioms;

/// One character shown in some states of a button.
#[derive(Copy, Clone, Debug, PartialEq, Eq, Hash, Structural)]
pub struct ButtonRecord {
    pub state_up: bool,
    pub state_over: bool,
    pub state_down: bool,
    pub state_hit_test: bool,
    pub character_id: u16,
    pub depth: u16,
}

/// The interchange encoding of a `ButtonRecord`.
pub open spec fn enc_button_record(t: ButtonRecord) -> Val {
    Val::Obj(seq![("state_up"@, Val::Bool(t.state_up)), ("state_over"@, Val::Bool(t.state_over)), ("state_down"@, Val::Bool(t.state_down)), ("state_hit_test"@, Val::Bool(t.state_hit_test)), ("character_id"@, Val::Int(t.character_id as int)), ("depth"@, Val::Int(t.depth as int))])
}

/// Whether `m` is exactly a well-formed `ButtonRecord` field list.
pub open spec fn dec_ok_button_record_fields(m: Seq<(Seq<char>, Val)>) -> bool {
    &&& bool_field(m, 0, "state_up"@)
    &&& bool_field(m, 1, "state_over"@)
    &&& bool_field(m, 2, "state_down"@)
    &&& bool_field(m, 3, "state_hit_test"@)
    &&& int_field(m, 4, "character_id"@, 0, u16::MAX as int)
    &&& int_field(m, 5, "depth"@, 0, u16::MAX as int)
    &&& m.len() == 6
}

/// Whether `v` is a well-formed `ButtonRecord` encoding.
pub open spec fn dec_ok_button_record(v: Val) -> bool {
    v is Obj && dec_ok_button_record_fields(obj_members(v))
}

/// Every element is a well-formed `ButtonRecord` encoding.
pub open spec fn all_dec_ok_button_record(items: Seq<Val>) -> bool {
    forall|k: int| 0 <= k < items.len() ==> dec_ok_button_record(#[trigger] items[k])
}

impl ButtonRecord {
    /// Appends this record's members to `ms`.
    #[verifier::loop_isolation(false)]
    #[verifier::rlimit(100)]
    #[verifier::spinoff_prover]
    pub fn encode_members(&self, ms: &mut Vec<Member>)
        ensures
            members_view(*final(ms)) == members_view(*old(ms)) + obj_members(enc_button_record(*self)),
    {
        push_bool(ms, "state_up", self.state_up);
        push_bool(ms, "state_over", self.state_over);
        push_bool(ms, "state_down", self.state_down);
        push_bool(ms, "state_hit_test", self.state_hit_test);
        push_int(ms, "character_id", self.character_id as i128);
        push_int(ms, "depth", self.depth as i128);
        proof {
            assert(members_view(*ms) =~~= members_view(*old(ms)) + obj_members(enc_button_record(*self)));
        }
    }

    /// Encodes to the interchange form.
    pub fn encode(&self) -> (v: Value)
        ensures
            v@ == enc_button_record(*self),
    {
        let mut ms: Vec<Member> = Vec::new();
        self.encode_members(&mut ms);
        let v = Value::Obj(ms);
        proof {
            assert(members_view(ms) =~= obj_members(enc_button_record(*self)));
            assert(v@ == Val::Obj(members_view(ms)));
        }
        v
    }

    /// Decodes this record's members from `ms`, starting at `start`;
    /// succeeds exactly on a well-formed field list reaching the end.
    #[verifier::loop_isolation(false)]
    #[verifier::rlimit(100)]
    #[verifier::spinoff_prover]
    pub fn decode_members(ms: &Vec<Member>, start: usize) -> (r: Result<Self, DecodeError>)
        requires
            start as int <= members_view(*ms).len(),
        ensures
            r is Ok <==> dec_ok_button_record_fields(members_view(*ms).skip(start as int)),
            r matches Ok(t) ==> members_view(*ms).skip(start as int) == obj_members(enc_button_record(t)),
    {
        let ghost gm = members_view(*ms).skip(start as int);
        proof {
            assert(gm.len() == members_view(*ms).len() - start);
        }
        let mut i: usize = start;
        if ms.len() <= i {
            return Err(DecodeError::BadField);
        }
        let x_state_up: bool = take_bool(ms, i, "state_up")?;
        i = i + 1;
        if ms.len() <= i {
            return Err(DecodeError::BadField);
        }
        let x_state_over: bool = take_bool(ms, i, "state_over")?;
        i = i + 1;
        if ms.len() <= i {
            return Err(DecodeError::BadField);
        }
        let x_state_down: bool = take_bool(ms, i, "state_down")?;
        i = i + 1;
        if ms.len() <= i {
            return Err(DecodeError::BadField);
        }
        let x_state_hit_test: bool = take_bool(ms, i, "state_hit_test")?;
        i = i + 1;
        if ms.len() <= i {
            return Err(DecodeError::BadField);
        }
        let x_character_id: u16 = take_int(ms, i, "character_id", 0, u16::MAX as i128)? as u16;
        i = i + 1;
        if ms.len() <= i {
            return Err(DecodeError::BadField);
        }
        let x_depth: u16 = take_int(ms, i, "depth", 0, u16::MAX as i128)? as u16;
        i = i + 1;
        if i != ms.len() {
            return Err(DecodeError::BadField);
        }
        let t = ButtonRecord { state_up: x_state_up, state_over: x_state_over, state_down: x_state_down, state_hit_test: x_state_hit_test, character_id: x_character_id, depth: x_depth };
        proof {
            assert(members_view(*ms).skip(start as int) =~~= obj_members(enc_button_record(t)));
        }
        Ok(t)
    }

    /// Decodes from the interchange form; succeeds exactly on well-formed
    /// encodings and then returns the encoded value.
    #[verifier::rlimit(100)]
    #[verifier::spinoff_prover]
    pub fn decode(v: &Value) -> (r: Result<Self, DecodeError>)
        ensures
            r is Ok <==> dec_ok_button_record(v@),
            r matches Ok(t) ==> v@ == enc_button_record(t),
    {
        let ms = match v {
            Value::Obj(ms) => ms,
            _ => {
                return Err(DecodeError::ExpectedObject);
            },
        };
        let t = Self::decode_members(ms, 0)?;
        proof {
            assert(members_view(*ms).skip(0) =~= members_view(*ms));
            assert(v@ == Val::Obj(members_view(*ms)));
        }
        Ok(t)
    }
}

/// Field-wise equality of two `ButtonRecord` values (text and payloads by content).
pub open spec fn eq_button_record(a: ButtonRecord, b: ButtonRecord) -> bool {
    &&& a.state_up == b.state_up
    &&& a.state_over == b.state_over
    &&& a.state_down == b.state_down
    &&& a.state_hit_test == b.state_hit_test
    &&& a.character_id == b.character_id
    &&& a.depth == b.depth
}

/// Round trip: every `ButtonRecord` encoding is well-formed and decodes back
/// only to a field-wise equal value.
#[verifier::rlimit(100)]
#[verifier::spinoff_prover]
pub proof fn lemma_button_record_round_trip(a: ButtonRecord, b: ButtonRecord)
    ensures
        dec_ok_button_record(enc_button_record(a)),
        enc_button_record(a) == enc_button_record(b) ==> eq_button_record(a, b),
{
    reveal_strlit("state_up");
    reveal_strlit("state_over");
    reveal_strlit("state_down");
    reveal_strlit("state_hit_test");
    reveal_strlit("character_id");
    reveal_strlit("depth");

    assert(dec_ok_button_record_fields(obj_members(enc_button_record(a))));
    if enc_button_record(a) == enc_button_record(b) {
        assert(eq_button_record(a, b));
    }
}

/// A condition mask and the action bytes to run when it matches.
#[derive(Clone, Debug, PartialEq, Eq)]
pub struct ButtonCondAction {
    pub conditions: u16,
    pub actions: Vec<u8>,
}

/// The interchange encoding of a `ButtonCondAction`.
pub open spec fn enc_button_cond_action(t: ButtonCondAction) -> Val {
    Val::Obj(seq![("conditions"@, Val::Int(t.conditions as int)), ("actions"@, Val::Str(hex_of(t.actions@)))])
}

/// Whether `m` is exactly a well-formed `ButtonCondAction` field list.
pub open spec fn dec_ok_button_cond_action_fields(m: Seq<(Seq<char>, Val)>) -> bool {
    &&& int_field(m, 0, "conditions"@, 0, u16::MAX as int)
    &&& str_field(m, 1, "actions"@) && is_hex_seq(str_at(m, 1))
    &&& m.len() == 2
}

/// Whether `v` is a well-formed `ButtonCondAction` encoding.
pub open spec fn dec_ok_button_cond_action(v: Val) -> bool {
    v is Obj && dec_ok_button_cond_action_fields(obj_members(v))
}

/// Every element is a well-formed `ButtonCondAction` encoding.
pub open spec fn all_dec_ok_button_cond_action(items: Seq<Val>) -> bool {
    forall|k: int| 0 <= k < items.len() ==> dec_ok_button_cond_action(#[trigger] items[k])
}

impl ButtonCondAction {
    /// Appends this record's members to `ms`.
    #[verifier::loop_isolation(false)]
    #[verifier::rlimit(100)]
    #[verifier::spinoff_prover]
    pub fn encode_members(&self, ms: &mut Vec<Member>)
        ensures
            members_view(*final(ms)) == members_view(*old(ms)) + obj_members(enc_button_cond_action(*self)),
    {
        push_int(ms, "conditions", self.conditions as i128);
        let hx_1 = hex_encode(&self.actions);
        push_str(ms, "actions", &hx_1);
        proof {
            assert(members_view(*ms) =~~= members_view(*old(ms)) + obj_members(enc_button_cond_action(*self)));
        }
    }

    /// Encodes to the interchange form.
    pub fn encode(&self) -> (v: Value)
        ensures
            v@ == enc_button_cond_action(*self),
    {
        let mut ms: Vec<Member> = Vec::new();
        self.encode_members(&mut ms);
        let v = Value::Obj(ms);
        proof {
            assert(members_view(ms) =~= obj_members(enc_button_cond_action(*self)));
            assert(v@ == Val::Obj(members_view(ms)));
        }
        v
    }

    /// Decodes this record's members from `ms`, starting at `start`;
    /// succeeds exactly on a well-formed field list reaching the end.
    #[verifier::loop_isolation(false)]
    #[verifier::rlimit(100)]
    #[verifier::spinoff_prover]
    pub fn decode_members(ms: &Vec<Member>, start: usize) -> (r: Result<Self, DecodeError>)
        requires
            start as int <= members_view(*ms).len(),
        ensures
            r is Ok <==> dec_ok_button_cond_action_fields(members_view(*ms).skip(start as int)),
            r matches Ok(t) ==> members_view(*ms).skip(start as int) == obj_members(enc_button_cond_action(t)),
    {
        let ghost gm = members_view(*ms).skip(start as int);
        proof {
            assert(gm.len() == members_view(*ms).len() - start);
        }
        let mut i: usize = start;
        if ms.len() <= i {
            return Err(DecodeError::BadField);
        }
        let x_conditions: u16 = take_int(ms, i, "conditions", 0, u16::MAX as i128)? as u16;
        i = i + 1;
        if ms.len() <= i {
            return Err(DecodeError::BadField);
        }
        let s_1 = take_str(ms, i, "actions")?;
        let x_actions: Vec<u8> = hex_decode(s_1.as_str())?;
        i = i + 1;
        if i != ms.len() {
            return Err(DecodeError::BadField);
        }
        let t = ButtonCondAction { conditions: x_conditions, actions: x_actions };
        proof {
            assert(members_view(*ms).skip(start as int) =~~= obj_members(enc_button_cond_action(t)));
        }
        Ok(t)
    }

    /// Decodes from the interchange form; succeeds exactly on well-formed
    /// encodings and then returns the encoded value.
    #[verifier::rlimit(100)]
    #[verifier::spinoff_prover]
    pub fn decode(v: &Value) -> (r: Result<Self, DecodeError>)
        ensures
            r is Ok <==> dec_ok_button_cond_action(v@),
            r matches Ok(t) ==> v@ == enc_button_cond_action(t),
    {
        let ms = match v {
            Value::Obj(ms) => ms,
            _ => {
                return Err(DecodeError::ExpectedObject);
            },
        };
        let t = Self::decode_members(ms, 0)?;
        proof {
            assert(members_view(*ms).skip(0) =~= members_view(*ms));
            assert(v@ == Val::Obj(members_view(*ms)));
        }
        Ok(t)
    }
}

/// Field-wise equality of two `ButtonCondAction` values (text and payloads by content).
pub open spec fn eq_button_cond_action(a: ButtonCondAction, b: ButtonCondAction) -> bool {
    &&& a.conditions == b.conditions
    &&& a.actions@ == b.actions@
}

/// Round trip: every `ButtonCondAction` encoding is well-formed and decodes back
/// only to a field-wise equal value.
#[verifier::rlimit(100)]
#[verifier::spinoff_prover]
pub proof fn lemma_button_cond_action_round_trip(a: ButtonCondAction, b: ButtonCondAction)
    ensures
        dec_ok_button_cond_action(enc_button_cond_action(a)),
        enc_button_cond_action(a) == enc_button_cond_action(b) ==> eq_button_cond_action(a, b),
{
    reveal_strlit("conditions");
    reveal_strlit("actions");
    crate::hex::lemma_hex_round_trip(a.actions@);
    crate::hex::lemma_hex_round_trip(b.actions@);
    assert(dec_ok_button_cond_action_fields(obj_members(enc_button_cond_action(a))));
    if enc_button_cond_action(a) == enc_button_cond_action(b) {
        assert(eq_button_cond_action(a, b));
    }
}

} // verus!
