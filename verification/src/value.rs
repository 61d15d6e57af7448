//! The textual interchange value tree.
//!
//! A record encodes to a `Value`: an ordered object whose members pair a
//! field name with a nested value. Integers of every record field fit in
//! `i128`, binary payloads appear as hex text (`Value::Str`), and arrays
//! keep their element order. The ghost mirror `Val` is the view used by
//! every codec contract.

use vstd::prelude::*;

verus! {

broadcast use vstd::std_specs::vec::group_vec_axioms, vstd::seq::group_seq_axioms;

/// Ghost mirror of `Value`: the mathematical shape of an interchange tree.
#[verifier::ext_equal]
pub ghost enum Val {
    Int(int),
    Str(Seq<char>),
    Bool(bool),
    Arr(Seq<Val>),
    Obj(Seq<(Seq<char>, Val)>),
}

/// One member of an interchange object: a field name and its value.
pub struct Member {
    pub key: String,
    pub value: Value,
}

/// A textual interchange value: integer, text, boolean, array or object.
pub enum Value {
    Int(i128),
    Str(String),
    Bool(bool),
    Arr(Vec<Value>),
    Obj(Vec<Member>),
}

/// The view of a `Value`, defined by structural recursion.
pub open spec fn val_view(v: Value) -> Val
    decreases v,
{
    match v {
        Value::Int(i) => Val::Int(i as int),
        Value::Str(s) => Val::Str(s@),
        Value::Bool(b) => Val::Bool(b),
        Value::Arr(items) => Val::Arr(elems_view(items)),
        Value::Obj(members) => Val::Obj(members_view(members)),
    }
}

/// The views of an array's elements, in order.
pub open spec fn elems_view(items: Vec<Value>) -> Seq<Val>
    decreases items,
{
    Seq::new(
        items.len() as nat,
        |i: int|
            if 0 <= i < items.len() {
                val_view(items[i])
            } else {
                Val::Bool(false)
            },
    )
}

/// The views of an object's members, in order.
pub open spec fn members_view(members: Vec<Member>) -> Seq<(Seq<char>, Val)>
    decreases members,
{
    Seq::new(
        members.len() as nat,
        |i: int|
            if 0 <= i < members.len() {
                (members[i].key@, val_view(members[i].value))
            } else {
                (Seq::empty(), Val::Bool(false))
            },
    )
}

impl View for Value {
    type V = Val;

    open spec fn view(&self) -> Val {
        val_view(*self)
    }
}

impl View for Member {
    type V = (Seq<char>, Val);

    open spec fn view(&self) -> (Seq<char>, Val) {
        (self.key@, val_view(self.value))
    }
}

/// The members of an interchange object, as the view sees them.
pub open spec fn obj_members(v: Val) -> Seq<(Seq<char>, Val)> {
    match v {
        Val::Obj(m) => m,
        _ => Seq::empty(),
    }
}

/// The elements of an interchange array, as the view sees them.
pub open spec fn arr_items(v: Val) -> Seq<Val> {
    match v {
        Val::Arr(items) => items,
        _ => Seq::empty(),
    }
}

/// Why a value could not be decoded back into a record.
#[derive(Clone, Copy, Debug, PartialEq, Eq, Structural)]
pub enum DecodeError {
    /// The value is not an object of the expected shape.
    ExpectedObject,
    /// A member is missing, misnamed, or of the wrong kind.
    BadField,
    /// An integer member does not fit the field's range.
    OutOfRange,
    /// A binary payload's hex text has an odd length or a bad digit.
    InvalidHex,
    /// A textual discriminant is not in the closed variant set.
    UnknownVariant,
}

/// Member `i` is named `name` and holds an integer in `[lo, hi]`.
pub open spec fn int_field(
    m: Seq<(Seq<char>, Val)>,
    i: int,
    name: Seq<char>,
    lo: int,
    hi: int,
) -> bool {
    m[i].0 == name && (m[i].1 matches Val::Int(x) && lo <= x <= hi)
}

/// The integer held by member `i`.
pub open spec fn int_at(m: Seq<(Seq<char>, Val)>, i: int) -> int {
    match m[i].1 {
        Val::Int(x) => x,
        _ => 0,
    }
}

/// Member `i` is named `name` and holds a boolean.
pub open spec fn bool_field(m: Seq<(Seq<char>, Val)>, i: int, name: Seq<char>) -> bool {
    m[i].0 == name && m[i].1 is Bool
}

/// The boolean held by member `i`.
pub open spec fn bool_at(m: Seq<(Seq<char>, Val)>, i: int) -> bool {
    match m[i].1 {
        Val::Bool(b) => b,
        _ => false,
    }
}

/// Member `i` is named `name` and holds text.
pub open spec fn str_field(m: Seq<(Seq<char>, Val)>, i: int, name: Seq<char>) -> bool {
    m[i].0 == name && m[i].1 is Str
}

/// The text held by member `i`.
pub open spec fn str_at(m: Seq<(Seq<char>, Val)>, i: int) -> Seq<char> {
    match m[i].1 {
        Val::Str(s) => s,
        _ => Seq::empty(),
    }
}

/// The member list of one optional field: a single named member when the
/// field is present, nothing when it is absent.
pub open spec fn maybe(name: Seq<char>, o: Option<Val>) -> Seq<(Seq<char>, Val)> {
    match o {
        Option::Some(v) => seq![(name, v)],
        Option::None => Seq::empty(),
    }
}

/// Every element is an integer in `[lo, hi]`.
pub open spec fn all_ints(items: Seq<Val>, lo: int, hi: int) -> bool {
    forall|k: int|
        0 <= k < items.len() ==> (#[trigger] items[k] matches Val::Int(x) && lo <= x <= hi)
}

/// Whether `s` reads as `lit`.
pub fn str_is(s: &String, lit: &str) -> (r: bool)
    ensures
        r == (s@ == lit@),
{
    *s == lit.to_owned()
}

/// Reads member `i` as an integer named `name` within `[lo, hi]`.
pub fn take_int(ms: &Vec<Member>, i: usize, name: &str, lo: i128, hi: i128) -> (r: Result<
    i128,
    DecodeError,
>)
    requires
        i < ms@.len(),
    ensures
        r matches Ok(x) ==> int_field(members_view(*ms), i as int, name@, lo as int, hi as int)
            && x == int_at(members_view(*ms), i as int) && lo <= x <= hi,
        r is Err ==> !int_field(members_view(*ms), i as int, name@, lo as int, hi as int),
{
    if !(ms[i].key == name.to_owned()) {
        return Err(DecodeError::BadField);
    }
    match &ms[i].value {
        Value::Int(x) => {
            if lo <= *x && *x <= hi {
                Ok(*x)
            } else {
                Err(DecodeError::OutOfRange)
            }
        },
        _ => Err(DecodeError::BadField),
    }
}

/// Reads member `i` as a boolean named `name`.
pub fn take_bool(ms: &Vec<Member>, i: usize, name: &str) -> (r: Result<bool, DecodeError>)
    requires
        i < ms@.len(),
    ensures
        r matches Ok(b) ==> bool_field(members_view(*ms), i as int, name@) && b == bool_at(
            members_view(*ms),
            i as int,
        ),
        r is Err ==> !bool_field(members_view(*ms), i as int, name@),
{
    if !(ms[i].key == name.to_owned()) {
        return Err(DecodeError::BadField);
    }
    match &ms[i].value {
        Value::Bool(b) => Ok(*b),
        _ => Err(DecodeError::BadField),
    }
}

/// Reads member `i` as text named `name`.
pub fn take_str(ms: &Vec<Member>, i: usize, name: &str) -> (r: Result<String, DecodeError>)
    requires
        i < ms@.len(),
    ensures
        r matches Ok(s) ==> str_field(members_view(*ms), i as int, name@) && s@ == str_at(
            members_view(*ms),
            i as int,
        ),
        r is Err ==> !str_field(members_view(*ms), i as int, name@),
{
    if !(ms[i].key == name.to_owned()) {
        return Err(DecodeError::BadField);
    }
    match &ms[i].value {
        Value::Str(s) => Ok(s.clone()),
        _ => Err(DecodeError::BadField),
    }
}

/// Whether member `i` is named `name`.
pub fn key_is(ms: &Vec<Member>, i: usize, name: &str) -> (r: bool)
    requires
        i < ms@.len(),
    ensures
        r == (members_view(*ms)[i as int].0 == name@),
{
    ms[i].key == name.to_owned()
}

/// Appends an integer member.
pub fn push_int(ms: &mut Vec<Member>, name: &str, x: i128)
    ensures
        members_view(*final(ms)) == members_view(*old(ms)).push((name@, Val::Int(x as int))),
{
    ms.push(Member { key: name.to_owned(), value: Value::Int(x) });
    proof {
        assert(members_view(*ms) =~= members_view(*old(ms)).push((name@, Val::Int(x as int))));
    }
}

/// Appends a boolean member.
pub fn push_bool(ms: &mut Vec<Member>, name: &str, b: bool)
    ensures
        members_view(*final(ms)) == members_view(*old(ms)).push((name@, Val::Bool(b))),
{
    ms.push(Member { key: name.to_owned(), value: Value::Bool(b) });
    proof {
        assert(members_view(*ms) =~= members_view(*old(ms)).push((name@, Val::Bool(b))));
    }
}

/// Appends a text member.
pub fn push_str(ms: &mut Vec<Member>, name: &str, s: &String)
    ensures
        members_view(*final(ms)) == members_view(*old(ms)).push((name@, Val::Str(s@))),
{
    ms.push(Member { key: name.to_owned(), value: Value::Str(s.clone()) });
    proof {
        assert(members_view(*ms) =~= members_view(*old(ms)).push((name@, Val::Str(s@))));
    }
}

/// Appends a member holding literal text.
pub fn push_lit(ms: &mut Vec<Member>, name: &str, lit: &str)
    ensures
        members_view(*final(ms)) == members_view(*old(ms)).push((name@, Val::Str(lit@))),
{
    ms.push(Member { key: name.to_owned(), value: Value::Str(lit.to_owned()) });
    proof {
        assert(members_view(*ms) =~= members_view(*old(ms)).push((name@, Val::Str(lit@))));
    }
}

/// Appends an already-encoded member.
pub fn push_value(ms: &mut Vec<Member>, name: &str, v: Value)
    ensures
        members_view(*final(ms)) == members_view(*old(ms)).push((name@, v@)),
{
    ms.push(Member { key: name.to_owned(), value: v });
    proof {
        assert(members_view(*ms) =~= members_view(*old(ms)).push((name@, v@)));
    }
}

} // verus!
