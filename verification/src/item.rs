//! Item headers: each named slot in an object's body starts with a 32-bit
//! header holding a 3-bit type tag and a 29-bit item id.

use vstd::prelude::*;

verus! {

/// Arena offset of an item header.
#[derive(Clone, Copy, Debug, PartialEq, Eq, Structural)]
pub struct ItemPtr(pub u32);

/// A 29-bit item name. Id 0 is a sentinel and is never stored as a real item.
#[derive(Clone, Copy, Debug, PartialEq, Eq, Structural)]
pub struct ItemId(pub u32);

/// The type of an item's payload.
#[derive(Clone, Copy, Debug, PartialEq, Eq, Structural)]
pub enum Type {
    BuiltinCode,
    Code,
    I32,
    Object,
}

/// The 3-bit tag that encodes each item type.
pub open spec fn type_code(t: Type) -> u32 {
    match t {
        Type::BuiltinCode => 0,
        Type::Code => 1,
        Type::I32 => 2,
        Type::Object => 3,
    }
}

/// The item type a tag below 4 decodes to.
pub open spec fn type_of(c: u32) -> Type {
    if c == 0 {
        Type::BuiltinCode
    } else if c == 1 {
        Type::Code
    } else if c == 2 {
        Type::I32
    } else {
        Type::Object
    }
}

/// The type tag of an item header word.
pub open spec fn header_ty(h: u32) -> u32 {
    h >> 29
}

/// The item id of an item header word.
pub open spec fn header_id(h: u32) -> u32 {
    h & 0x1FFF_FFFF
}

/// The header word for an item of type `t` named `id`.
pub open spec fn item_header_word(t: Type, id: ItemId) -> u32 {
    (type_code(t) << 29) | id.0
}

/// Split an item header word into its type and id. The tag must be a real
/// type tag, i.e. below 4; the arena invariants only ever store such tags.
pub fn item_header_from_u32(h: u32) -> (r: (Type, ItemId))
    requires
        header_ty(h) < 4,
    ensures
        r.0 == type_of(header_ty(h)),
        r.1 == ItemId(header_id(h)),
{
    let ty = h >> 29;
    let id = h & 0x1FFF_FFFF;
    let t = if ty == 0 {
        Type::BuiltinCode
    } else if ty == 1 {
        Type::Code
    } else if ty == 2 {
        Type::I32
    } else {
        Type::Object
    };
    (t, ItemId(id))
}

/// Assemble an item header word. No validation: callers must not pass id 0
/// for a real item, and an id of 29 bits or more would bleed into the tag.
pub fn item_header_to_u32(ty: Type, id: ItemId) -> (r: u32)
    ensures
        r == item_header_word(ty, id),
{
    let t: u32 = match ty {
        Type::BuiltinCode => 0,
        Type::Code => 1,
        Type::I32 => 2,
        Type::Object => 3,
    };
    (t << 29) | id.0
}

/// Law: an item header round-trips for every id that fits its 29 bits.
pub proof fn lemma_item_header_round_trip(ty: Type, id: ItemId)
    requires
        id.0 & 0xE000_0000 == 0,
    ensures
        type_of(header_ty(item_header_word(ty, id))) == ty,
        header_id(item_header_word(ty, id)) == id.0,
{
    crate::insn::lemma_split_code(type_code(ty), id.0);
}

} // verus!
