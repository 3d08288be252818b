//! Entity identifiers: a 32-bit value made of a per-archetype slot index
//! (low 16 bits) and an archetype identifier (high 16 bits). Zero in either
//! field is illegal; both fields equal to `0xFFFF` is the dead sentinel.

use vstd::prelude::*;

verus! {

/// The sentinel field value: an identifier whose slot and archetype are both
/// `RESERVED` denotes "dead / does not exist".
pub const RESERVED: u16 = 0xFFFF;

#[derive(Clone, Copy, PartialEq, Eq, Structural, Debug)]
pub struct EntityId {
    pub id: u16,
    pub arch: u16,
}

impl EntityId {
    /// Both fields are non-zero; zero is never constructed.
    pub open spec fn wf(self) -> bool {
        self.id != 0 && self.arch != 0
    }

    /// An identifier is valid (non-reserved) when neither field is zero and
    /// neither field is the reserved sentinel.
    pub open spec fn valid(self) -> bool {
        &&& self.id != 0 && self.id != RESERVED
        &&& self.arch != 0 && self.arch != RESERVED
    }

    pub open spec fn spec_id(self) -> u16 {
        self.id
    }

    pub open spec fn spec_arch(self) -> u16 {
        self.arch
    }

    /// The packed 32-bit form: high 16 bits archetype, low 16 bits slot.
    pub open spec fn spec_as_u32(self) -> int {
        self.arch * 0x10000 + self.id
    }

    /// The dead sentinel.
    pub fn dead() -> (r: EntityId)
        ensures
            r.spec_id() == RESERVED,
            r.spec_arch() == RESERVED,
            r.wf(),
    {
        EntityId { id: RESERVED, arch: RESERVED }
    }

    pub fn id(&self) -> (r: u16)
        ensures
            r == self.spec_id(),
    {
        self.id
    }

    pub fn idx(&self) -> (r: usize)
        ensures
            r == self.spec_id() as usize,
    {
        self.id as usize
    }

    pub fn arch(&self) -> (r: u16)
        ensures
            r == self.spec_arch(),
    {
        self.arch
    }

    pub fn archx(&self) -> (r: usize)
        ensures
            r == self.spec_arch() as usize,
    {
        self.arch as usize
    }

    /// Bit-exact packing of the two 16-bit fields into one 32-bit value.
    pub fn as_u32(&self) -> (r: u32)
        ensures
            r == self.spec_as_u32(),
    {
        proof {
            lemma_u16_pack(self.arch, self.id);
        }
        ((self.arch as u32) << 16u32) | (self.id as u32)
    }

    /// Bit-exact unpacking of a 32-bit value into the two 16-bit fields.
    /// Both halves must be non-zero, since zero fields are never constructed.
    pub fn from_u32(raw_entity: u32) -> (r: EntityId)
        requires
            raw_entity % 0x10000 != 0,
            raw_entity / 0x10000 != 0,
        ensures
            r == spec_from_u32(raw_entity as int),
            r.wf(),
            r.spec_as_u32() == raw_entity,
    {
        let id: u16 = (raw_entity & 0xFFFF) as u16;
        let arch: u16 = (raw_entity >> 16u32) as u16;
        proof {
            lemma_u32_split(raw_entity);
        }
        EntityId { id, arch }
    }
}

/// A provisional identifier not yet assigned to an archetype: the slot is
/// caller-chosen and the archetype is the reserved sentinel.
pub fn invalid_new(raw_id: u16) -> (r: EntityId)
    requires
        raw_id != 0,
    ensures
        r.spec_id() == raw_id,
        r.spec_arch() == RESERVED,
        r.wf(),
{
    EntityId { id: raw_id, arch: RESERVED }
}

/// An identifier that belongs to a known archetype: both fields must be
/// non-zero and non-reserved.
pub fn new(raw_id: u16, raw_arch: u16) -> (r: EntityId)
    requires
        raw_id != 0 && raw_id != RESERVED,
        raw_arch != 0 && raw_arch != RESERVED,
    ensures
        r.spec_id() == raw_id,
        r.spec_arch() == raw_arch,
        r.valid(),
{
    EntityId { id: raw_id, arch: raw_arch }
}

proof fn lemma_u32_split(raw: u32)
    by (bit_vector)
    ensures
        (raw & 0xFFFF) as u16 == raw % 0x10000,
        (raw >> 16u32) as u16 == raw / 0x10000,
        (raw / 0x10000) * 0x10000 + (raw % 0x10000) == raw,
{
}

proof fn lemma_u16_pack(arch: u16, id: u16)
    by (bit_vector)
    ensures
        ((arch as u32) << 16u32) | (id as u32) == (arch as u32) * 0x10000 + (id as u32),
        ((arch as u32) * 0x10000 + (id as u32)) % 0x10000 == id,
        ((arch as u32) * 0x10000 + (id as u32)) / 0x10000 == arch,
{
}

/// What unpacking a 32-bit value yields: low 16 bits the slot, high 16
/// bits the archetype.
pub open spec fn spec_from_u32(raw: int) -> EntityId {
    EntityId { id: (raw % 0x10000) as u16, arch: (raw / 0x10000) as u16 }
}

/// Round trip: unpacking the packed form of any well-formed identifier
/// yields that identifier again, and the packed form stays unpackable
/// (neither half is zero).
pub proof fn lemma_entity_id_round_trip(x: EntityId)
    requires
        x.wf(),
    ensures
        spec_from_u32(x.spec_as_u32()) == x,
        x.spec_as_u32() % 0x10000 != 0,
        x.spec_as_u32() / 0x10000 != 0,
{
    lemma_u16_pack(x.spec_arch(), x.spec_id());
}

} // verus!
