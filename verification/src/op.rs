//! A packed word recording which operation was last announced on a slot and
//! two 12-bit version counters that tell whether it has completed: the low
//! byte holds the operation, bits 8..20 the current version, bits 20..32 the
//! newest announced version.

use vstd::prelude::*;
use vstd::arithmetic::div_mod::{lemma_fundamental_div_mod, lemma_fundamental_div_mod_converse};

verus! {

/// An operation a caller can announce on a slot.
#[derive(Debug, Clone, Copy, PartialEq, Eq, Structural)]
pub enum Op {
    Idle,
    Write,
    Take,
    Replace,
    Update,
    Remove,
}

impl Op {
    /// The numeric code the packed word stores for this operation.
    pub open spec fn code(self) -> u8 {
        match self {
            Op::Idle => 0,
            Op::Write => 1,
            Op::Take => 2,
            Op::Replace => 3,
            Op::Update => 4,
            Op::Remove => 5,
        }
    }

    /// The operation a numeric code decodes to; an unassigned code (`Update`
    /// is never decoded) falls back to `Idle`.
    pub open spec fn decode(code: u8) -> Op {
        if code == 0 {
            Op::Idle
        } else if code == 1 {
            Op::Write
        } else if code == 2 {
            Op::Take
        } else if code == 3 {
            Op::Replace
        } else if code == 5 {
            Op::Remove
        } else {
            Op::Idle
        }
    }
}

impl core::convert::From<u8> for Op {
    fn from(s: u8) -> (r: Op) {
        if s == 0 {
            Op::Idle
        } else if s == 1 {
            Op::Write
        } else if s == 2 {
            Op::Take
        } else if s == 3 {
            Op::Replace
        } else if s == 5 {
            Op::Remove
        } else {
            Op::Idle
        }
    }
}

impl vstd::std_specs::convert::FromSpecImpl<u8> for Op {
    open spec fn obeys_from_spec() -> bool {
        true
    }

    open spec fn from_spec(code: u8) -> Op {
        Op::decode(code)
    }
}

impl core::convert::From<Op> for u8 {
    fn from(s: Op) -> (r: u8) {
        match s {
            Op::Idle => 0,
            Op::Write => 1,
            Op::Take => 2,
            Op::Replace => 3,
            Op::Update => 4,
            Op::Remove => 5,
        }
    }
}

impl vstd::std_specs::convert::FromSpecImpl<Op> for u8 {
    open spec fn obeys_from_spec() -> bool {
        true
    }

    open spec fn from_spec(s: Op) -> u8 {
        s.code()
    }
}

/// The packed operation word.
#[derive(Debug, Clone, Copy, PartialEq, Eq, Structural)]
pub struct MemoryOp(u32);

impl MemoryOp {
    /// The raw packed word.
    pub closed spec fn raw(&self) -> u32 {
        self.0
    }

    /// The word whose raw value is `s`; see [`lemma_op_from_raw`].
    pub closed spec fn from_raw(s: u32) -> MemoryOp {
        MemoryOp(s)
    }

    /// The operation held in the low byte.
    pub open spec fn op_spec(&self) -> Op {
        Op::decode((self.raw() % 0x100) as u8)
    }

    /// The version the slot has completed, bits 8..20.
    pub open spec fn cur_version_spec(&self) -> u16 {
        ((self.raw() / 0x100) % 0x1000) as u16
    }

    /// The newest version that was announced, bits 20..32.
    pub open spec fn next_version_spec(&self) -> u16 {
        (self.raw() / 0x0010_0000) as u16
    }

    /// True when no announced operation is outstanding.
    pub open spec fn is_finished_spec(&self) -> bool {
        self.cur_version_spec() == self.next_version_spec()
    }

    /// A fresh word: no operation, both versions zero.
    pub fn new() -> (r: MemoryOp)
        ensures
            r.raw() == 0,
    {
        Self(0)
    }

    pub fn op(&self) -> (r: Op)
        ensures
            r == self.op_spec(),
    {
        Op::from((self.0 % 0x100) as u8)
    }

    pub fn cur_version(&self) -> (r: u16)
        ensures
            r == self.cur_version_spec(),
    {
        ((self.0 / 0x100) % 0x1000) as u16
    }

    pub fn next_version(&mut self) -> (r: u16)
        ensures
            *final(self) == *old(self),
            r == old(self).next_version_spec(),
    {
        (self.0 / 0x0010_0000) as u16
    }

    /// Marks the announced operation complete: the current version catches
    /// up with the announced one and the operation byte is cleared.
    pub fn finish(&mut self)
        ensures
            final(self).op_spec() == Op::Idle,
            final(self).cur_version_spec() == old(self).next_version_spec(),
            final(self).next_version_spec() == old(self).next_version_spec(),
    {
        proof {
            lemma_finish_fields(self.0);
        }
        self.0 = (self.0 / 0x0010_0000) * 0x0010_0000 + (self.0 / 0x0010_0000) * 0x100;
    }

    pub fn is_finished(&mut self) -> (r: bool)
        ensures
            *final(self) == *old(self),
            r == old(self).is_finished_spec(),
    {
        self.cur_version() == (self.0 / 0x0010_0000) as u16
    }

    /// Announces `op`: stores its code, bumps the announced version by one
    /// (wrapping), keeps the current version, and returns the announced
    /// version. Reading the operation back goes through `decode`, so the
    /// unassigned `Update` code comes back as `Idle`.
    pub fn set_op(&mut self, op: Op) -> (r: u16)
        ensures
            final(self).op_spec() == Op::decode(op.code()),
            final(self).cur_version_spec() == old(self).cur_version_spec(),
            final(self).next_version_spec() == (old(self).next_version_spec() + 1) % 0x1000,
            r == final(self).next_version_spec(),
    {
        let code = u8::from(op);
        let bumped = self.0.wrapping_add(0x0010_0000);
        proof {
            lemma_set_op_fields(old(self).raw(), bumped, code as u32);
            lemma_op_code_round_trip();
        }
        self.0 = (bumped / 0x100) * 0x100 + (code as u32);
        self.next_version()
    }
}

impl core::convert::From<u32> for MemoryOp {
    fn from(s: u32) -> (r: MemoryOp) {
        Self(s)
    }
}

impl vstd::std_specs::convert::FromSpecImpl<u32> for MemoryOp {
    open spec fn obeys_from_spec() -> bool {
        true
    }

    open spec fn from_spec(s: u32) -> MemoryOp {
        MemoryOp::from_raw(s)
    }
}

impl core::convert::From<MemoryOp> for u32 {
    fn from(s: MemoryOp) -> (r: u32) {
        s.0
    }
}

impl vstd::std_specs::convert::FromSpecImpl<MemoryOp> for u32 {
    open spec fn obeys_from_spec() -> bool {
        true
    }

    open spec fn from_spec(s: MemoryOp) -> u32 {
        s.raw()
    }
}

/// Packing a raw value and reading it back are inverse to each other.
pub proof fn lemma_op_from_raw()
    ensures
        forall|s: u32| (#[trigger] MemoryOp::from_raw(s)).raw() == s,
        forall|w: MemoryOp| MemoryOp::from_raw(#[trigger] w.raw()) == w,
{
}

/// Encoding and decoding an operation are inverse to each other, except that
/// the unassigned `Update` code decodes to `Idle`.
pub proof fn lemma_op_code_round_trip()
    ensures
        forall|o: Op| o != Op::Update ==> Op::decode(o.code()) == o,
        Op::decode(Op::Update.code()) == Op::Idle,
{
}

proof fn lemma_finish_fields(raw: u32)
    ensures
        ((raw / 0x0010_0000) * 0x0010_0000 + (raw / 0x0010_0000) * 0x100) % 0x100 == 0,
        (((raw / 0x0010_0000) * 0x0010_0000 + (raw / 0x0010_0000) * 0x100) / 0x100) % 0x1000 == raw
            / 0x0010_0000,
        ((raw / 0x0010_0000) * 0x0010_0000 + (raw / 0x0010_0000) * 0x100) / 0x0010_0000 == raw
            / 0x0010_0000,
        (raw / 0x0010_0000) * 0x0010_0000 <= u32::MAX,
        (raw / 0x0010_0000) * 0x0010_0000 + (raw / 0x0010_0000) * 0x100 <= u32::MAX,
{
    let n = (raw / 0x0010_0000) as int;
    lemma_fundamental_div_mod(raw as int, 0x0010_0000);
    assert(n < 0x1000);
    let x = n * 0x0010_0000 + n * 0x100;
    lemma_fundamental_div_mod_converse(x, 0x100, n * 0x1000 + n, 0);
    lemma_fundamental_div_mod_converse(n * 0x1000 + n, 0x1000, n, n);
    lemma_fundamental_div_mod_converse(x, 0x0010_0000, n, n * 0x100);
}

proof fn lemma_set_op_fields(raw: u32, bumped: u32, code: u32)
    requires
        code < 0x100,
        raw < 0xFFF0_0000 ==> bumped == raw + 0x0010_0000,
        raw >= 0xFFF0_0000 ==> bumped == raw - 0xFFF0_0000,
    ensures
        ((bumped / 0x100) * 0x100 + code) % 0x100 == code,
        (((bumped / 0x100) * 0x100 + code) / 0x100) % 0x1000 == (raw / 0x100) % 0x1000,
        ((bumped / 0x100) * 0x100 + code) / 0x0010_0000 == (raw / 0x0010_0000 + 1) % 0x1000,
        (bumped / 0x100) * 0x100 <= u32::MAX,
        (bumped / 0x100) * 0x100 + code <= u32::MAX,
{
    let n = (raw / 0x0010_0000) as int;
    let rest = (raw % 0x0010_0000) as int;
    lemma_fundamental_div_mod(raw as int, 0x0010_0000);
    assert(n < 0x1000);
    let m = if n == 0xFFF { 0int } else { n + 1 };
    lemma_fundamental_div_mod_converse(n + 1, 0x1000, if n == 0xFFF { 1int } else { 0int }, m);
    assert(m == (n + 1) % 0x1000);
    assert(bumped == m * 0x0010_0000 + rest);
    let restq = rest / 0x100;
    let restr = rest % 0x100;
    lemma_fundamental_div_mod(rest, 0x100);
    assert(restq < 0x1000);
    lemma_fundamental_div_mod_converse(
        bumped as int,
        0x100,
        m * 0x1000 + restq,
        restr,
    );
    let packed = (bumped / 0x100) * 0x100 + code;
    assert(packed == (m * 0x1000 + restq) * 0x100 + code);
    lemma_fundamental_div_mod_converse(packed as int, 0x100, m * 0x1000 + restq, code as int);
    lemma_fundamental_div_mod_converse(m * 0x1000 + restq, 0x1000, m, restq);
    lemma_fundamental_div_mod_converse(packed as int, 0x0010_0000, m, restq * 0x100 + code);
    lemma_fundamental_div_mod_converse(raw as int, 0x100, n * 0x1000 + restq, restr);
    lemma_fundamental_div_mod_converse(n * 0x1000 + restq, 0x1000, n, restq);
}

} // verus!
