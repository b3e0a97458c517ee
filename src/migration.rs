use vstd::prelude::*;

verus! {

/// What a worker's migration slot asks it to do.
#[derive(Copy, Clone, Debug, PartialEq, Eq, Structural)]
pub enum Mode {
    Idle,
    Push,
    Pull,
}

/// Largest worker index a migration slot can hold.
pub const MAX_TARGET: usize = 0xFFFF_FFFF;
/// Largest balance threshold a migration slot can hold.
pub const MAX_BALANCE: usize = 0x3FFF_FFFF;

/// A migration order: move actors to or from `target` while the source's
/// run queue is longer than `balance` and the target's is shorter.
#[derive(Copy, Clone, Debug, PartialEq, Eq, Structural)]
pub struct Parameters {
    pub target: usize,
    pub mode: Mode,
    pub balance: usize,
}

impl Parameters {
    /// The order to do nothing.
    pub fn none() -> (r: Parameters)
        ensures
            r == (Parameters { target: 0, mode: Mode::Idle, balance: 0 }),
    {
        Parameters { target: 0, mode: Mode::Idle, balance: 0 }
    }

    /// Whether the fields fit the packed slot.
    pub open spec fn fits(self) -> bool {
        self.target <= MAX_TARGET && self.balance <= MAX_BALANCE
    }
}

pub open spec fn mode_bits(m: Mode) -> u64 {
    match m {
        Mode::Idle => 0,
        Mode::Push => 1,
        Mode::Pull => 2,
    }
}

pub open spec fn pack_spec(target: u64, mode: u64, balance: u64) -> u64 {
    (target & 0xFFFF_FFFF) | ((mode & 3) << 32) | ((balance & 0x3FFF_FFFF) << 34)
}

pub open spec fn mode_of_word(w: u64) -> u64 {
    (w >> 32) & 3
}

/// The fields of a packed slot, read back.
pub open spec fn unpack_spec(w: u64) -> Parameters {
    Parameters {
        target: (w & 0xFFFF_FFFF) as usize,
        mode: if mode_of_word(w) == 1 { Mode::Push } else if mode_of_word(w) == 2 { Mode::Pull } else { Mode::Idle },
        balance: ((w >> 34) & 0x3FFF_FFFF) as usize,
    }
}

/// Packing then reading back gives the fields that were packed.
pub proof fn lemma_pack_unpack(target: u64, mode: u64, balance: u64)
    requires
        target <= 0xFFFF_FFFF,
        mode <= 2,
        balance <= 0x3FFF_FFFF,
    ensures
        pack_spec(target, mode, balance) & 0xFFFF_FFFF == target,
        (pack_spec(target, mode, balance) >> 32) & 3 == mode,
        (pack_spec(target, mode, balance) >> 34) & 0x3FFF_FFFF == balance,
{
    assert(((target & 0xFFFF_FFFF) | ((mode & 3) << 32) | ((balance & 0x3FFF_FFFF) << 34)) & 0xFFFF_FFFF == target) by (bit_vector)
        requires target <= 0xFFFF_FFFF;
    assert((((target & 0xFFFF_FFFF) | ((mode & 3) << 32) | ((balance & 0x3FFF_FFFF) << 34)) >> 32) & 3 == mode) by (bit_vector)
        requires mode <= 2;
    assert((((target & 0xFFFF_FFFF) | ((mode & 3) << 32) | ((balance & 0x3FFF_FFFF) << 34)) >> 34) & 0x3FFF_FFFF == balance) by (bit_vector)
        requires balance <= 0x3FFF_FFFF;
}

fn pack(target: usize, mode: Mode, balance: usize) -> (r: u64)
    requires
        target <= MAX_TARGET,
        balance <= MAX_BALANCE,
    ensures
        r == pack_spec(target as u64, mode_bits(mode), balance as u64),
        unpack_spec(r) == (Parameters { target, mode, balance }),
{
    let mode_word: u64 = match mode {
        Mode::Idle => 0,
        Mode::Push => 1,
        Mode::Pull => 2,
    };
    let t = target as u64;
    let b = balance as u64;
    proof { lemma_pack_unpack(t, mode_word, b); }
    (t & 0xFFFF_FFFF) | ((mode_word & 3) << 32) | ((b & 0x3FFF_FFFF) << 34)
}

fn unpack(word: u64) -> (r: Parameters)
    ensures
        r == unpack_spec(word),
{
    let target = word & 0xFFFF_FFFF;
    let bits = (word >> 32) & 3;
    let mode = if bits == 1 { Mode::Push } else if bits == 2 { Mode::Pull } else { Mode::Idle };
    let balance = (word >> 34) & 0x3FFF_FFFF;
    Parameters { target: target as usize, mode, balance: balance as usize }
}

/// A worker's migration slot: one 64-bit word holding a target worker
/// (32 bits), a mode (2 bits) and a balance threshold (30 bits).
pub struct Migration {
    packed: u64,
}

impl Migration {
    /// The order the slot holds.
    pub closed spec fn view(&self) -> Parameters {
        unpack_spec(self.packed)
    }

    pub fn new() -> (r: Self)
        ensures
            r@ == (Parameters { target: 0, mode: Mode::Idle, balance: 0 }),
    {
        let r = Migration { packed: 0 };
        assert(0u64 & 0xFFFF_FFFF == 0 && (0u64 >> 32) & 3 == 0 && (0u64 >> 34) & 0x3FFF_FFFF == 0) by (bit_vector);
        r
    }

    pub fn store(&mut self, parameters: Parameters)
        requires
            parameters.fits(),
        ensures
            final(self)@ == parameters,
    {
        self.packed = pack(parameters.target, parameters.mode, parameters.balance);
    }

    pub fn load(&self) -> (r: Parameters)
        ensures
            r == self@,
    {
        unpack(self.packed)
    }

    /// Reads the order for its owner: a `Push` order is handed out once and
    /// the slot falls back to `None`; other orders stay.
    pub fn load_for_push(&mut self) -> (r: Parameters)
        ensures
            r == old(self)@,
            old(self)@.mode == Mode::Push ==> final(self)@ == (Parameters { mode: Mode::Idle, ..old(self)@ }),
            old(self)@.mode != Mode::Push ==> final(self)@ == old(self)@,
    {
        let p = unpack(self.packed);
        match p.mode {
            Mode::Push => {
                proof {
                    let w = self.packed;
                    assert(w & 0xFFFF_FFFF <= 0xFFFF_FFFF) by (bit_vector);
                    assert((w >> 34) & 0x3FFF_FFFF <= 0x3FFF_FFFF) by (bit_vector);
                }
                self.packed = pack(p.target, Mode::Idle, p.balance);
            },
            _ => {},
        }
        p
    }
}

} // verus!
