use vstd::prelude::*;

verus! {

/// A xorshift generator: a 64-bit state that is the whole of its stream, so a
/// saved state resumes the same sequence.
#[derive(Clone, Copy, Debug, PartialEq, Eq, Structural)]
pub struct XorShiftRng {
    pub state: u64,
}

/// State used in place of a zero seed, which xorshift cannot leave.
pub const NONZERO_SEED: u64 = 0x9E37_79B9_7F4A_7C15;

/// The state after one draw.
pub open spec fn next_state(s: u64) -> u64 {
    let a = s ^ ((s << 13u64) & 0xffff_ffff_ffff_ffffu64);
    let b = a ^ (a >> 7u64);
    b ^ ((b << 17u64) & 0xffff_ffff_ffff_ffffu64)
}

impl XorShiftRng {
    pub fn seed_from_u64(seed: u64) -> (r: XorShiftRng)
        ensures
            r.state == (if seed == 0 {
                NONZERO_SEED
            } else {
                seed
            }),
    {
        XorShiftRng { state: if seed == 0 { NONZERO_SEED } else { seed } }
    }

    /// Advances the state and returns it.
    pub fn next_u64(&mut self) -> (r: u64)
        ensures
            final(self).state == next_state(old(self).state),
            r == final(self).state,
    {
        let s = self.state;
        let a = s ^ ((s << 13u64) & 0xffff_ffff_ffff_ffffu64);
        let b = a ^ (a >> 7u64);
        let c = b ^ ((b << 17u64) & 0xffff_ffff_ffff_ffffu64);
        self.state = c;
        c
    }
}

} // verus!
