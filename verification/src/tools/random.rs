//! Fresh secrets from the operating system's generator.

use vstd::prelude::*;
use vstd::bytes::{spec_u64_from_le_bytes, u64_from_le_bytes};
use rand_core::{OsRng, RngCore};
use crate::sessions::error::LocalError;

verus! {

/// Makes `rand_core::OsRng`, the generator of the operating system, known
/// as an opaque type. Nothing is claimed about it.
#[verifier::external_type_specification]
#[verifier::external_body]
pub struct ExOsRng(rand_core::OsRng);

/// The number of bytes drawn for one scalar.
pub const SCALAR_BYTES: usize = 8;

/// Calls `OsRng::try_fill_bytes` on a fresh buffer of `len` bytes. The call
/// either fills the whole buffer or reports a failure, so what comes back,
/// if anything, has `len` bytes. Nothing is claimed about their values, nor
/// about when the generator fails. The length is bounded so that the
/// buffer can be allocated.
#[verifier::external_body]
pub(crate) fn try_random_bytes(rng: &mut OsRng, len: usize) -> (drawn: Option<Vec<u8>>)
    requires
        len <= isize::MAX,
    ensures
        drawn matches Some(bytes) ==> bytes@.len() == len,
{
    let mut bytes = vec![0u8; len];
    match rng.try_fill_bytes(&mut bytes) {
        Ok(()) => Some(bytes),
        Err(_) => None,
    }
}

/// What a draw of eight bytes amounts to: the scalar they encode.
pub open spec fn spec_scalar_of_draw(drawn: Option<Seq<u8>>) -> Result<u64, LocalError> {
    match drawn {
        Some(bytes) => if bytes.len() == SCALAR_BYTES {
            Ok(spec_u64_from_le_bytes(bytes))
        } else {
            Err(LocalError::RandomnessUnavailable)
        },
        None => Err(LocalError::RandomnessUnavailable),
    }
}

/// Turns the outcome of a draw into a scalar: eight bytes are read as a
/// little-endian integer, anything else is reported as missing randomness.
pub fn scalar_of_draw(drawn: Option<Vec<u8>>) -> (r: Result<u64, LocalError>)
    ensures
        r == spec_scalar_of_draw(
            match drawn {
                Some(bytes) => Some(bytes@),
                None => None,
            },
        ),
{
    match drawn {
        Some(bytes) => {
            if bytes.len() == SCALAR_BYTES {
                Ok(u64_from_le_bytes(bytes.as_slice()))
            } else {
                Err(LocalError::RandomnessUnavailable)
            }
        },
        None => Err(LocalError::RandomnessUnavailable),
    }
}

/// Draws one scalar. The only failure is a generator that supplies nothing.
pub fn random_scalar(rng: &mut OsRng) -> (r: Result<u64, LocalError>)
    ensures
        r matches Err(e) ==> e == LocalError::RandomnessUnavailable,
{
    let drawn = try_random_bytes(rng, SCALAR_BYTES);
    scalar_of_draw(drawn)
}

/// Draws `count` scalars, or none at all if the generator fails on the way.
/// Asking for no scalars asks nothing of the generator and succeeds.
pub fn random_scalars(rng: &mut OsRng, count: usize) -> (r: Result<Vec<u64>, LocalError>)
    ensures
        count == 0 ==> r is Ok,
        r matches Ok(values) ==> values@.len() == count,
        r matches Err(e) ==> e == LocalError::RandomnessUnavailable,
{
    let mut values: Vec<u64> = Vec::new();
    let mut i: usize = 0;
    while i < count
        invariant
            i <= count,
            values@.len() == i,
        decreases count - i,
    {
        match random_scalar(rng) {
            Ok(value) => {
                values.push(value);
            },
            Err(e) => {
                return Err(e);
            },
        }
        i = i + 1;
    }
    Ok(values)
}

/// The randomness of one run, drawn ahead of its use. A run consumes the
/// scalars in order; handing in the same scalars replays the run. The view
/// is the sequence of scalars not yet consumed.
#[derive(Debug)]
pub struct Randomness {
    pool: Vec<u64>,
    used: usize,
}

impl View for Randomness {
    type V = Seq<u64>;

    closed spec fn view(&self) -> Seq<u64> {
        if self.used <= self.pool@.len() {
            self.pool@.skip(self.used as int)
        } else {
            Seq::empty()
        }
    }
}

impl Randomness {
    /// Randomness that yields the given scalars, in their order.
    pub fn from_scalars(scalars: Vec<u64>) -> (randomness: Randomness)
        ensures
            randomness@ == scalars@,
    {
        proof {
            assert(scalars@.skip(0) =~= scalars@);
        }
        Randomness { pool: scalars, used: 0 }
    }

    /// Draws `count` scalars from the operating system. Asking for no
    /// scalars asks nothing of the generator and succeeds.
    pub fn from_os(rng: &mut OsRng, count: usize) -> (r: Result<Randomness, LocalError>)
        ensures
            count == 0 ==> r is Ok,
            r matches Ok(randomness) ==> randomness@.len() == count,
            r matches Err(e) ==> e == LocalError::RandomnessUnavailable,
    {
        match random_scalars(rng, count) {
            Ok(scalars) => Ok(Randomness::from_scalars(scalars)),
            Err(e) => Err(e),
        }
    }

    /// The number of scalars left.
    pub fn remaining(&self) -> (n: usize)
        ensures
            n == self@.len(),
    {
        if self.used <= self.pool.len() {
            self.pool.len() - self.used
        } else {
            0
        }
    }

    /// Consumes the next scalar. Fails, consuming nothing, when none is left.
    pub fn take(&mut self) -> (r: Result<u64, LocalError>)
        ensures
            match r {
                Ok(scalar) => old(self)@.len() > 0 && scalar == old(self)@[0] && final(self)@
                    == old(self)@.skip(1),
                Err(e) => e == LocalError::RandomnessUnavailable && old(self)@.len() == 0
                    && final(self)@ == old(self)@,
            },
    {
        if self.used < self.pool.len() {
            let scalar = self.pool[self.used];
            proof {
                assert(self.pool@.skip(self.used as int).skip(1) =~= self.pool@.skip(
                    self.used as int + 1,
                ));
            }
            self.used = self.used + 1;
            Ok(scalar)
        } else {
            Err(LocalError::RandomnessUnavailable)
        }
    }

    /// Consumes the next `count` scalars. Fails, consuming nothing, when
    /// fewer are left.
    pub fn take_many(&mut self, count: usize) -> (r: Result<Vec<u64>, LocalError>)
        ensures
            match r {
                Ok(scalars) => old(self)@.len() >= count && scalars@ == old(self)@.take(
                    count as int,
                ) && final(self)@ == old(self)@.skip(count as int),
                Err(e) => e == LocalError::RandomnessUnavailable && old(self)@.len() < count
                    && final(self)@ == old(self)@,
            },
    {
        if self.remaining() < count {
            return Err(LocalError::RandomnessUnavailable);
        }
        let mut scalars: Vec<u64> = Vec::new();
        let mut i: usize = 0;
        while i < count
            invariant
                i <= count,
                old(self)@.len() >= count,
                scalars@ == old(self)@.take(i as int),
                self@ == old(self)@.skip(i as int),
            decreases count - i,
        {
            match self.take() {
                Ok(scalar) => {
                    scalars.push(scalar);
                    proof {
                        assert(old(self)@.skip(i as int)[0] == old(self)@[i as int]);
                        assert(old(self)@.take(i + 1) =~= old(self)@.take(i as int).push(
                            old(self)@[i as int],
                        ));
                        assert(old(self)@.skip(i as int).skip(1) =~= old(self)@.skip(i + 1));
                    }
                },
                Err(e) => {
                    proof {
                        assert(old(self)@.skip(i as int).len() == old(self)@.len() - i);
                    }
                    return Err(e);
                },
            }
            i = i + 1;
        }
        Ok(scalars)
    }
}

} // verus!
