//! Link impairment: MTU enforcement, loss, delay and jitter.
use vstd::prelude::*;
use rand::Rng;
use rand::rngs::StdRng;
use crate::topology::{Link, LinkConfig, bump};

verus! {

#[verifier::external_type_specification]
#[verifier::external_body]
pub struct ExStdRng(StdRng);

/// Loss rolls are drawn from `0..LOSS_SCALE` (hundredths of a percent).
pub const LOSS_SCALE: u32 = 10000;

/// Why a packet did not cross a link.
#[derive(Clone, Debug, PartialEq, Eq)]
pub enum SimulationError {
    PacketLost,
    MtuExceeded { packet_size: usize, mtu: u32 },
    Other(String),
}

/// Relies on rand's `Rng::gen_range` over `0..bound`: a value below `bound`
/// (it panics only on an empty range).
#[verifier::external_body]
fn draw_below(rng: &mut StdRng, bound: u32) -> (r: u32)
    requires
        bound > 0,
    ensures
        r < bound,
{
    rng.gen_range(0..bound)
}

/// Relies on rand's `Rng::gen_range` over `lo..=hi`: a value in that range
/// (it panics only on an empty range).
#[verifier::external_body]
fn draw_between(rng: &mut StdRng, lo: i64, hi: i64) -> (r: i64)
    requires
        lo <= hi,
    ensures
        lo <= r <= hi,
{
    rng.gen_range(lo..=hi)
}

/// What crossing a link does to a packet of `len` bytes, given the loss roll
/// (in `0..LOSS_SCALE`) and the jitter drawn: the MTU is checked first, then
/// the loss; a surviving packet is delayed by `delay + jitter`, at least zero.
pub open spec fn verdict(cfg: LinkConfig, len: nat, roll: u32, jitter: int) -> Result<u64, SimulationError> {
    match cfg.mtu {
        Some(m) if len > m => Err(SimulationError::MtuExceeded { packet_size: len as usize, mtu: m }),
        _ => if roll < cfg.loss_basis_points {
            Err(SimulationError::PacketLost)
        } else if cfg.delay_ms + jitter <= 0 {
            Ok(0u64)
        } else {
            Ok((cfg.delay_ms + jitter) as u64)
        },
    }
}

/// Decides the fate of a packet of `len` bytes on a link with `cfg`.
pub fn link_verdict(cfg: &LinkConfig, len: usize, roll: u32, jitter: i64) -> (r: Result<u64, SimulationError>)
    requires
        -0x1_0000_0000 <= jitter <= 0x1_0000_0000,
    ensures
        r == verdict(*cfg, len as nat, roll, jitter as int),
{
    if let Some(m) = cfg.mtu {
        if len > m as usize {
            return Err(SimulationError::MtuExceeded { packet_size: len, mtu: m });
        }
    }
    if roll < cfg.loss_basis_points {
        return Err(SimulationError::PacketLost);
    }
    let total: i64 = cfg.delay_ms as i64 + jitter;
    if total <= 0 {
        Ok(0)
    } else {
        Ok(total as u64)
    }
}

/// Sends a packet of `len` bytes across `link`: counts the attempt, then
/// checks the MTU, draws the loss roll and the jitter (within the configured
/// bound), and returns the delay in milliseconds or why the packet was dropped.
pub fn simulate_link(link: &mut Link, len: usize, rng: &mut StdRng) -> (r: Result<u64, SimulationError>)
    ensures
        final(link).counter == bump(old(link).counter),
        final(link).id == old(link).id,
        final(link).cfg == old(link).cfg,
        exists|roll: u32, jitter: int|
            roll < LOSS_SCALE && -(old(link).cfg.jitter_ms as int) <= jitter <= old(link).cfg.jitter_ms && r == verdict(
                old(link).cfg,
                len as nat,
                roll,
                jitter,
            ),
{
    link.counter = if link.counter < u64::MAX {
        link.counter + 1
    } else {
        link.counter
    };
    if let Some(m) = link.cfg.mtu {
        if len > m as usize {
            let r = Err(SimulationError::MtuExceeded { packet_size: len, mtu: m });
            proof {
                assert(r == verdict(old(link).cfg, len as nat, 0, 0));
            }
            return r;
        }
    }
    let roll = draw_below(rng, LOSS_SCALE);
    let jitter: i64 = if link.cfg.jitter_ms > 0 {
        draw_between(rng, -(link.cfg.jitter_ms as i64), link.cfg.jitter_ms as i64)
    } else {
        0
    };
    link_verdict(&link.cfg, len, roll, jitter)
}

} // verus!
