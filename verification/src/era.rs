//! The mortality window of a transaction: either valid forever, or valid for
//! a power-of-two period of blocks starting at a phase within that period.
//! The two-byte packed form is bit-exact with what the remote node expects:
//! the low four bits hold the period's exponent minus one, the high twelve
//! bits the phase divided by the period's quantize factor.
use crate::codec::le_bytes;
use crate::error::Error;
use vstd::arithmetic::div_mod::{
    lemma_fundamental_div_mod, lemma_fundamental_div_mod_converse, lemma_multiply_divide_lt,
};
use vstd::prelude::*;

verus! {

/// A transaction's validity window.
#[derive(Debug, Clone, Copy, PartialEq, Eq, Structural)]
pub enum Era {
    /// Valid forever; encodes as a single zero byte.
    Immortal,
    /// Valid for `period` blocks (a power of two between 4 and 65536),
    /// beginning at block `phase` within each period.
    Mortal { period: u64, phase: u64 },
}

/// The periods an era can hold: the powers of two from 4 to 65536.
pub open spec fn valid_period(p: u64) -> bool {
    p == 4 || p == 8 || p == 16 || p == 32 || p == 64 || p == 128 || p == 256 || p == 512 || p
        == 1024 || p == 2048 || p == 4096 || p == 8192 || p == 16384 || p == 32768 || p == 65536
}

/// The low four bits of the packed form: the period's exponent minus one.
pub open spec fn period_low_bits(p: u64) -> int {
    if p == 4 {
        1
    } else if p == 8 {
        2
    } else if p == 16 {
        3
    } else if p == 32 {
        4
    } else if p == 64 {
        5
    } else if p == 128 {
        6
    } else if p == 256 {
        7
    } else if p == 512 {
        8
    } else if p == 1024 {
        9
    } else if p == 2048 {
        10
    } else if p == 4096 {
        11
    } else if p == 8192 {
        12
    } else if p == 16384 {
        13
    } else if p == 32768 {
        14
    } else {
        15
    }
}

/// The period packed as `t`: `2 << t`, the inverse of [`period_low_bits`].
pub open spec fn period_of_low_bits(t: int) -> u64 {
    if t == 1 {
        4
    } else if t == 2 {
        8
    } else if t == 3 {
        16
    } else if t == 4 {
        32
    } else if t == 5 {
        64
    } else if t == 6 {
        128
    } else if t == 7 {
        256
    } else if t == 8 {
        512
    } else if t == 9 {
        1024
    } else if t == 10 {
        2048
    } else if t == 11 {
        4096
    } else if t == 12 {
        8192
    } else if t == 13 {
        16384
    } else if t == 14 {
        32768
    } else if t == 15 {
        65536
    } else {
        2
    }
}

/// The quantize factor: phases of long periods are stored divided by this.
pub open spec fn quantize_factor(p: u64) -> u64 {
    if p / 4096 >= 1 {
        p / 4096
    } else {
        1
    }
}

/// A well-formed era: the period one of the fifteen allowed powers of two,
/// the phase inside the period and aligned to the quantize factor.
pub open spec fn era_wf(e: Era) -> bool {
    match e {
        Era::Immortal => true,
        Era::Mortal { period, phase } => valid_period(period) && phase < period && (phase as int)
            % (quantize_factor(period) as int) == 0,
    }
}

/// The wire encoding of an era.
pub open spec fn era_enc(e: Era) -> Seq<u8> {
    match e {
        Era::Immortal => seq![0u8],
        Era::Mortal { period, phase } => le_bytes(
            (period_low_bits(period) + 16 * ((phase as int) / (quantize_factor(period) as int))) as nat,
            2,
        ),
    }
}

/// Decoding an era from the front of `s`: a zero first byte is immortal, any
/// other first byte starts a two-byte packed mortal era, invalid packings
/// rejected.
pub open spec fn era_dec(s: Seq<u8>) -> Option<(Era, int)> {
    if s.len() == 0 {
        None
    } else if s[0] == 0 {
        Some((Era::Immortal, 1int))
    } else if s.len() >= 2 {
        let e = s[0] + 256 * (s[1] as int);
        let t = e % 16;
        let period = period_of_low_bits(t);
        let phase = (e / 16) * quantize_factor(period) as int;
        if period >= 4 && phase < period {
            Some((Era::Mortal { period, phase: phase as u64 }, 2int))
        } else {
            None
        }
    } else {
        None
    }
}

/// The packed value of a well-formed mortal era fits in two bytes.
proof fn lemma_era_pack_bounds(period: u64, phase: u64)
    requires
        valid_period(period),
        phase < period,
    ensures
        0 <= period_low_bits(period) + 16 * ((phase as int) / (quantize_factor(period) as int)),
        period_low_bits(period) + 16 * ((phase as int) / (quantize_factor(period) as int)) < 65536,
        (phase as int) / (quantize_factor(period) as int) < 4096,
{
    let qf = quantize_factor(period) as int;
    assert(period as int == 4096 * qf || (period <= 4096 && qf == 1));
    if period <= 4096 {
        vstd::arithmetic::div_mod::lemma_div_basics(phase as int);
        assert((phase as int) / qf == phase as int);
    } else {
        assert(period as int == qf * 4096) by {
            vstd::arithmetic::mul::lemma_mul_is_commutative(4096, qf);
        }
        lemma_multiply_divide_lt(phase as int, qf, 4096);
    }
    assert((phase as int) / qf >= 0) by {
        vstd::arithmetic::div_mod::lemma_div_pos_is_pos(phase as int, qf);
    }
}

/// Round trip: decoding an encoded well-formed era, whatever bytes follow it,
/// recovers the same period and phase.
pub proof fn lemma_era_roundtrip(e: Era, rest: Seq<u8>)
    requires
        era_wf(e),
    ensures
        era_dec(era_enc(e) + rest) == Some((e, era_enc(e).len() as int)),
{
    let s = era_enc(e) + rest;
    match e {
        Era::Immortal => {
            assert(s[0] == 0);
        },
        Era::Mortal { period, phase } => {
            let qf = quantize_factor(period) as int;
            let t = period_low_bits(period);
            let q = phase as int / qf;
            lemma_era_pack_bounds(period, phase);
            let ev = t + 16 * q;
            assert(era_enc(e) == le_bytes(ev as nat, 2));
            crate::codec::lemma_le_bytes_len(ev as nat, 2);
            assert(s[0] == (ev as nat % 256) as u8);
            assert(s[1] == le_bytes(ev as nat, 2)[1]);
            assert(le_bytes(ev as nat, 2) == seq![(ev as nat % 256) as u8] + le_bytes(
                ev as nat / 256,
                1,
            ));
            assert(le_bytes(ev as nat / 256, 1) == seq![(ev as nat / 256 % 256) as u8]
                + le_bytes(ev as nat / 256 / 256, 0));
            assert(le_bytes(ev as nat, 2)[1] == (ev as nat / 256 % 256) as u8);
            lemma_fundamental_div_mod(ev, 256);
            let hi = ev / 256;
            assert(hi < 256);
            assert(hi % 256 == hi) by {
                vstd::arithmetic::div_mod::lemma_small_mod(hi as nat, 256);
            }
            let b0 = ev % 256;
            // The first byte cannot be zero: its residue mod 16 is t >= 1.
            assert(b0 == ev - 256 * hi);
            assert(b0 == 16 * (q - 16 * hi) + t);
            assert(b0 >= 0);
            assert(q - 16 * hi >= 0);
            lemma_fundamental_div_mod_converse(b0, 16, q - 16 * hi, t);
            assert(b0 % 16 == t);
            assert(b0 != 0);
            // Reading the two bytes back gives the packed value.
            let er = b0 + 256 * hi;
            assert(er == ev);
            lemma_fundamental_div_mod_converse(ev, 16, q, t);
            assert(ev % 16 == t);
            assert(ev / 16 == q);
            assert(period_of_low_bits(t) == period);
            assert((ev / 16) * qf == q * qf);
            assert(q * qf == phase) by {
                lemma_fundamental_div_mod(phase as int, qf);
            }
        },
    }
}

/// Exec encoding of a well-formed era, appended to `out`.
pub fn push_era(out: &mut Vec<u8>, e: &Era)
    requires
        era_wf(*e),
    ensures
        final(out)@ == old(out)@ + era_enc(*e),
{
    match e {
        Era::Immortal => {
            out.push(0);
            assert(final(out)@ =~= old(out)@ + era_enc(*e));
        },
        Era::Mortal { period, phase } => {
            let p = *period;
            let t: u64 = if p == 4 {
                1
            } else if p == 8 {
                2
            } else if p == 16 {
                3
            } else if p == 32 {
                4
            } else if p == 64 {
                5
            } else if p == 128 {
                6
            } else if p == 256 {
                7
            } else if p == 512 {
                8
            } else if p == 1024 {
                9
            } else if p == 2048 {
                10
            } else if p == 4096 {
                11
            } else if p == 8192 {
                12
            } else if p == 16384 {
                13
            } else if p == 32768 {
                14
            } else {
                15
            };
            let qf: u64 = if p / 4096 >= 1 {
                p / 4096
            } else {
                1
            };
            let q: u64 = *phase / qf;
            proof {
                lemma_era_pack_bounds(p, *phase);
            }
            let ev: u64 = t + 16 * q;
            crate::codec::push_le_bytes(out, ev as u128, 2);
        },
    }
}

/// Exec decoding of an era at `pos`.
pub fn decode_era(bytes: &Vec<u8>, pos: usize) -> (r: Result<(Era, usize), Error>)
    requires
        pos <= bytes@.len(),
    ensures
        match r {
            Ok(p) => {
                &&& era_dec(bytes@.skip(pos as int)) == Some((p.0, (p.1 - pos) as int))
                &&& pos < p.1 <= bytes@.len()
                &&& era_wf(p.0)
            },
            Err(e) => era_dec(bytes@.skip(pos as int)) is None && e == Error::CodecError,
        },
{
    let blen: usize = bytes.len();
    let ghost s = bytes@.skip(pos as int);
    if pos >= blen {
        return Err(Error::CodecError);
    }
    let b0 = bytes[pos];
    assert(s[0] == b0);
    if b0 == 0 {
        return Ok((Era::Immortal, pos + 1));
    }
    if blen - pos < 2 {
        return Err(Error::CodecError);
    }
    let b1 = bytes[pos + 1];
    assert(s[1] == b1);
    let ev: u64 = b0 as u64 + 256 * (b1 as u64);
    let t: u64 = ev % 16;
    let period: u64 = if t == 1 {
        4
    } else if t == 2 {
        8
    } else if t == 3 {
        16
    } else if t == 4 {
        32
    } else if t == 5 {
        64
    } else if t == 6 {
        128
    } else if t == 7 {
        256
    } else if t == 8 {
        512
    } else if t == 9 {
        1024
    } else if t == 10 {
        2048
    } else if t == 11 {
        4096
    } else if t == 12 {
        8192
    } else if t == 13 {
        16384
    } else if t == 14 {
        32768
    } else if t == 15 {
        65536
    } else {
        2
    };
    let qf: u64 = if period / 4096 >= 1 {
        period / 4096
    } else {
        1
    };
    proof {
        assert(ev / 16 < 4096) by {
            lemma_multiply_divide_lt(ev as int, 16, 4096);
        }
        assert((ev as int / 16) * (qf as int) <= 4095 * 16) by {
            vstd::arithmetic::mul::lemma_mul_upper_bound(ev as int / 16, 4095, qf as int, 16);
        }
    }
    let phase: u64 = (ev / 16) * qf;
    if period >= 4 && phase < period {
        proof {
            vstd::arithmetic::mul::lemma_mul_is_commutative(ev as int / 16, qf as int);
            lemma_fundamental_div_mod_converse(
                phase as int,
                qf as int,
                (ev / 16) as int,
                0,
            );
        }
        Ok((Era::Mortal { period, phase }, pos + 2))
    } else {
        Err(Error::CodecError)
    }
}

/// The period an era built from a requested `period` actually gets: the next
/// power of two, clamped between 4 and 65536.
pub open spec fn era_period_for(period: u64) -> u64 {
    if period <= 4 {
        4
    } else if period <= 8 {
        8
    } else if period <= 16 {
        16
    } else if period <= 32 {
        32
    } else if period <= 64 {
        64
    } else if period <= 128 {
        128
    } else if period <= 256 {
        256
    } else if period <= 512 {
        512
    } else if period <= 1024 {
        1024
    } else if period <= 2048 {
        2048
    } else if period <= 4096 {
        4096
    } else if period <= 8192 {
        8192
    } else if period <= 16384 {
        16384
    } else if period <= 32768 {
        32768
    } else {
        65536
    }
}

/// An era encoding takes one or two bytes.
pub proof fn lemma_era_enc_len(e: Era)
    ensures
        1 <= era_enc(e).len() <= 2,
{
    match e {
        Era::Immortal => {},
        Era::Mortal { period, phase } => {
            crate::codec::lemma_le_bytes_len(
                (period_low_bits(period) + 16 * ((phase as int) / (quantize_factor(period)
                    as int))) as nat,
                2,
            );
        },
    }
}

/// Exec test of era well-formedness, for callers that receive an era rather
/// than building one here.
pub fn era_valid(e: &Era) -> (r: bool)
    ensures
        r == era_wf(*e),
{
    match e {
        Era::Immortal => true,
        Era::Mortal { period, phase } => {
            let p = *period;
            let period_ok = p == 4 || p == 8 || p == 16 || p == 32 || p == 64 || p == 128 || p
                == 256 || p == 512 || p == 1024 || p == 2048 || p == 4096 || p == 8192 || p
                == 16384 || p == 32768 || p == 65536;
            if !period_ok {
                return false;
            }
            let qf: u64 = if p / 4096 >= 1 {
                p / 4096
            } else {
                1
            };
            *phase < p && *phase % qf == 0
        },
    }
}

impl Era {
    /// An era valid forever.
    pub fn immortal() -> (r: Era)
        ensures
            r == Era::Immortal,
            era_wf(r),
    {
        Era::Immortal
    }

    /// An era of (at least) `period` blocks containing the reference block
    /// `current`: the period is rounded up to the next power of two between 4
    /// and 65536, the phase is the reference block's offset in its period,
    /// aligned down to the quantize factor.
    pub fn mortal(period: u64, current: u64) -> (r: Era)
        ensures
            era_wf(r),
            r matches Era::Mortal { period: p, phase } && p == era_period_for(period) && phase
                == ((current as int) % (p as int)) / (quantize_factor(p) as int) * (
            quantize_factor(p) as int),
    {
        let p: u64 = if period <= 4 {
            4
        } else if period <= 8 {
            8
        } else if period <= 16 {
            16
        } else if period <= 32 {
            32
        } else if period <= 64 {
            64
        } else if period <= 128 {
            128
        } else if period <= 256 {
            256
        } else if period <= 512 {
            512
        } else if period <= 1024 {
            1024
        } else if period <= 2048 {
            2048
        } else if period <= 4096 {
            4096
        } else if period <= 8192 {
            8192
        } else if period <= 16384 {
            16384
        } else if period <= 32768 {
            32768
        } else {
            65536
        };
        let raw_phase: u64 = current % p;
        let qf: u64 = if p / 4096 >= 1 {
            p / 4096
        } else {
            1
        };
        let q: u64 = raw_phase / qf;
        proof {
            lemma_fundamental_div_mod(raw_phase as int, qf as int);
            vstd::arithmetic::div_mod::lemma_mod_division_less_than_divisor(
                raw_phase as int,
                qf as int,
            );
            vstd::arithmetic::mul::lemma_mul_is_commutative(q as int, qf as int);
            assert((q as int) * (qf as int) <= raw_phase);
        }
        let phase: u64 = q * qf;
        proof {
            lemma_fundamental_div_mod_converse(phase as int, qf as int, q as int, 0);
        }
        Era::Mortal { period: p, phase }
    }
}

} // verus!
