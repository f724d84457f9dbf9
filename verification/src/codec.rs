//! The byte-level interface to the pooled assets' `transfer` capability:
//! the calldata layout of a `transfer(address,uint256)` call, and the rule
//! that decides whether a call's outcome counts as success — an empty
//! return payload, or the 32-byte word for `true`; anything else fails.

use vstd::prelude::*;
use crate::address::Address;
use crate::amount::Amount;
use crate::errors::Error;

verus! {

/// Big-endian bytes of a 128-bit half.
pub open spec fn be16(x: u128) -> Seq<u8> {
    seq![
        (((x / 0x1000000000000000000000000000000) % 256) as u8),
        (((x / 0x10000000000000000000000000000) % 256) as u8),
        (((x / 0x100000000000000000000000000) % 256) as u8),
        (((x / 0x1000000000000000000000000) % 256) as u8),
        (((x / 0x10000000000000000000000) % 256) as u8),
        (((x / 0x100000000000000000000) % 256) as u8),
        (((x / 0x1000000000000000000) % 256) as u8),
        (((x / 0x10000000000000000) % 256) as u8),
        (((x / 0x100000000000000) % 256) as u8),
        (((x / 0x1000000000000) % 256) as u8),
        (((x / 0x10000000000) % 256) as u8),
        (((x / 0x100000000) % 256) as u8),
        (((x / 0x1000000) % 256) as u8),
        (((x / 0x10000) % 256) as u8),
        (((x / 0x100) % 256) as u8),
        (((x / 0x1) % 256) as u8)
    ]
}

/// Big-endian bytes of the 32-bit high part of an address.
pub open spec fn be4(x: u32) -> Seq<u8> {
    seq![
        (((x / 0x1000000) % 256) as u8),
        (((x / 0x10000) % 256) as u8),
        (((x / 0x100) % 256) as u8),
        (((x / 0x1) % 256) as u8)
    ]
}

/// The calldata of `transfer(to, value)`: the four selector bytes, the
/// address left-padded to 32 bytes, then the amount as a 32-byte word.
pub open spec fn transfer_calldata_spec(to: Address, value: Amount) -> Seq<u8> {
    seq![0xa9u8, 0x05u8, 0x9cu8, 0xbbu8] + seq![
        0u8,
        0u8,
        0u8,
        0u8,
        0u8,
        0u8,
        0u8,
        0u8,
        0u8,
        0u8,
        0u8,
        0u8,
    ] + be4(to.hi) + be16(to.lo) + be16(value.hi) + be16(value.lo)
}

fn push_be16(out: &mut Vec<u8>, x: u128)
    ensures
        final(out)@ == old(out)@ + be16(x),
{
    out.push(((x / 0x1000000000000000000000000000000u128) % 256) as u8);
    out.push(((x / 0x10000000000000000000000000000u128) % 256) as u8);
    out.push(((x / 0x100000000000000000000000000u128) % 256) as u8);
    out.push(((x / 0x1000000000000000000000000u128) % 256) as u8);
    out.push(((x / 0x10000000000000000000000u128) % 256) as u8);
    out.push(((x / 0x100000000000000000000u128) % 256) as u8);
    out.push(((x / 0x1000000000000000000u128) % 256) as u8);
    out.push(((x / 0x10000000000000000u128) % 256) as u8);
    out.push(((x / 0x100000000000000u128) % 256) as u8);
    out.push(((x / 0x1000000000000u128) % 256) as u8);
    out.push(((x / 0x10000000000u128) % 256) as u8);
    out.push(((x / 0x100000000u128) % 256) as u8);
    out.push(((x / 0x1000000u128) % 256) as u8);
    out.push(((x / 0x10000u128) % 256) as u8);
    out.push(((x / 0x100u128) % 256) as u8);
    out.push(((x / 0x1u128) % 256) as u8);
    proof {
        assert(out@ =~= old(out)@ + be16(x));
    }
}

fn push_be4(out: &mut Vec<u8>, x: u32)
    ensures
        final(out)@ == old(out)@ + be4(x),
{
    out.push(((x / 0x1000000u32) % 256) as u8);
    out.push(((x / 0x10000u32) % 256) as u8);
    out.push(((x / 0x100u32) % 256) as u8);
    out.push(((x / 0x1u32) % 256) as u8);
    proof {
        assert(out@ =~= old(out)@ + be4(x));
    }
}

/// Build the calldata that asks an asset for `transfer(to, value)`.
pub fn transfer_calldata(to: Address, value: Amount) -> (r: Vec<u8>)
    ensures
        r@ == transfer_calldata_spec(to, value),
{
    let mut out: Vec<u8> = Vec::new();
    out.push(0xa9);
    out.push(0x05);
    out.push(0x9c);
    out.push(0xbb);
    let mut i: usize = 0;
    while i < 12
        invariant
            i <= 12,
            out@.len() == 4 + i,
            out@ =~= seq![0xa9u8, 0x05u8, 0x9cu8, 0xbbu8] + Seq::new(i as nat, |j: int| 0u8),
        decreases 12 - i,
    {
        out.push(0);
        proof {
            assert(Seq::new((i + 1) as nat, |j: int| 0u8) =~= Seq::new(i as nat, |j: int| 0u8)
                .push(0u8));
        }
        i += 1;
    }
    push_be4(&mut out, to.hi);
    push_be16(&mut out, to.lo);
    push_be16(&mut out, value.hi);
    push_be16(&mut out, value.lo);
    proof {
        assert(Seq::new(12nat, |j: int| 0u8) =~= seq![
            0u8,
            0u8,
            0u8,
            0u8,
            0u8,
            0u8,
            0u8,
            0u8,
            0u8,
            0u8,
            0u8,
            0u8,
        ]);
        assert(out@ =~= transfer_calldata_spec(to, value));
    }
    out
}

/// The 32-byte big-endian word for boolean `true`: 31 zero bytes, then 1.
pub open spec fn is_true_word(data: Seq<u8>) -> bool {
    &&& data.len() == 32
    &&& data[31] == 1
    &&& (forall|i: int| 0 <= i < 31 ==> data[i] == 0)
}

/// Judge the outcome of an asset's `transfer` call: success means the call
/// itself succeeded and returned either nothing or the word for `true`.
pub fn safe_transfer_check(call_succeeded: bool, data: &Vec<u8>) -> (r: Result<(), Error>)
    ensures
        (r is Ok) <==> (call_succeeded && (data@.len() == 0 || is_true_word(data@))),
        (r matches Err(e) ==> e == Error::TransferFailed),
{
    if !call_succeeded {
        return Err(Error::TransferFailed);
    }
    if data.len() == 0 {
        return Ok(());
    }
    if data.len() != 32 {
        return Err(Error::TransferFailed);
    }
    if data[31] != 1 {
        return Err(Error::TransferFailed);
    }
    let mut i: usize = 0;
    while i < 31
        invariant
            i <= 31,
            data@.len() == 32,
            forall|j: int| 0 <= j < i ==> data@[j] == 0,
        decreases 31 - i,
    {
        if data[i] != 0 {
            return Err(Error::TransferFailed);
        }
        i += 1;
    }
    Ok(())
}

} // verus!
