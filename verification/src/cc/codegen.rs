//! Machine code.

use vstd::prelude::*;
use crate::le::{
    lemma_u64_at, lemma_u64_round_trip, u64_at, u64_bytes, write_u64,
};

verus! {

/// The code of a function that returns `value`: it is loaded into RAX.
pub open spec fn return_code(value: u64) -> Seq<u8> {
    seq![0x48u8, 0xB8u8] + u64_bytes(value) + seq![0xC3u8]
}

/// The code of a function that returns `value`.
pub fn emit_return_u64(value: u64) -> (code: Vec<u8>)
    ensures
        code@ == return_code(value),
{
    let mut code: Vec<u8> = Vec::with_capacity(11);
    code.push(0x48);
    code.push(0xB8);
    let mut bytes: [u8; 8] = [0u8; 8];
    write_u64(&mut bytes, 0, value);
    assert(bytes@ =~= u64_bytes(value));
    code.extend_from_slice(&bytes);
    code.push(0xC3);
    assert(code@ =~= return_code(value));
    code
}

/// The code is eleven bytes long and holds the value that it loads.
pub proof fn law_return_code(value: u64)
    ensures
        return_code(value).len() == 11,
        u64_at(return_code(value), 2) == value,
{
    lemma_u64_round_trip(value);
    let c = return_code(value);
    assert(c.subrange(2, 10) =~= u64_bytes(value));
    lemma_u64_at(c, 2, value);
}

/// The code is a move of eight bytes into RAX and a return.
pub proof fn law_return_instructions(value: u64)
    ensures
        return_code(value)[0] == 0x48 && return_code(value)[1] == 0xB8,
        return_code(value)[10] == 0xC3,
{
    lemma_u64_round_trip(value);
}

} // verus!
