//! The weight slot: blobs that are linked at a fixed address.

use crate::bytes::{get32, le32};
use crate::layout::{SLOT_BASE, SLOT_BYTES};
use vstd::prelude::*;

verus! {

/// First word of every blob: "LAYR".
pub const SLOT_MAGIC: u32 = 0x4C41_5952;

/// No blob at the address.
pub const E_NO_MODEL: i32 = -101;

/// The blob's descriptor lies outside of it.
pub const E_MODEL: i32 = -102;

/// The descriptor address that the blob header names.
pub open spec fn model_at(header: Seq<u8>) -> int {
    le32(header, 4)
}

/// The blob header is one.
pub open spec fn has_slot_magic(header: Seq<u8>) -> bool {
    le32(header, 0) == SLOT_MAGIC
}

/// A descriptor address from `base` up to the end of the slot.
pub open spec fn in_slot(model: int, base: int) -> bool {
    base <= model < SLOT_BASE + SLOT_BYTES
}

/// The descriptor of the blob that is linked and loaded at `base`, whose
/// first bytes are `header`.
pub fn run_at(header: &[u8], base: usize) -> (r: Result<u32, i32>)
    requires
        header@.len() >= 8,
    ensures
        match r {
            Ok(model) => {
                &&& has_slot_magic(header@)
                &&& in_slot(model_at(header@), base as int)
                &&& model == model_at(header@)
            },
            Err(e) => {
                ||| e == E_NO_MODEL && !has_slot_magic(header@)
                ||| e == E_MODEL && has_slot_magic(header@) && !in_slot(
                    model_at(header@),
                    base as int,
                )
            },
        },
{
    if get32(header, 0) != SLOT_MAGIC {
        return Err(E_NO_MODEL);
    }
    let model: u32 = get32(header, 4);
    if (model as usize) < base || model as usize >= SLOT_BASE + SLOT_BYTES {
        return Err(E_MODEL);
    }
    Ok(model)
}

/// The descriptor of the blob at the start of the slot.
pub fn run(header: &[u8]) -> (r: Result<u32, i32>)
    requires
        header@.len() >= 8,
    ensures
        match r {
            Ok(model) => {
                &&& has_slot_magic(header@)
                &&& in_slot(model_at(header@), SLOT_BASE as int)
                &&& model == model_at(header@)
            },
            Err(e) => {
                ||| e == E_NO_MODEL && !has_slot_magic(header@)
                ||| e == E_MODEL && has_slot_magic(header@) && !in_slot(
                    model_at(header@),
                    SLOT_BASE as int,
                )
            },
        },
{
    run_at(header, SLOT_BASE)
}

/// Where the interlayer use of the blob at `base` is declared, if there is
/// a blob.
pub fn interlayer_needed(header: &[u8], base: usize) -> (r: Option<u32>)
    requires
        header@.len() >= 8,
    ensures
        r is Some <==> has_slot_magic(header@) && in_slot(model_at(header@), base as int),
        r matches Some(model) ==> model == model_at(header@),
{
    match run_at(header, base) {
        Ok(model) => Some(model),
        Err(_) => None,
    }
}

/// A blob says in its second word where its model lies, and runs only where
/// that is inside the slot.
pub proof fn law_a_model_lies_in_the_slot(header: Seq<u8>, base: int)
    requires
        header.len() >= 8,
    ensures
        model_at(header) == header[4] + 256 * header[5] + 65536 * header[6] + 16777216 * header[7],
        in_slot(model_at(header), base) <==> base <= model_at(header) < 0x2004_B000 + 212992,
{
}

} // verus!
