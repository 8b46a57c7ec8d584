//! Where everything lives: the scratch regions behind the model image, and
//! the working memory of every phase.

use vstd::prelude::*;

verus! {

/// Bytes of a storage block.
pub const BLOCK: usize = 512;

/// Channels of the residual stream.
pub const C: usize = 384;

/// Dimensions of an attention head.
pub const HD: usize = 64;

pub const HEADS: usize = 6;

/// Frames of a tile.
pub const T: usize = 64;

/// Encoder frames of a full window.
pub const CTX: usize = 600;

/// ... padded to whole tiles.
pub const PAD_W: usize = 640;

pub const N_TILES: usize = 10;

/// Mel tiles of a full window (the mel rate is twice the encoder's).
pub const MEL_TILES: usize = 20;

/// Samples of a full window: 12 s at 16 kHz.
pub const N_SAMPLES: usize = 192_000;

pub const MAX_TOKENS: usize = 32;

/// Transformer blocks of the encoder, and of the decoder.
pub const BLOCKS: usize = 4;

/// Bytes of an int8 tile and of an int16 tile.
pub const TILE8: usize = 24576;

pub const TILE16: usize = 49152;

/// Bytes of one head's block of a tile.
pub const HB: usize = 4096;

/// Storage blocks of a head-block region.
pub const HREG_BLOCKS: u32 = 480;

// --- scratch regions, in blocks from the start of the scratch area ------------------

/// The recording, 750 blocks.
pub const S_PCM: u32 = 0;

/// Marker block: the recording above is a clip that was put there.
pub const S_INJECT: u32 = 750;

/// Mel chunks of the first pass, 20 of 40 blocks.
pub const S_MELF: u32 = 768;

/// int8 mel tiles `[80, 64]`, 20 of 10 blocks.
pub const S_MEL: u32 = 1600;

/// Mel-rate int8 tiles, 20 of 48 blocks.
pub const S_A: u32 = 1856;

/// int16 residual tiles, 10 of 96 blocks.
pub const S_X: u32 = 2880;

/// int8 tiles, 10 of 48 blocks.
pub const S_LN: u32 = 3904;

pub const S_O: u32 = 4416;

/// Head-block regions, 480 blocks each.
pub const S_QH: u32 = 4928;

pub const S_KH: u32 = 5440;

pub const S_VH: u32 = 5952;

pub const S_CH: u32 = 6464;

/// Partial sums of the second MLP layer, 4 of 480 blocks.
pub const S_P: u32 = 6976;

/// Encoder output tiles, 480 blocks.
pub const S_EO: u32 = 8960;

/// Cross-attention keys and values, 8 of 480 blocks, keys key-major.
pub const S_XKV: u32 = 9472;

/// Blocks of the whole scratch area.
pub const S_END: u32 = 13312;

/// A run of scratch blocks.
pub ghost struct Region {
    pub start: int,
    pub len: int,
}

/// The scratch regions in order.
pub open spec fn regions() -> Seq<Region> {
    seq![
        Region { start: S_PCM as int, len: 750 },
        Region { start: S_INJECT as int, len: 1 },
        Region { start: S_MELF as int, len: 800 },
        Region { start: S_MEL as int, len: 200 },
        Region { start: S_A as int, len: 960 },
        Region { start: S_X as int, len: 960 },
        Region { start: S_LN as int, len: 480 },
        Region { start: S_O as int, len: 480 },
        Region { start: S_QH as int, len: 480 },
        Region { start: S_KH as int, len: 480 },
        Region { start: S_VH as int, len: 480 },
        Region { start: S_CH as int, len: 480 },
        Region { start: S_P as int, len: 1920 },
        Region { start: S_EO as int, len: 480 },
        Region { start: S_XKV as int, len: 3840 },
    ]
}

/// No two scratch regions share a block, and they all lie inside the
/// scratch area.
pub proof fn law_regions_are_disjoint(i: int, j: int)
    requires
        0 <= i < j < regions().len(),
    ensures
        regions()[i].start + regions()[i].len <= regions()[j].start,
        0 <= regions()[i].start,
        regions()[j].start + regions()[j].len <= S_END,
{
    lemma_ordered(i, j);
}

proof fn lemma_ordered(i: int, j: int)
    requires
        0 <= i < j < regions().len(),
    ensures
        regions()[i].start + regions()[i].len <= regions()[j].start,
        0 <= regions()[i].start,
        regions()[j].start + regions()[j].len <= S_END,
    decreases j - i,
{
    if i + 1 < j {
        lemma_ordered(i, j - 1);
        lemma_ordered(j - 1, j);
    }
}

// --- working memory -----------------------------------------------------------------

/// Bytes of the activation arena, of the weight slot behind it, of the
/// self-attention cache and of the NPU's interlayer buffer.
pub const ARENA_BYTES: usize = 102400;

pub const SLOT_BYTES: usize = 212992;

pub const KV_BYTES: usize = 98304;

pub const INTERLAYER_BYTES: usize = 65536;

/// Fixed addresses: the slot follows the arena.
pub const ARENA_BASE: usize = 0x2003_2000;

pub const SLOT_BASE: usize = 0x2004_B000;

/// Offset of the crash breadcrumbs, the last two words of the slot.
pub const CRUMB_OFF: usize = 212984;

/// A memory that phases carve up.
#[derive(Clone, Copy, PartialEq, Eq, Structural, Debug)]
pub enum Mem {
    /// The arena and, right behind it, the weight slot.
    Ram,
    /// The self-attention cache, scratch until decoding starts.
    Kv,
    /// The NPU's interlayer buffer, scratch between NPU runs.
    Interlayer,
}

/// A range of bytes in one memory.
#[derive(Clone, Copy, PartialEq, Eq, Structural, Debug)]
pub struct Buf {
    pub mem: Mem,
    pub off: usize,
    pub len: usize,
}

/// Bytes of a memory that buffers may use (the breadcrumbs are not for
/// use).
pub open spec fn mem_bytes(m: Mem) -> int {
    match m {
        Mem::Ram => ARENA_BYTES + CRUMB_OFF,
        Mem::Kv => KV_BYTES as int,
        Mem::Interlayer => INTERLAYER_BYTES as int,
    }
}

impl Buf {
    /// The buffer lies inside its memory.
    pub open spec fn inside(self) -> bool {
        self.off + self.len <= mem_bytes(self.mem)
    }

    /// The two buffers share no byte.
    pub open spec fn apart(self, other: Buf) -> bool {
        self.mem != other.mem || self.off + self.len <= other.off || other.off + other.len
            <= self.off
    }

    /// The buffer is made of whole storage blocks.
    pub open spec fn is_blocks(self) -> bool {
        self.len % 512 == 0
    }
}

/// A range of the arena.
pub open spec fn arena_buf(off: int, len: int) -> Buf {
    Buf { mem: Mem::Ram, off: off as usize, len: len as usize }
}

/// A range of the weight slot.
pub open spec fn slot_buf(off: int, len: int) -> Buf {
    Buf { mem: Mem::Ram, off: (ARENA_BYTES + off) as usize, len: len as usize }
}

/// A range of the self-attention cache.
pub open spec fn kv_buf(off: int, len: int) -> Buf {
    Buf { mem: Mem::Kv, off: off as usize, len: len as usize }
}

/// A range of the interlayer buffer.
pub open spec fn il_buf(off: int, len: int) -> Buf {
    Buf { mem: Mem::Interlayer, off: off as usize, len: len as usize }
}

pub fn arena(off: usize, len: usize) -> (b: Buf)
    requires
        off + len <= ARENA_BYTES,
    ensures
        b == arena_buf(off as int, len as int),
        b.inside(),
{
    Buf { mem: Mem::Ram, off, len }
}

pub fn slot(off: usize, len: usize) -> (b: Buf)
    requires
        off + len <= CRUMB_OFF,
    ensures
        b == slot_buf(off as int, len as int),
        b.inside(),
{
    Buf { mem: Mem::Ram, off: ARENA_BYTES + off, len }
}

pub fn kvscratch(off: usize, len: usize) -> (b: Buf)
    requires
        off + len <= KV_BYTES,
    ensures
        b == kv_buf(off as int, len as int),
        b.inside(),
{
    Buf { mem: Mem::Kv, off, len }
}

pub fn interlayer(off: usize, len: usize) -> (b: Buf)
    requires
        off + len <= INTERLAYER_BYTES,
    ensures
        b == il_buf(off as int, len as int),
        b.inside(),
{
    Buf { mem: Mem::Interlayer, off, len }
}

// Encoder phase.
/// The largest assembled input.
pub const A_IN: usize = 0;

pub const A_OUT: usize = 50176;

pub const A_AUX: usize = 74752;

/// Layer-norm gamma and beta.
pub const A_GB: usize = 87040;

pub const A_LUT: usize = 90112;

/// The slot as CPU scratch while no blob is needed: transposed keys,
/// widened values, one head's query blocks, the softmax table.
pub const SL_KT: usize = 0;

pub const SL_V16: usize = 81920;

pub const SL_STAGE: usize = 163840;

pub const SL_EXPTAB: usize = 204800;

/// The interlayer buffer during CPU attention: working rows, then a head's
/// context tiles.
pub const IL_SCRATCH2: usize = 0;

pub const IL_CTX: usize = 16384;

/// One head's tile blocks.
pub const STAGE_BYTES: usize = 40960;

/// Attention pipeline: the next head's keys, values and queries, and the
/// second context buffer.
pub const A_PK: usize = 0;

pub const A_PV: usize = 40960;

pub const KV_PQ: usize = 0;

pub const KV_CTX1: usize = 40960;

/// MLP tile pipeline: input tiles, partial sums, the second tile's first
/// layer.
pub const A_X0: usize = 0;

pub const A_X1: usize = 24576;

pub const KV_P0: usize = 0;

pub const KV_P1: usize = 24576;

pub const KV_F1: usize = 49152;

/// Projection pipeline: odd tiles' output.
pub const KV_PO: usize = 0;

/// Cross key/value pipeline: output per parity, then the transposed keys.
pub const KV_XO0: usize = 0;

pub const KV_XO1: usize = 24576;

pub const KV_XT0: usize = 49152;

pub const KV_XT1: usize = 73728;

// Recording and mel passes.
/// Table slots of whole blocks, the running maximum, the sample window, the
/// mel chunk, the two microphone buffers, the int8 tile (the microphone is
/// idle by then) and the per-frame means.
pub const R_HANN: usize = 0;

pub const R_COS: usize = 2048;

pub const R_MAX: usize = 4096;

pub const R_WIN: usize = 4104;

pub const R_MELF: usize = 28168;

pub const R_PDM0: usize = 48648;

pub const R_PDM1: usize = 69128;

pub const R_TILE: usize = 48648;

pub const R_MEANS: usize = 89608;

// Decode phase, token rate: [384, 4] tensors.
pub const W4: usize = 4;

pub const D_X16: usize = 0;

pub const D_LN: usize = 3072;

pub const D_Q: usize = 4608;

pub const D_K: usize = 6144;

pub const D_V: usize = 7680;

pub const D_CTX: usize = 9216;

pub const D_O: usize = 10752;

pub const D_P: usize = 12288;

/// One decoder layer's constants: three gamma/beta pairs, four tables.
pub const D_DC: usize = 18432;

pub const DC_LN1: usize = 0;

pub const DC_XLN: usize = 3072;

pub const DC_LN2: usize = 6144;

pub const DC_LUT: usize = 9216;

pub const DC_BYTES: usize = 10240;

/// Decoder blobs run at the top of the slot.
pub const DEC_BYTES: usize = 155648;

pub const DEC_OFF: usize = 57344;

/// Packed blobs land in the top of the arena and the bottom of the slot.
pub const LAND_ARENA: usize = 28672;

pub const LAND_BYTES: usize = 131072;

/// Between blob runs: the cross-attention key stages and the value stage.
pub const DE_XK0: usize = 57344;

pub const DE_XV: usize = 139264;

/// ... or the LM head's chunk buffers and its int16 rows.
pub const DE_CHUNK: usize = 57344;

pub const DE_ROWS: usize = 107520;

/// The interlayer buffer during decode: what a blob may touch, then the
/// tables that must survive.
pub const IL_KEEP: usize = 16384;

pub const IL_LVL: usize = 16384;

pub const IL_LUT16: usize = 49152;

/// The landing zone: whole words, ending where the decoder blobs begin.
pub proof fn law_landing_zone_ends_at_the_blob()
    ensures
        ARENA_BASE + ARENA_BYTES == SLOT_BASE,
        LAND_ARENA == D_DC + DC_BYTES,
        LAND_ARENA + LAND_BYTES == ARENA_BYTES + DEC_OFF,
        DEC_OFF + DEC_BYTES == SLOT_BYTES,
        (ARENA_BASE + LAND_ARENA) % 4 == 0,
        (SLOT_BASE + DEC_OFF) % 4 == 0,
        arena_buf(LAND_ARENA as int, LAND_BYTES as int).apart(
            slot_buf(DEC_OFF as int, DEC_BYTES as int),
        ),
{
}

/// The buffers of each phase keep clear of one another and of the
/// breadcrumbs.
pub proof fn law_phase_buffers_are_disjoint()
    ensures
// attention in the slot and in the interlayer buffer

        SL_KT + 2 * 40960 <= SL_V16,
        SL_V16 + 2 * 40960 <= SL_STAGE,
        SL_STAGE + STAGE_BYTES <= SL_EXPTAB,
        SL_EXPTAB < CRUMB_OFF,
        IL_CTX + STAGE_BYTES <= INTERLAYER_BYTES,
        // attention pipeline
        A_PK + STAGE_BYTES <= A_PV,
        A_PV + STAGE_BYTES <= ARENA_BYTES,
        KV_PQ + STAGE_BYTES <= KV_CTX1,
        KV_CTX1 + STAGE_BYTES <= KV_BYTES,
        // tile pipelines
        A_X0 + TILE8 <= A_X1,
        A_X1 + TILE8 <= A_OUT,
        A_OUT + TILE8 <= A_AUX,
        A_AUX + 12288 <= A_GB,
        A_GB + 3072 <= A_LUT,
        A_LUT + 512 <= ARENA_BYTES,
        KV_P0 + TILE8 <= KV_P1,
        KV_P1 + TILE8 <= KV_F1,
        KV_F1 + TILE8 <= KV_BYTES,
        KV_XO0 + TILE8 <= KV_XO1,
        KV_XO1 + TILE8 <= KV_XT0,
        KV_XT0 + TILE8 <= KV_XT1,
        KV_XT1 + TILE8 <= KV_BYTES,
        // recording
        R_HANN + 2048 <= R_COS,
        R_COS + 2048 <= R_MAX,
        R_MAX + 4 <= R_WIN,
        R_WIN + 24064 <= R_MELF,
        R_MELF + 20480 <= R_PDM0,
        R_PDM0 + 20480 <= R_PDM1,
        R_PDM1 + 20480 <= R_MEANS,
        R_TILE + 80 * 64 + 80 * 48 <= R_MEANS,
        R_MEANS + 4800 <= ARENA_BYTES,
        // decode
        DE_XK0 + 2 * STAGE_BYTES <= DE_XV,
        DE_XV + STAGE_BYTES <= CRUMB_OFF,
        DE_CHUNK + 2 * 49 * BLOCK <= DE_ROWS,
        DE_ROWS + 2 * 64 * C <= CRUMB_OFF,
        IL_LVL + 2 * 16384 <= IL_LUT16,
        IL_LUT16 + 4 * 4096 <= INTERLAYER_BYTES,
{
}

} // verus!
