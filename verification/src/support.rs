//! The decision logic split out of the device bootstrap: version selection,
//! layer support checks, memory-type selection, and SPIR-V word decoding.
//! The device enumeration calls that feed these stay with the caller; the
//! functions here work on the plain values those calls return.

use vstd::prelude::*;

verus! {

/// The packed version code for the graphics API's baseline revision
/// (variant 0, major 1, minor 0, patch 0).
pub const API_VERSION_1_0: u32 = 1u32 << 22;

/// Pick the version to initialize with: the requested one where the system
/// supports it, else the highest available; with no version report at all,
/// only the baseline may be assumed.
pub fn select_supported_api_version(requested: u32, available: Option<u32>) -> (v: u32)
    ensures
        v == (match available {
            Option::Some(a) => if requested > a {
                a
            } else {
                requested
            },
            Option::None => API_VERSION_1_0,
        }),
{
    match available {
        Some(a) => {
            if requested > a {
                a
            } else {
                requested
            }
        },
        None => API_VERSION_1_0,
    }
}

/// Is `name` among the available layer names?
pub open spec fn spec_layer_available(available: Seq<String>, name: Seq<char>) -> bool {
    exists|i: int| 0 <= i < available.len() && (#[trigger] available[i])@ == name
}

/// Check that every required layer is available; the first missing layer
/// name is reported.
pub fn check_support_layers(required: &Vec<String>, available: &Vec<String>) -> (r: Result<
    (),
    String,
>)
    ensures
        match r {
            Result::Ok(()) => forall|k: int|
                0 <= k < required@.len() ==> spec_layer_available(
                    available@,
                    (#[trigger] required@[k])@,
                ),
            Result::Err(name) => exists|k: int|
                0 <= k < required@.len() && name@ == (#[trigger] required@[k])@
                    && !spec_layer_available(available@, required@[k]@) && forall|k2: int|
                    0 <= k2 < k ==> spec_layer_available(available@, (#[trigger] required@[k2])@),
        },
{
    let mut k: usize = 0;
    while k < required.len()
        invariant
            k <= required@.len(),
            forall|k2: int|
                0 <= k2 < k ==> spec_layer_available(available@, (#[trigger] required@[k2])@),
        decreases required@.len() - k,
    {
        let wanted = &required[k];
        let mut found = false;
        let mut i: usize = 0;
        while i < available.len()
            invariant
                i <= available@.len(),
                found ==> spec_layer_available(available@, wanted@),
                !found ==> forall|i2: int| 0 <= i2 < i ==> (#[trigger] available@[i2])@ != wanted@,
            decreases available@.len() - i,
        {
            if available[i] == *wanted {
                proof {
                    assert(available@[i as int]@ == wanted@);
                }
                found = true;
            }
            i = i + 1;
        }
        if !found {
            return Err(wanted.clone());
        }
        k = k + 1;
    }
    Ok(())
}

/// The first memory type whose bit is set in `type_bits` and whose property
/// flags contain all of `flags`.
pub fn find_memorytype_index(type_bits: u32, type_flags: &Vec<u32>, flags: u32) -> (r: Option<u32>)
    requires
        type_flags@.len() <= 32,
    ensures
        match r {
            Option::Some(i) => {
                &&& (i as int) < type_flags@.len()
                &&& (type_bits >> (i as u32)) & 1u32 == 1u32
                &&& type_flags@[i as int] & flags == flags
                &&& forall|j: int|
                    0 <= j < i ==> !((type_bits >> (j as u32)) & 1u32 == 1u32 && (
                    #[trigger] type_flags@[j]) & flags == flags)
            },
            Option::None => forall|j: int|
                0 <= j < type_flags@.len() ==> !((type_bits >> (j as u32)) & 1u32 == 1u32 && (
                #[trigger] type_flags@[j]) & flags == flags),
        },
{
    let mut i: usize = 0;
    while i < type_flags.len()
        invariant
            i <= type_flags@.len(),
            type_flags@.len() <= 32,
            forall|j: int|
                0 <= j < i ==> !((type_bits >> (j as u32)) & 1u32 == 1u32 && (
                #[trigger] type_flags@[j]) & flags == flags),
        decreases type_flags@.len() - i,
    {
        if (type_bits >> (i as u32)) & 1u32 == 1u32 && type_flags[i] & flags == flags {
            return Some(i as u32);
        }
        i = i + 1;
    }
    None
}

/// One reported memory heap: its size and whether it is device-local.
#[derive(Clone, Copy, PartialEq, Eq, Structural, Debug)]
pub struct HeapInfo {
    pub size: u64,
    pub device_local: bool,
}

/// The summed size of the device-local heaps among the first `k`.
pub open spec fn spec_local_vram(heaps: Seq<HeapInfo>, k: int) -> int
    decreases k,
{
    if k <= 0 {
        0
    } else {
        spec_local_vram(heaps, k - 1) + (if heaps[k - 1].device_local {
            heaps[k - 1].size as int
        } else {
            0
        })
    }
}

/// Total size of the device-local memory heaps.
pub fn total_vram(heaps: &Vec<HeapInfo>) -> (total: u64)
    requires
        spec_local_vram(heaps@, heaps@.len() as int) <= u64::MAX,
    ensures
        total == spec_local_vram(heaps@, heaps@.len() as int),
{
    proof {
        lemma_local_vram_bounds(heaps@, heaps@.len() as int);
    }
    let mut total: u64 = 0;
    let mut k: usize = 0;
    while k < heaps.len()
        invariant
            k <= heaps@.len(),
            total == spec_local_vram(heaps@, k as int),
            spec_local_vram(heaps@, heaps@.len() as int) <= u64::MAX,
        decreases heaps@.len() - k,
    {
        proof {
            lemma_local_vram_monotonic(heaps@, (k + 1) as int, heaps@.len() as int);
            lemma_local_vram_bounds(heaps@, (k + 1) as int);
        }
        if heaps[k].device_local {
            total = total + heaps[k].size;
        }
        k = k + 1;
    }
    total
}

/// Partial sums of heap sizes never go negative.
proof fn lemma_local_vram_bounds(heaps: Seq<HeapInfo>, k: int)
    ensures
        spec_local_vram(heaps, k) >= 0,
    decreases k,
{
    if k > 0 {
        lemma_local_vram_bounds(heaps, k - 1);
    }
}

/// Partial sums of heap sizes grow with the prefix length.
proof fn lemma_local_vram_monotonic(heaps: Seq<HeapInfo>, k1: int, k2: int)
    requires
        0 <= k1 <= k2,
    ensures
        spec_local_vram(heaps, k1) <= spec_local_vram(heaps, k2),
    decreases k2 - k1,
{
    if k1 < k2 {
        lemma_local_vram_monotonic(heaps, k1, k2 - 1);
    }
}

/// Why a byte stream is not acceptable SPIR-V.
#[derive(Clone, Copy, PartialEq, Eq, Structural, Debug)]
pub enum ShaderError {
    /// The input length is not a multiple of the word size.
    Misaligned,
    /// The input does not start with the SPIR-V magic number.
    MissingMagic,
}

/// The little-endian 32-bit word at byte offset `4 * w`.
pub open spec fn spec_le_word(bytes: Seq<u8>, w: int) -> u32 {
    (bytes[4 * w] + bytes[4 * w + 1] * 0x100 + bytes[4 * w + 2] * 0x10000 + bytes[4 * w + 3]
        * 0x1000000) as u32
}

/// The big-endian 32-bit word at byte offset `4 * w`.
pub open spec fn spec_be_word(bytes: Seq<u8>, w: int) -> u32 {
    (bytes[4 * w + 3] + bytes[4 * w + 2] * 0x100 + bytes[4 * w + 1] * 0x10000 + bytes[4 * w]
        * 0x1000000) as u32
}

/// The SPIR-V magic number, in the module's own byte order.
pub const SPIRV_MAGIC: u32 = 0x0723_0203;

/// Decode a SPIR-V module into its 32-bit words, honouring the byte order
/// its magic number announces.  The input must be word-aligned and must
/// start with the magic number in either byte order.
pub fn read_shader_from_bytes(bytes: &[u8]) -> (r: Result<Vec<u32>, ShaderError>)
    ensures
        match r {
            Result::Ok(words) => {
                &&& bytes@.len() % 4 == 0
                &&& bytes@.len() >= 4
                &&& words@.len() == bytes@.len() / 4
                &&& words@[0] == SPIRV_MAGIC
                &&& (spec_le_word(bytes@, 0) == SPIRV_MAGIC ==> forall|w: int|
                    0 <= w < words@.len() ==> (#[trigger] words@[w]) == spec_le_word(bytes@, w))
                &&& (spec_le_word(bytes@, 0) != SPIRV_MAGIC ==> forall|w: int|
                    0 <= w < words@.len() ==> (#[trigger] words@[w]) == spec_be_word(bytes@, w))
            },
            Result::Err(ShaderError::Misaligned) => bytes@.len() % 4 != 0,
            Result::Err(ShaderError::MissingMagic) => {
                &&& bytes@.len() % 4 == 0
                &&& (bytes@.len() < 4 || (spec_le_word(bytes@, 0) != SPIRV_MAGIC && spec_be_word(
                    bytes@,
                    0,
                ) != SPIRV_MAGIC))
            },
        },
{
    if bytes.len() % 4 != 0 {
        return Err(ShaderError::Misaligned);
    }
    if bytes.len() < 4 {
        return Err(ShaderError::MissingMagic);
    }
    let w0_le = le_word_at(bytes, 0);
    let little_endian = if w0_le == SPIRV_MAGIC {
        true
    } else if be_word_at(bytes, 0) == SPIRV_MAGIC {
        false
    } else {
        return Err(ShaderError::MissingMagic);
    };
    let n_words = bytes.len() / 4;
    let mut words: Vec<u32> = Vec::new();
    let mut w: usize = 0;
    while w < n_words
        invariant
            n_words == bytes@.len() / 4,
            bytes@.len() % 4 == 0,
            bytes@.len() >= 4,
            w <= n_words,
            words@.len() == w,
            little_endian ==> spec_le_word(bytes@, 0) == SPIRV_MAGIC,
            !little_endian ==> spec_le_word(bytes@, 0) != SPIRV_MAGIC && spec_be_word(bytes@, 0)
                == SPIRV_MAGIC,
            little_endian ==> forall|w2: int|
                0 <= w2 < w ==> (#[trigger] words@[w2]) == spec_le_word(bytes@, w2),
            !little_endian ==> forall|w2: int|
                0 <= w2 < w ==> (#[trigger] words@[w2]) == spec_be_word(bytes@, w2),
        decreases n_words - w,
    {
        if little_endian {
            words.push(le_word_at(bytes, w));
        } else {
            words.push(be_word_at(bytes, w));
        }
        w = w + 1;
    }
    Ok(words)
}

/// Read one little-endian word.
fn le_word_at(bytes: &[u8], w: usize) -> (v: u32)
    requires
        4 * w + 4 <= bytes@.len(),
    ensures
        v == spec_le_word(bytes@, w as int),
{
    let n = bytes.len();
    proof {
        assert(4 * w + 4 <= n);
    }
    let b0 = bytes[4 * w] as u32;
    let b1 = bytes[4 * w + 1] as u32;
    let b2 = bytes[4 * w + 2] as u32;
    let b3 = bytes[4 * w + 3] as u32;
    b0 + b1 * 0x100 + b2 * 0x10000 + b3 * 0x1000000
}

/// Read one big-endian word.
fn be_word_at(bytes: &[u8], w: usize) -> (v: u32)
    requires
        4 * w + 4 <= bytes@.len(),
    ensures
        v == spec_be_word(bytes@, w as int),
{
    let n = bytes.len();
    proof {
        assert(4 * w + 4 <= n);
    }
    let b0 = bytes[4 * w] as u32;
    let b1 = bytes[4 * w + 1] as u32;
    let b2 = bytes[4 * w + 2] as u32;
    let b3 = bytes[4 * w + 3] as u32;
    b3 + b2 * 0x100 + b1 * 0x10000 + b0 * 0x1000000
}

} // verus!
