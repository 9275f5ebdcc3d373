//! Where the game's functions and globals are: found by searching the code
//! section for byte patterns and decoding the AArch64 instructions there.
use vstd::prelude::*;

verus! {


pub const FILESYSTEM_INFO_ADRP_SEARCH_CODE: [u8; 12] = [0xf3, 0x03, 0x00, 0xaa, 0x1f, 0x01, 0x09, 0x6b, 0xe0, 0x04, 0x00, 0x54];

pub const RES_SERVICE_ADRP_SEARCH_CODE: [u8; 16] = [
    0x04, 0x01, 0x49, 0xfa, 0x21, 0x05, 0x00, 0x54, 0x5f, 0x00, 0x00, 0xf9, 0x7f, 0x00, 0x00, 0xf9,
];

pub const LOOKUP_STREAM_HASH_SEARCH_CODE: [u8; 24] = [
    0x29, 0x58, 0x40, 0xf9, 0x28, 0x60, 0x40, 0xf9, 0x2a, 0x05, 0x40, 0xb9, 0x09, 0x0d, 0x0a, 0x8b, 0xaa, 0x01, 0x00, 0x34, 0x5f, 0x01, 0x00, 0xf1,
];

pub const TITLE_SCREEN_VERSION_SEARCH_CODE: [u8; 28] = [
    0xfc, 0x0f, 0x1d, 0xf8, 0xf4, 0x4f, 0x01, 0xa9, 0xfd, 0x7b, 0x02, 0xa9, 0xfd, 0x83, 0x00, 0x91, 0xff, 0x07, 0x40, 0xd1, 0xf4, 0x03, 0x01, 0xaa,
    0xf3, 0x03, 0x00, 0xaa,
];

pub const ESHOPMANAGER_SHOW_SEARCH_CODE: [u8; 16] = [
    0x08, 0xe1, 0x43, 0xf9, 0x14, 0x05, 0x40, 0xf9, 0x88, 0x22, 0x44, 0x39, 0x08, 0x04, 0x00, 0x35,
];

pub const INFLATE_SEARCH_CODE: [u8; 20] = [
    0x4b, 0x00, 0x1b, 0x0b, 0x00, 0x01, 0x1f, 0xd6, 0x68, 0x6a, 0x40, 0xf9, 0x09, 0x3d, 0x40, 0xf9, 0x2c, 0x01, 0x40, 0xf9,
];

pub const MEMCPY_1_SEARCH_CODE: [u8; 16] = [
    0xf5, 0x1f, 0x40, 0xb9, 0xa7, 0x00, 0x00, 0x14, 0xe2, 0xa3, 0x00, 0x91, 0xe4, 0xc3, 0x00, 0x91,
];

pub const MEMCPY_2_SEARCH_CODE: [u8; 20] = [
    0xf8, 0x1b, 0x40, 0xf9, 0x1f, 0x03, 0x15, 0xeb, 0xa2, 0x2a, 0x00, 0x54, 0x96, 0x03, 0x18, 0x8b, 0x68, 0x1a, 0x40, 0xf9,
];

pub const MEMCPY_3_SEARCH_CODE: [u8; 20] = [
    0xe8, 0x03, 0x18, 0xaa, 0xf8, 0x1b, 0x40, 0xf9, 0xd6, 0x02, 0x18, 0x8b, 0xbf, 0x02, 0x18, 0xeb, 0x88, 0xfb, 0xff, 0x54,
];

pub const INFLATE_DIR_FILE_SEARCH_CODE: [u8; 36] = [
    0xfc, 0x6f, 0xba, 0xa9, 0xfa, 0x67, 0x01, 0xa9, 0xf8, 0x5f, 0x02, 0xa9, 0xf6, 0x57, 0x03, 0xa9, 0xf4, 0x4f, 0x04, 0xa9, 0xfd, 0x7b, 0x05, 0xa9,
    0xfd, 0x43, 0x01, 0x91, 0xff, 0x03, 0x07, 0xd1, 0x4c, 0xb4, 0x40, 0xa9,
];

pub const MANUAL_OPEN_SEARCH_CODE: [u8; 16] = [
    0xfc, 0x4f, 0xbe, 0xa9, 0xfd, 0x7b, 0x01, 0xa9, 0xfd, 0x43, 0x00, 0x91, 0xff, 0x0f, 0x40, 0xd1,
];

pub const INITIAL_LOADING_SEARCH_CODE: [u8; 20] = [
    0x08, 0x3f, 0x40, 0xf9, 0x08, 0x01, 0x40, 0xf9, 0x08, 0x21, 0x40, 0xf9, 0x08, 0x3d, 0x40, 0xb9, 0x08, 0x5d, 0x00, 0x12,
];

pub const PROCESS_RESOURCE_NODE_SEARCH_CODE: [u8; 24] = [
    0x5f, 0x05, 0x00, 0x31, 0xea, 0x03, 0x8a, 0x1a, 0x29, 0x01, 0x0a, 0x0b, 0x29, 0x05, 0x00, 0x11, 0x6a, 0x3f, 0x40, 0xf9, 0x29, 0x21, 0xad, 0x9b,
];

pub const RES_LOAD_LOOP_START_SEARCH_CODE: [u8; 24] = [
    0x2a, 0x05, 0x09, 0x8b, 0x6e, 0x62, 0x01, 0x91, 0xdf, 0x01, 0x1b, 0xeb, 0x4d, 0xf1, 0x7d, 0xd3, 0xca, 0x01, 0x0d, 0x8b, 0x6d, 0x03, 0x0d, 0x8b,
];

pub const RES_LOAD_LOOP_REFRESH_SEARCH_CODE: [u8; 20] = [
    0x68, 0x32, 0x40, 0xf9, 0xee, 0x1b, 0x40, 0xf9, 0xdf, 0x01, 0x08, 0xeb, 0xec, 0x3f, 0x40, 0xf9, 0xed, 0x37, 0x40, 0xf9,
];

/// `i` is the first place where `needle` occurs in `haystack`.
pub open spec fn is_first_match(haystack: Seq<u8>, needle: Seq<u8>, i: int) -> bool {
    &&& 0 <= i && i + needle.len() <= haystack.len()
    &&& haystack.subrange(i, i + needle.len()) == needle
    &&& forall|j: int| 0 <= j < i ==> #[trigger] haystack.subrange(j, j + needle.len()) != needle
}

/// The first place where `needle` occurs in `haystack`, if it occurs.
pub open spec fn first_match(haystack: Seq<u8>, needle: Seq<u8>) -> Option<int> {
    if exists|i: int| is_first_match(haystack, needle, i) {
        Some(choose|i: int| is_first_match(haystack, needle, i))
    } else {
        None
    }
}

proof fn lemma_first_match_unique(h: Seq<u8>, n: Seq<u8>, i: int, j: int)
    requires
        is_first_match(h, n, i),
        is_first_match(h, n, j),
    ensures
        i == j,
{
    if i < j {
        assert(h.subrange(i, i + n.len()) != n);
    } else if j < i {
        assert(h.subrange(j, j + n.len()) != n);
    }
}

fn bytes_eq_at(haystack: &[u8], i: usize, needle: &[u8]) -> (r: bool)
    requires
        i + needle@.len() <= haystack@.len(),
    ensures
        r == (haystack@.subrange(i as int, i + needle@.len()) == needle@),
{
    let mut k: usize = 0;
    while k < needle.len()
        invariant
            i + needle@.len() <= haystack@.len(),
            haystack@.len() == haystack.len(),
            needle@.len() == needle.len(),
            k <= needle@.len(),
            forall|m: int| 0 <= m < k ==> haystack@[i + m] == needle@[m],
        decreases needle@.len() - k,
    {
        if haystack[i + k] != needle[k] {
            proof {
                assert(haystack@.subrange(i as int, i + needle@.len())[k as int] != needle@[k as int]);
            }
            return false;
        }
        k = k + 1;
    }
    assert(haystack@.subrange(i as int, i + needle@.len()) =~= needle@);
    true
}

/// The first place where `needle` occurs in `haystack`.
pub fn find_subsequence(haystack: &[u8], needle: &[u8]) -> (r: Option<usize>)
    requires
        needle@.len() > 0,
    ensures
        match first_match(haystack@, needle@) {
            Some(i) => r == Some(i as usize),
            None => r is None,
        },
{
    if needle.len() > haystack.len() {
        proof {
            assert(!exists|i: int| is_first_match(haystack@, needle@, i));
        }
        return None;
    }
    let last = haystack.len() - needle.len();
    let mut i: usize = 0;
    loop
        invariant
            needle@.len() <= haystack@.len(),
            last == haystack@.len() - needle@.len(),
            i <= last,
            forall|j: int| 0 <= j < i ==> #[trigger] haystack@.subrange(j, j + needle@.len()) != needle@,
        ensures
            forall|j: int| 0 <= j <= last ==> #[trigger] haystack@.subrange(j, j + needle@.len()) != needle@,
        decreases last - i,
    {
        if bytes_eq_at(haystack, i, needle) {
            proof {
                assert(is_first_match(haystack@, needle@, i as int));
                let k = choose|k: int| is_first_match(haystack@, needle@, k);
                lemma_first_match_unique(haystack@, needle@, i as int, k);
            }
            return Some(i);
        }
        if i == last {
            break;
        }
        i = i + 1;
    }
    proof {
        assert(!exists|k: int| is_first_match(haystack@, needle@, k));
    }
    None
}

/// The little-endian 32-bit word at `at`.
pub open spec fn word_at(text: Seq<u8>, at: int) -> u32 {
    (text[at] as int + text[at + 1] as int * 0x100 + text[at + 2] as int * 0x1_0000 + text[at + 3] as int * 0x100_0000) as u32
}

fn read_word(text: &[u8], at: usize) -> (r: u32)
    requires
        at + 4 <= text@.len(),
    ensures
        r == word_at(text@, at as int),
{
    let b0 = text[at] as u32;
    let b1 = text[at + 1] as u32;
    let b2 = text[at + 2] as u32;
    let b3 = text[at + 3] as u32;
    let r = b0 | (b1 << 8u32) | (b2 << 16u32) | (b3 << 24u32);
    assert(r == b0 + b1 * 0x100 + b2 * 0x1_0000 + b3 * 0x100_0000) by (bit_vector)
        requires
            b0 < 0x100, b1 < 0x100, b2 < 0x100, b3 < 0x100,
            r == b0 | (b1 << 8u32) | (b2 << 16u32) | (b3 << 24u32);
    r
}

/// The displacement that an `ADRP` instruction encodes, as this loader reads
/// it: the 21-bit immediate (`immhi:immlo`) shifted left by 12 and taken as a
/// signed 32-bit value.
pub open spec fn adrp_displacement(insn: u32) -> int {
    let immhi = (insn as int / 0x20) % 0x8_0000;
    let immlo = (insn as int / 0x2000_0000) % 4;
    let low = ((immhi * 4 + immlo) * 0x1000) % 0x1_0000_0000;
    if low >= 0x8000_0000 {
        low - 0x1_0000_0000
    } else {
        low
    }
}

/// Where the `ADRP` instruction at `adrp_offset` points: its 4 KiB page plus
/// the displacement, modulo 2^64.
pub open spec fn spec_offset_from_adrp(text: Seq<u8>, adrp_offset: int) -> usize {
    let page = adrp_offset - adrp_offset % 0x1000;
    ((page + adrp_displacement(word_at(text, adrp_offset))) % 0x1_0000_0000_0000_0000) as usize
}

/// The byte offset that an `LDR` (unsigned offset) instruction encodes: its
/// 12-bit immediate scaled by the access size.
pub open spec fn spec_offset_from_ldr(text: Seq<u8>, ldr_offset: int) -> usize {
    let insn = word_at(text, ldr_offset) as int;
    let size = insn / 0x4000_0000;
    let imm = (insn / 0x400) % 0x1000;
    (imm * vstd::arithmetic::power2::pow2(size as nat)) as usize
}

fn offset_from_adrp(text: &[u8], adrp_offset: usize) -> (r: usize)
    requires
        adrp_offset + 4 <= text@.len(),
    ensures
        r == spec_offset_from_adrp(text@, adrp_offset as int),
{
    let adrp = read_word(text, adrp_offset);
    let immhi = (adrp & 0b0000_0000_1111_1111_1111_1111_1110_0000u32) >> 3u32;
    let immlo = (adrp & 0b0110_0000_0000_0000_0000_0000_0000_0000u32) >> 29u32;
    let low: u32 = (immhi | immlo) << 12u32;
    let imm: u64 = if low >= 0x8000_0000 { (low as u64) + 0xFFFF_FFFF_0000_0000u64 } else { low as u64 };
    let base: u64 = (adrp_offset as u64) & 0xFFFF_FFFF_FFFF_F000u64;
    let sum: u64 = base.wrapping_add(imm);
    proof {
        let a = adrp;
        assert(immhi | immlo == ((a / 0x20) % 0x8_0000) * 4 + (a / 0x2000_0000) % 4) by (bit_vector)
            requires
                immhi == (a & 0b0000_0000_1111_1111_1111_1111_1110_0000u32) >> 3u32,
                immlo == (a & 0b0110_0000_0000_0000_0000_0000_0000_0000u32) >> 29u32;
        let v = immhi | immlo;
        assert(low == (v as int * 0x1000) % 0x1_0000_0000) by (bit_vector)
            requires low == v << 12u32;
        let o = adrp_offset as u64;
        assert(base == o - o % 0x1000) by (bit_vector)
            requires base == o & 0xFFFF_FFFF_FFFF_F000u64;
    }
    sum as usize
}

fn offset_from_ldr(text: &[u8], ldr_offset: usize) -> (r: usize)
    requires
        ldr_offset + 4 <= text@.len(),
    ensures
        r == spec_offset_from_ldr(text@, ldr_offset as int),
{
    let ldr = read_word(text, ldr_offset);
    let size = (ldr & 0b1100_0000_0000_0000_0000_0000_0000_0000u32) >> 30u32;
    let imm = (ldr & 0b0000_0000_0011_1111_1111_1100_0000_0000u32) >> 10u32;
    proof {
        assert(size == ldr / 0x4000_0000 && size < 4) by (bit_vector)
            requires size == (ldr & 0b1100_0000_0000_0000_0000_0000_0000_0000u32) >> 30u32;
        assert(imm == (ldr / 0x400) % 0x1000) by (bit_vector)
            requires imm == (ldr & 0b0000_0000_0011_1111_1111_1100_0000_0000u32) >> 10u32;
    }
    let r = (imm as usize) << (size as usize);
    proof {
        let i = imm as usize;
        let s = size as usize;
        vstd::arithmetic::power2::lemma2_to64();
        assert(r == i * vstd::arithmetic::power2::pow2(s as nat)) by {
            if s == 0 {
                assert(r == i) by (bit_vector) requires r == i << 0usize;
            } else if s == 1 {
                assert(r == i * 2) by (bit_vector) requires r == i << 1usize, i < 0x1000;
            } else if s == 2 {
                assert(r == i * 4) by (bit_vector) requires r == i << 2usize, i < 0x1000;
            } else {
                assert(r == i * 8) by (bit_vector) requires r == i << 3usize, i < 0x1000;
            }
        }
    }
    r
}

/// Where the game's hooked functions and globals are, as offsets into its
/// code section.
pub struct Offsets {
    pub lookup_stream_hash: usize,
    pub inflate: usize,
    pub memcpy_1: usize,
    pub memcpy_2: usize,
    pub memcpy_3: usize,
    pub inflate_dir_file: usize,
    pub manual_open: usize,
    pub initial_loading: usize,
    pub process_resource_node: usize,
    pub res_load_loop_start: usize,
    pub res_load_loop_refresh: usize,
    pub title_screen_version: usize,
    pub eshop_button: usize,
    pub filesystem_info: usize,
    pub res_service: usize,
}

/// The code section holds every pattern, the found places leave room for
/// the adjustments made to them, and the instructions read after the two
/// `ADRP` patterns lie inside the section.
pub open spec fn offsets_findable(text: Seq<u8>) -> bool {
    &&& first_match(text, LOOKUP_STREAM_HASH_SEARCH_CODE@) is Some
    &&& first_match(text, INFLATE_SEARCH_CODE@) is Some
    &&& first_match(text, MEMCPY_1_SEARCH_CODE@) matches Some(i) && i >= 4
    &&& first_match(text, MEMCPY_2_SEARCH_CODE@) matches Some(i) && i >= 4
    &&& first_match(text, MEMCPY_3_SEARCH_CODE@) matches Some(i) && i >= 4
    &&& first_match(text, INFLATE_DIR_FILE_SEARCH_CODE@) is Some
    &&& first_match(text, MANUAL_OPEN_SEARCH_CODE@) is Some
    &&& first_match(text, INITIAL_LOADING_SEARCH_CODE@) is Some
    &&& first_match(text, PROCESS_RESOURCE_NODE_SEARCH_CODE@) is Some
    &&& first_match(text, RES_LOAD_LOOP_START_SEARCH_CODE@) is Some
    &&& first_match(text, RES_LOAD_LOOP_REFRESH_SEARCH_CODE@) is Some
    &&& first_match(text, TITLE_SCREEN_VERSION_SEARCH_CODE@) is Some
    &&& first_match(text, ESHOPMANAGER_SHOW_SEARCH_CODE@) matches Some(i) && i >= 16
    &&& first_match(text, FILESYSTEM_INFO_ADRP_SEARCH_CODE@) matches Some(i) && i + 12 + 8 <= text.len()
    &&& first_match(text, RES_SERVICE_ADRP_SEARCH_CODE@) matches Some(i) && i + 16 + 8 <= text.len()
}

/// The address an `ADRP` + `LDR` pair at `at` refers to.
pub open spec fn spec_adrp_ldr(text: Seq<u8>, at: int) -> usize {
    ((spec_offset_from_adrp(text, at) as int + spec_offset_from_ldr(text, at + 4) as int) % (usize::MAX as int + 1)) as usize
}

fn adrp_ldr_at(text: &[u8], at: usize) -> (r: usize)
    requires
        at + 8 <= text@.len(),
    ensures
        r == spec_adrp_ldr(text@, at as int),
{
    let _n = text.len();
    let adrp_offset = offset_from_adrp(text, at);
    let ldr_offset = offset_from_ldr(text, at + 4);
    adrp_offset.wrapping_add(ldr_offset)
}

fn find_required(text: &[u8], needle: &[u8]) -> (r: usize)
    requires
        needle@.len() > 0,
        first_match(text@, needle@) is Some,
    ensures
        first_match(text@, needle@) == Some(r as int),
        r + needle@.len() <= text@.len(),
{
    let n = text.len();
    let ghost k = choose|k: int| is_first_match(text@, needle@, k);
    proof {
        assert(is_first_match(text@, needle@, k));
        assert(first_match(text@, needle@) == Some(k));
        assert(k + needle@.len() <= n);
    }
    match find_subsequence(text, needle) {
        Some(i) => {
            assert(i as int == k);
            i
        },
        None => 0,
    }
}

impl Offsets {
    /// Finds every offset in the code section.
    #[verifier::rlimit(40)]
    pub fn new(text: &[u8]) -> (r: Offsets)
        requires
            offsets_findable(text@),
        ensures
            r.lookup_stream_hash as int == first_match(text@, LOOKUP_STREAM_HASH_SEARCH_CODE@).unwrap(),
            r.inflate as int == first_match(text@, INFLATE_SEARCH_CODE@).unwrap(),
            r.memcpy_1 as int == first_match(text@, MEMCPY_1_SEARCH_CODE@).unwrap() - 4,
            r.memcpy_2 as int == first_match(text@, MEMCPY_2_SEARCH_CODE@).unwrap() - 4,
            r.memcpy_3 as int == first_match(text@, MEMCPY_3_SEARCH_CODE@).unwrap() - 4,
            r.inflate_dir_file as int == first_match(text@, INFLATE_DIR_FILE_SEARCH_CODE@).unwrap(),
            r.manual_open as int == first_match(text@, MANUAL_OPEN_SEARCH_CODE@).unwrap(),
            r.initial_loading as int == first_match(text@, INITIAL_LOADING_SEARCH_CODE@).unwrap(),
            r.process_resource_node as int == first_match(text@, PROCESS_RESOURCE_NODE_SEARCH_CODE@).unwrap() + 0xC,
            r.res_load_loop_start as int == first_match(text@, RES_LOAD_LOOP_START_SEARCH_CODE@).unwrap(),
            r.res_load_loop_refresh as int == first_match(text@, RES_LOAD_LOOP_REFRESH_SEARCH_CODE@).unwrap(),
            r.title_screen_version as int == first_match(text@, TITLE_SCREEN_VERSION_SEARCH_CODE@).unwrap(),
            r.eshop_button as int == first_match(text@, ESHOPMANAGER_SHOW_SEARCH_CODE@).unwrap() - 16,
            r.filesystem_info == spec_adrp_ldr(text@, first_match(text@, FILESYSTEM_INFO_ADRP_SEARCH_CODE@).unwrap() + 12),
            r.res_service == spec_adrp_ldr(text@, first_match(text@, RES_SERVICE_ADRP_SEARCH_CODE@).unwrap() + 16),
    {
        let text_len = text.len();
        let lookup_stream_hash = find_required(text, &LOOKUP_STREAM_HASH_SEARCH_CODE);
        let inflate = find_required(text, &INFLATE_SEARCH_CODE);
        let memcpy_1 = find_required(text, &MEMCPY_1_SEARCH_CODE) - 4;
        let memcpy_2 = find_required(text, &MEMCPY_2_SEARCH_CODE) - 4;
        let memcpy_3 = find_required(text, &MEMCPY_3_SEARCH_CODE) - 4;
        let inflate_dir_file = find_required(text, &INFLATE_DIR_FILE_SEARCH_CODE);
        let manual_open = find_required(text, &MANUAL_OPEN_SEARCH_CODE);
        let initial_loading = find_required(text, &INITIAL_LOADING_SEARCH_CODE);
        let prn = find_required(text, &PROCESS_RESOURCE_NODE_SEARCH_CODE);
        assert(PROCESS_RESOURCE_NODE_SEARCH_CODE@.len() == 24);
        let process_resource_node = prn + 0xC;
        let res_load_loop_start = find_required(text, &RES_LOAD_LOOP_START_SEARCH_CODE);
        let res_load_loop_refresh = find_required(text, &RES_LOAD_LOOP_REFRESH_SEARCH_CODE);
        let title_screen_version = find_required(text, &TITLE_SCREEN_VERSION_SEARCH_CODE);
        let eshop_button = find_required(text, &ESHOPMANAGER_SHOW_SEARCH_CODE) - 16;

        let fs_found = find_required(text, &FILESYSTEM_INFO_ADRP_SEARCH_CODE);
        let filesystem_info = adrp_ldr_at(text, fs_found + 12);
        let rs_found = find_required(text, &RES_SERVICE_ADRP_SEARCH_CODE);
        let res_service = adrp_ldr_at(text, rs_found + 16);

        Offsets {
            lookup_stream_hash,
            inflate,
            memcpy_1,
            memcpy_2,
            memcpy_3,
            inflate_dir_file,
            manual_open,
            initial_loading,
            process_resource_node,
            res_load_loop_start,
            res_load_loop_refresh,
            title_screen_version,
            eshop_button,
            filesystem_info,
            res_service,
        }
    }
}

pub fn initial_loading(offsets: &Offsets) -> (r: usize)
    ensures
        r == offsets.initial_loading,
{
    offsets.initial_loading
}

pub fn filesystem_info(offsets: &Offsets) -> (r: usize)
    ensures
        r == offsets.filesystem_info,
{
    offsets.filesystem_info
}

pub fn res_service(offsets: &Offsets) -> (r: usize)
    ensures
        r == offsets.res_service,
{
    offsets.res_service
}

pub fn inflate(offsets: &Offsets) -> (r: usize)
    ensures
        r == offsets.inflate,
{
    offsets.inflate
}

pub fn inflate_dir_file(offsets: &Offsets) -> (r: usize)
    ensures
        r == offsets.inflate_dir_file,
{
    offsets.inflate_dir_file
}

pub fn memcpy_1(offsets: &Offsets) -> (r: usize)
    ensures
        r == offsets.memcpy_1,
{
    offsets.memcpy_1
}

pub fn memcpy_2(offsets: &Offsets) -> (r: usize)
    ensures
        r == offsets.memcpy_2,
{
    offsets.memcpy_2
}

pub fn memcpy_3(offsets: &Offsets) -> (r: usize)
    ensures
        r == offsets.memcpy_3,
{
    offsets.memcpy_3
}

pub fn res_load_loop_start(offsets: &Offsets) -> (r: usize)
    ensures
        r == offsets.res_load_loop_start,
{
    offsets.res_load_loop_start
}

pub fn res_load_loop_refresh(offsets: &Offsets) -> (r: usize)
    ensures
        r == offsets.res_load_loop_refresh,
{
    offsets.res_load_loop_refresh
}

pub fn title_screen_version(offsets: &Offsets) -> (r: usize)
    ensures
        r == offsets.title_screen_version,
{
    offsets.title_screen_version
}

pub fn eshop_show(offsets: &Offsets) -> (r: usize)
    ensures
        r == offsets.eshop_button,
{
    offsets.eshop_button
}

pub fn lookup_stream_hash(offsets: &Offsets) -> (r: usize)
    ensures
        r == offsets.lookup_stream_hash,
{
    offsets.lookup_stream_hash
}

} // verus!
