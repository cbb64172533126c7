//! Reading the loadable segments out of an ELF64 image.
//!
//! The kernel consumes a standard segment-table binary image: only
//! loadable program headers matter, and their flag bits map directly to
//! page permissions.  The reader works on raw little-endian bytes and
//! rejects an image whose magic, class or header table does not fit.

use vstd::prelude::*;

verus! {

/// Little-endian 16-bit value at offset `i` of `s`.
pub open spec fn le16(s: Seq<u8>, i: int) -> u64 {
    (s[i] + s[i + 1] * 0x100) as u64
}

/// Little-endian 32-bit value at offset `i` of `s`.
pub open spec fn le32(s: Seq<u8>, i: int) -> u64 {
    (le16(s, i) + le16(s, i + 2) * 0x1_0000) as u64
}

/// Little-endian 64-bit value at offset `i` of `s`.
pub open spec fn le64(s: Seq<u8>, i: int) -> u64 {
    (le32(s, i) + le32(s, i + 4) * 0x1_0000_0000) as u64
}

/// The file starts with the ELF magic and declares a 64-bit image.
pub open spec fn elf_header_ok(s: Seq<u8>) -> bool {
    &&& s.len() >= 64
    &&& s[0] == 0x7fu8
    &&& s[1] == 0x45u8
    &&& s[2] == 0x4cu8
    &&& s[3] == 0x46u8
    &&& s[4] == 2u8
}

/// Entry-point virtual address of the image.
pub open spec fn elf_entry(s: Seq<u8>) -> u64 {
    le64(s, 24)
}

/// Offset of the program-header table.
pub open spec fn elf_ph_off(s: Seq<u8>) -> u64 {
    le64(s, 32)
}

/// Size of one program-header entry.
pub open spec fn elf_ph_entsize(s: Seq<u8>) -> u64 {
    le16(s, 54)
}

/// Number of program-header entries.
pub open spec fn elf_ph_count(s: Seq<u8>) -> u64 {
    le16(s, 56)
}

/// Offset of the `i`-th program header.
pub open spec fn ph_base(s: Seq<u8>, i: int) -> int {
    elf_ph_off(s) + i * elf_ph_entsize(s)
}

/// The `i`-th program header lies fully inside the file.
pub open spec fn ph_in_bounds(s: Seq<u8>, i: int) -> bool {
    elf_ph_entsize(s) >= 56 && ph_base(s, i) + 56 <= s.len()
}

/// One loadable segment as the kernel consumes it.
#[derive(Debug, Copy, Clone, PartialEq, Eq, Structural)]
pub struct LoadSegment {
    /// Virtual address the segment is loaded at.
    pub vaddr: u64,
    /// Size of the segment in memory, in bytes.
    pub mem_size: u64,
    /// Offset of the segment's bytes in the file.
    pub offset: u64,
    /// Number of bytes the file supplies; the rest is zero-filled.
    pub file_size: u64,
    /// Raw segment flag bits: executable 0x1, writable 0x2, readable 0x4.
    pub flags: u64,
}

/// The `i`-th program header read as a segment record.
pub open spec fn seg_at(s: Seq<u8>, i: int) -> LoadSegment {
    LoadSegment {
        vaddr: le64(s, ph_base(s, i) + 16),
        mem_size: le64(s, ph_base(s, i) + 40),
        offset: le64(s, ph_base(s, i) + 8),
        file_size: le64(s, ph_base(s, i) + 32),
        flags: le32(s, ph_base(s, i) + 4),
    }
}

/// Whether the `i`-th program header is a loadable segment.
pub open spec fn is_load(s: Seq<u8>, i: int) -> bool {
    le32(s, ph_base(s, i)) == 1
}

/// The loadable segments among the first `n` program headers, in table
/// order.
pub open spec fn load_segs_upto(s: Seq<u8>, n: int) -> Seq<LoadSegment>
    decreases n,
{
    if n <= 0 {
        Seq::empty()
    } else {
        if is_load(s, n - 1) {
            load_segs_upto(s, n - 1).push(seg_at(s, n - 1))
        } else {
            load_segs_upto(s, n - 1)
        }
    }
}

/// Why an image was rejected.
#[derive(Debug, Copy, Clone, PartialEq, Eq, Structural)]
pub enum ElfError {
    /// The file is shorter than an ELF64 header, the magic number is
    /// wrong, or the class is not 64-bit.
    BadHeader,
    /// A program header lies outside the file.
    BadProgramHeader,
}

/// Entry point and loadable segments of the image.
#[derive(Debug, Clone, PartialEq, Eq)]
pub struct ElfImage {
    pub entry_point: u64,
    pub segments: Vec<LoadSegment>,
}

/// Read the little-endian 16-bit value at `off`.
fn read_u16(data: &Vec<u8>, off: usize) -> (r: u64)
    requires
        off + 2 <= data@.len(),
    ensures
        r == le16(data@, off as int),
        r < 0x1_0000,
{
    let n = data.len();
    proof {
        assert(off + 2 <= n);
    }
    data[off] as u64 + data[off + 1] as u64 * 0x100
}

/// Read the little-endian 32-bit value at `off`.
fn read_u32(data: &Vec<u8>, off: usize) -> (r: u64)
    requires
        off + 4 <= data@.len(),
    ensures
        r == le32(data@, off as int),
        r < 0x1_0000_0000,
{
    let n = data.len();
    proof {
        assert(off + 4 <= n);
    }
    read_u16(data, off) + read_u16(data, off + 2) * 0x1_0000
}

/// Read the little-endian 64-bit value at `off`.
fn read_u64(data: &Vec<u8>, off: usize) -> (r: u64)
    requires
        off + 8 <= data@.len(),
    ensures
        r == le64(data@, off as int),
{
    let n = data.len();
    proof {
        assert(off + 8 <= n);
    }
    let lo = read_u32(data, off);
    let hi = read_u32(data, off + 4);
    proof {
        assert(lo + hi * 0x1_0000_0000 <= 0xffff_ffff_ffff_ffff) by (nonlinear_arith)
            requires
                lo < 0x1_0000_0000,
                hi < 0x1_0000_0000,
        ;
    }
    lo + hi * 0x1_0000_0000
}

/// Parse the image: check the magic and class, then collect every
/// loadable segment of the program-header table, which must lie fully
/// inside the file.
pub fn parse_elf(data: &Vec<u8>) -> (r: Result<ElfImage, ElfError>)
    ensures
        r is Ok <==> elf_header_ok(data@) && (forall|i: int|
            0 <= i < elf_ph_count(data@) ==> ph_in_bounds(data@, i)),
        r matches Err(e) && e == ElfError::BadHeader <==> !elf_header_ok(data@),
        r matches Ok(img) ==> img.entry_point == elf_entry(data@) && img.segments@
            == load_segs_upto(data@, elf_ph_count(data@) as int),
{
    let n = data.len();
    if n < 64 {
        return Err(ElfError::BadHeader);
    }
    if !(data[0] == 0x7f && data[1] == 0x45 && data[2] == 0x4c && data[3] == 0x46
        && data[4] == 2) {
        return Err(ElfError::BadHeader);
    }
    let entry_point = read_u64(data, 24);
    let ph_off = read_u64(data, 32);
    let ph_entsize = read_u16(data, 54);
    let ph_count = read_u16(data, 56);
    let mut segments: Vec<LoadSegment> = Vec::new();
    let mut i: u64 = 0;
    while i < ph_count
        invariant
            data@.len() == n,
            n >= 64,
            elf_header_ok(data@),
            entry_point == elf_entry(data@),
            ph_off == elf_ph_off(data@),
            ph_entsize == elf_ph_entsize(data@),
            ph_count == elf_ph_count(data@),
            ph_count < 0x1_0000,
            i <= ph_count,
            forall|k: int| 0 <= k < i ==> ph_in_bounds(data@, k),
            segments@ == load_segs_upto(data@, i as int),
        decreases ph_count - i,
    {
        if ph_entsize < 56 {
            proof {
                assert(!ph_in_bounds(data@, i as int));
            }
            return Err(ElfError::BadProgramHeader);
        }
        proof {
            assert(i * ph_entsize < 0x1_0000_0000) by (nonlinear_arith)
                requires
                    0 <= i < 0x1_0000,
                    0 <= ph_entsize < 0x1_0000,
            ;
        }
        // the header's offset, computed without overflow
        if ph_off > u64::MAX - i * ph_entsize {
            proof {
                assert(ph_base(data@, i as int) + 56 > data@.len());
                assert(!ph_in_bounds(data@, i as int));
            }
            return Err(ElfError::BadProgramHeader);
        }
        let base = ph_off + i * ph_entsize;
        if base > n as u64 - 56 || n < 56 {
            proof {
                assert(!ph_in_bounds(data@, i as int));
            }
            return Err(ElfError::BadProgramHeader);
        }
        proof {
            assert(base + 56 <= n);
            assert(ph_in_bounds(data@, i as int));
        }
        let b = base as usize;
        let p_type = read_u32(data, b);
        if p_type == 1 {
            let seg = LoadSegment {
                vaddr: read_u64(data, b + 16),
                mem_size: read_u64(data, b + 40),
                offset: read_u64(data, b + 8),
                file_size: read_u64(data, b + 32),
                flags: read_u32(data, b + 4),
            };
            segments.push(seg);
            proof {
                assert(is_load(data@, i as int));
                assert(seg == seg_at(data@, i as int));
                assert(segments@ == load_segs_upto(data@, i + 1));
            }
        } else {
            proof {
                assert(!is_load(data@, i as int));
                assert(segments@ == load_segs_upto(data@, i + 1));
            }
        }
        i = i + 1;
    }
    Ok(ElfImage { entry_point, segments })
}

} // verus!
