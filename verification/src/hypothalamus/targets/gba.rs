//! Game Boy Advance ROM images: the cartridge header, and the ROM bytes that
//! the loadable segments of a linked ELF32 file place above the ROM origin.

use vstd::prelude::*;
use crate::hypothalamus::driver::CompilerConfig;
use crate::hypothalamus::target::RuntimeAbi;

verus! {

broadcast use vstd::seq_lib::group_seq_properties;

/// Size of the GBA cartridge header.
pub const HEADER_SIZE: usize = 0xC0;

/// Default GBA ROM title written into the header.
pub const ROM_TITLE: [u8; 12] = [0x48, 0x59, 0x50, 0x4F, 0x54, 0x48, 0x41, 0x4C, 0x41, 0x4D, 0x20, 0x20];

/// Default GBA game code written into the header.
pub const GAME_CODE: [u8; 4] = [0x48, 0x59, 0x42, 0x46];

/// Default GBA maker code written into the header.
pub const MAKER_CODE: [u8; 2] = [0x30, 0x30];

/// The branch over the header that starts every ROM, little-endian.
const ENTRY_BRANCH: [u8; 4] = [0x2E, 0x00, 0x00, 0xEA];

/// Where the cartridge ROM is mapped.
pub const ROM_ORIGIN: u32 = 0x0800_0000;

/// The largest cartridge ROM.
pub const MAX_ROM_SIZE: usize = 33554432;

/// The program header type of a loadable segment.
pub const PT_LOAD: u32 = 1;

/// The logo the boot ROM checks.
const NINTENDO_LOGO: [u8; 156] = [
    0x24, 0xFF, 0xAE, 0x51, 0x69, 0x9A, 0xA2, 0x21, 0x3D, 0x84, 0x82, 0x0A, 0x84, 0xE4, 0x09, 0xAD,
    0x11, 0x24, 0x8B, 0x98, 0xC0, 0x81, 0x7F, 0x21, 0xA3, 0x52, 0xBE, 0x19, 0x93, 0x09, 0xCE, 0x20,
    0x10, 0x46, 0x4A, 0x4A, 0xF8, 0x27, 0x31, 0xEC, 0x58, 0xC7, 0xE8, 0x33, 0x82, 0xE3, 0xCE, 0xBF,
    0x85, 0xF4, 0xDF, 0x94, 0xCE, 0x4B, 0x09, 0xC1, 0x94, 0x56, 0x8A, 0xC0, 0x13, 0x72, 0xA7, 0xFC,
    0x9F, 0x84, 0x4D, 0x73, 0xA3, 0xCA, 0x9A, 0x61, 0x58, 0x97, 0xA3, 0x27, 0xFC, 0x03, 0x98, 0x76,
    0x23, 0x1D, 0xC7, 0x61, 0x03, 0x04, 0xAE, 0x56, 0xBF, 0x38, 0x84, 0x00, 0x40, 0xA7, 0x0E, 0xFD,
    0xFF, 0x52, 0xFE, 0x03, 0x6F, 0x95, 0x30, 0xF1, 0x97, 0xFB, 0xC0, 0x85, 0x60, 0xD6, 0x80, 0x25,
    0xA9, 0x63, 0xBE, 0x03, 0x01, 0x4E, 0x38, 0xE2, 0xF9, 0xA2, 0x34, 0xFF, 0xBB, 0x3E, 0x03, 0x44,
    0x78, 0x00, 0x90, 0xCB, 0x88, 0x11, 0x3A, 0x94, 0x65, 0xC0, 0x7C, 0x63, 0x87, 0xF0, 0x3C, 0xAF,
    0xD6, 0x25, 0xE4, 0x8B, 0x38, 0x0A, 0xAC, 0x72, 0x21, 0xD4, 0xF8, 0x07,
];

/// Offset of the fixed unit code byte.
const FIXED_BYTE_OFFSET: usize = 0xB2;

/// Offset of the complement checksum byte.
const CHECKSUM_OFFSET: usize = 0xBD;

/// The sum of `s`, as an integer.
pub open spec fn byte_sum(s: Seq<u8>) -> int
    decreases s.len(),
{
    if s.len() == 0 {
        0
    } else {
        byte_sum(s.drop_last()) + s.last()
    }
}

/// The complement checksum of a header: minus the bytes from `0xA0` to
/// `0xBC`, minus `0x19`, modulo 256.
pub open spec fn checksum_of(rom: Seq<u8>) -> u8 {
    ((0 - byte_sum(rom.subrange(0xA0, 0xBD)) - 0x19) % 256) as u8
}

/// The GBA BIOS's check of a header: the bytes from `0xA0` to `0xBC`, the
/// constant `0x19` and the checksum byte at `0xBD` sum to zero modulo 256.
pub open spec fn bios_accepts(rom: Seq<u8>) -> bool {
    (byte_sum(rom.subrange(0xA0, 0xBD)) + 0x19 + rom[0xBD]) % 256 == 0
}

/// The checksum byte completes the header's sum to zero modulo 256, and it
/// is the only byte that does.
pub proof fn lemma_checksum_completes_sum(rom: Seq<u8>, c: u8)
    ensures
        (byte_sum(rom.subrange(0xA0, 0xBD)) + 0x19 + checksum_of(rom)) % 256 == 0,
        (byte_sum(rom.subrange(0xA0, 0xBD)) + 0x19 + c) % 256 == 0 ==> c == checksum_of(rom),
{
    let s = byte_sum(rom.subrange(0xA0, 0xBD));
    let m = (0 - s - 0x19) % 256;
    assert((s + 0x19 + m) % 256 == 0 && 0 <= m < 256) by (nonlinear_arith)
        requires
            m == (0 - s - 0x19) % 256,
    {
        vstd::arithmetic::div_mod::lemma_fundamental_div_mod(0 - s - 0x19, 256);
        vstd::arithmetic::div_mod::lemma_mod_multiples_basic(-((0 - s - 0x19) / 256), 256);
    }
    if (s + 0x19 + c) % 256 == 0 {
        assert(c as int == m) by (nonlinear_arith)
            requires
                (s + 0x19 + c) % 256 == 0,
                (s + 0x19 + m) % 256 == 0,
                0 <= m < 256,
                0 <= c < 256,
        {
            vstd::arithmetic::div_mod::lemma_fundamental_div_mod(s + 0x19 + c, 256);
            vstd::arithmetic::div_mod::lemma_fundamental_div_mod(s + 0x19 + m, 256);
        }
    }
}

/// The header bytes before the checksum: the entry branch, the logo, the
/// title, game code and maker code, the fixed byte, and zeros.
pub closed spec fn header_prefix() -> Seq<u8> {
    ENTRY_BRANCH@ + NINTENDO_LOGO@ + ROM_TITLE@ + GAME_CODE@ + MAKER_CODE@ + seq![0x96u8] + Seq::new(10, |i: int| 0u8)
}

/// The whole header written into a ROM.
pub open spec fn header_image() -> Seq<u8> {
    header_prefix() + seq![checksum_of(header_prefix() + seq![0u8, 0u8, 0u8]), 0u8, 0u8]
}

/// A ROM after its header was patched: shorter ROMs grow to the header's
/// size, and what follows the header is kept.
pub open spec fn patched(rom: Seq<u8>) -> Seq<u8> {
    header_image() + if rom.len() > HEADER_SIZE {
        rom.skip(HEADER_SIZE as int)
    } else {
        Seq::empty()
    }
}

/// The header fields that are checked: everything up to the fixed byte, and
/// the checksum.
pub open spec fn valid_header(rom: Seq<u8>) -> bool {
    &&& rom.len() >= HEADER_SIZE
    &&& rom.take(0xB3) == header_prefix().take(0xB3)
    &&& rom[0xBD] == checksum_of(rom)
}

/// Compute the GBA header complement checksum byte.
pub fn header_checksum(rom: &[u8]) -> (r: u8)
    requires
        rom@.len() >= 0xBD,
    ensures
        r == checksum_of(rom@),
        (byte_sum(rom@.subrange(0xA0, 0xBD)) + 0x19 + r) % 256 == 0,
{
    proof {
        lemma_checksum_completes_sum(rom@, 0);
    }
    let mut sum: u8 = 0;
    let mut i: usize = 0xA0;
    while i < 0xBD
        invariant
            0xA0 <= i <= 0xBD,
            rom@.len() >= 0xBD,
            sum as int == byte_sum(rom@.subrange(0xA0, i as int)) % 256,
        decreases 0xBD - i,
    {
        proof {
            assert(rom@.subrange(0xA0, i + 1).drop_last() =~= rom@.subrange(0xA0, i as int));
        }
        sum = sum.wrapping_add(rom[i]);
        i = i + 1;
    }
    0u8.wrapping_sub(sum).wrapping_sub(0x19)
}

/// Return true when `rom` has the header fields Hypothalamus writes.
pub fn has_valid_header(rom: &[u8]) -> (r: bool)
    ensures
        r == valid_header(rom@),
        r ==> bios_accepts(rom@),
        rom@.len() >= HEADER_SIZE && rom@.take(0xB3) == header_prefix().take(0xB3) ==> (r <==> bios_accepts(
            rom@,
        )),
{
    if rom.len() >= HEADER_SIZE {
        proof {
            lemma_checksum_completes_sum(rom@, rom@[0xBD]);
        }
    }
    if rom.len() < HEADER_SIZE {
        return false;
    }
    let mut i: usize = 0;
    while i < 0xB3
        invariant
            i <= 0xB3,
            rom@.len() >= HEADER_SIZE,
            rom@.take(i as int) == header_prefix().take(i as int),
        decreases 0xB3 - i,
    {
        if rom[i] != header_byte(i) {
            proof {
                assert(rom@.take(0xB3)[i as int] != header_prefix().take(0xB3)[i as int]);
            }
            return false;
        }
        i = i + 1;
        proof {
            assert(rom@.take(i as int) =~= header_prefix().take(i as int));
        }
    }
    rom[CHECKSUM_OFFSET] == header_checksum(rom)
}

/// Byte `i` of the header prefix.
fn header_byte(i: usize) -> (r: u8)
    requires
        i < 0xBD,
    ensures
        r == header_prefix()[i as int],
{
    let r = if i < 4 {
        ENTRY_BRANCH[i]
    } else if i < 0xA0 {
        NINTENDO_LOGO[i - 4]
    } else if i < 0xAC {
        ROM_TITLE[i - 0xA0]
    } else if i < 0xB0 {
        GAME_CODE[i - 0xAC]
    } else if i < 0xB2 {
        MAKER_CODE[i - 0xB0]
    } else if i == FIXED_BYTE_OFFSET {
        0x96
    } else {
        0
    };
    r
}

/// Patch the 192-byte GBA ROM header at the start of `rom`.
pub fn patch_header(rom: &mut Vec<u8>)
    ensures
        final(rom)@ == patched(old(rom)@),
        final(rom)@.len() >= HEADER_SIZE,
        bios_accepts(final(rom)@),
{
    while rom.len() < HEADER_SIZE
        invariant
            rom@.len() >= old(rom)@.len(),
            rom@.take(old(rom)@.len() as int) == old(rom)@,
            old(rom)@.len() < HEADER_SIZE ==> rom@.len() <= HEADER_SIZE,
            old(rom)@.len() >= HEADER_SIZE ==> rom@ == old(rom)@,
        decreases HEADER_SIZE - rom@.len(),
    {
        rom.push(0);
        proof {
            assert(rom@.take(old(rom)@.len() as int) =~= old(rom)@);
        }
    }
    let ghost grown = rom@;
    let mut i: usize = 0;
    while i < 0xBD
        invariant
            i <= 0xBD,
            rom@.len() == grown.len(),
            grown.len() >= HEADER_SIZE,
            rom@.take(i as int) == header_prefix().take(i as int),
            rom@.skip(i as int) == grown.skip(i as int),
        decreases 0xBD - i,
    {
        let b = header_byte(i);
        rom.set(i, b);
        i = i + 1;
        proof {
            assert(rom@.take(i as int) =~= header_prefix().take(i as int));
            assert(rom@.skip(i as int) =~= grown.skip(i as int));
        }
    }
    rom.set(0xBE, 0);
    rom.set(0xBF, 0);
    proof {
        assert(rom@.subrange(0xA0, 0xBD) =~= (header_prefix() + seq![0u8, 0u8, 0u8]).subrange(0xA0, 0xBD));
    }
    let checksum = header_checksum(rom.as_slice());
    let ghost before_set = rom@;
    rom.set(CHECKSUM_OFFSET, checksum);
    proof {
        assert(rom@.subrange(0xA0, 0xBD) =~= before_set.subrange(0xA0, 0xBD));
        assert(rom@.take(HEADER_SIZE as int) =~= header_image());
        assert(rom@ =~= patched(old(rom)@));
    }
}

/// A patched ROM passes the header check, whatever it held before.
pub proof fn lemma_patched_header_is_valid(rom: Seq<u8>)
    ensures
        valid_header(patched(rom)),
        patched(rom).len() == if rom.len() > HEADER_SIZE {
            rom.len()
        } else {
            HEADER_SIZE as nat
        },
{
    let p = patched(rom);
    assert(p.subrange(0xA0, 0xBD) =~= (header_prefix() + seq![0u8, 0u8, 0u8]).subrange(0xA0, 0xBD));
    assert(p.take(0xB3) =~= header_prefix().take(0xB3));
}

// ----- ELF images -----

/// The little-endian 16-bit value at `at`.
pub open spec fn le16(b: Seq<u8>, at: int) -> int {
    b[at] + 256 * b[at + 1]
}

/// The little-endian 32-bit value at `at`.
pub open spec fn le32(b: Seq<u8>, at: int) -> int {
    b[at] + 256 * b[at + 1] + 65536 * b[at + 2] + 16777216 * b[at + 3]
}

/// What one program header contributes: nothing, the bytes of a loadable
/// segment at an offset into the ROM, or the reason the image is refused.
pub enum Segment {
    Skip,
    Copy { rom_offset: int, file_offset: int, size: int },
    Fail(Seq<char>),
}

/// The program header `index` of a table at `phoff` with entries of
/// `phentsize` bytes. A loadable segment with bytes in the file is copied
/// to its load address (the physical address when that is in ROM, else the
/// virtual one) less the ROM origin; a segment loaded below the ROM is left
/// out.
pub open spec fn segment(elf: Seq<u8>, phoff: int, phentsize: int, index: int) -> Segment {
    let at = phoff + index * phentsize;
    if index * phentsize > usize::MAX || at > usize::MAX || at + 32 > usize::MAX {
        Segment::Fail("ELF program header overflow"@)
    } else if at + 32 > elf.len() {
        Segment::Fail("ELF program header extends past end of file"@)
    } else if le32(elf, at) != PT_LOAD {
        Segment::Skip
    } else {
        let file_offset = le32(elf, at + 4);
        let vaddr = le32(elf, at + 8);
        let paddr = le32(elf, at + 12);
        let size = le32(elf, at + 16);
        let load = if paddr >= ROM_ORIGIN {
            paddr
        } else {
            vaddr
        };
        if size == 0 || load < ROM_ORIGIN {
            Segment::Skip
        } else if file_offset + size > usize::MAX {
            Segment::Fail("ELF segment file range overflow"@)
        } else if file_offset + size > elf.len() {
            Segment::Fail("ELF load segment extends past end of file"@)
        } else if load - ROM_ORIGIN + size > usize::MAX {
            Segment::Fail("GBA ROM segment range overflow"@)
        } else if load - ROM_ORIGIN + size > MAX_ROM_SIZE {
            Segment::Fail("GBA ROM exceeds 32 MiB"@)
        } else {
            Segment::Copy { rom_offset: load - ROM_ORIGIN, file_offset, size }
        }
    }
}

/// `rom` with `bytes` written at `at`, grown with zeros to fit them.
pub open spec fn copy_into(rom: Seq<u8>, at: int, bytes: Seq<u8>) -> Seq<u8> {
    let end = at + bytes.len();
    let grown = if rom.len() < end {
        rom + Seq::new((end - rom.len()) as nat, |i: int| 0u8)
    } else {
        rom
    };
    grown.take(at) + bytes + grown.skip(end)
}

/// The ROM built from the first `n` program headers, and whether any
/// segment was copied; or the first refusal.
pub open spec fn segments(elf: Seq<u8>, phoff: int, phentsize: int, n: nat) -> Result<(Seq<u8>, bool), Seq<char>>
    decreases n,
{
    if n == 0 {
        Ok((Seq::empty(), false))
    } else {
        match segments(elf, phoff, phentsize, (n - 1) as nat) {
            Err(m) => Err(m),
            Ok((rom, copied)) => match segment(elf, phoff, phentsize, n - 1) {
                Segment::Skip => Ok((rom, copied)),
                Segment::Fail(m) => Err(m),
                Segment::Copy { rom_offset, file_offset, size } => Ok(
                    (copy_into(rom, rom_offset, elf.subrange(file_offset, file_offset + size)), true),
                ),
            },
        }
    }
}

/// The ROM bytes of an ELF32 little-endian image, or why there are none.
pub open spec fn extract_rom(elf: Seq<u8>) -> Result<Seq<u8>, Seq<char>> {
    if elf.len() < 52 {
        Err("ELF file is shorter than the ELF32 header"@)
    } else if elf.take(4) != seq![0x7Fu8, 0x45u8, 0x4Cu8, 0x46u8] {
        Err("file is not an ELF object"@)
    } else if elf[4] != 1 {
        Err("expected an ELF32 file"@)
    } else if elf[5] != 1 {
        Err("expected a little-endian ELF file"@)
    } else if le16(elf, 42) < 32 {
        Err("ELF program headers are too small"@)
    } else {
        match segments(elf, le32(elf, 28), le16(elf, 42), le16(elf, 44) as nat) {
            Err(m) => Err(m),
            Ok((rom, copied)) => if copied {
                Ok(rom)
            } else {
                Err("ELF did not contain loadable GBA ROM segments"@)
            },
        }
    }
}

/// Once the headers are refused, later headers change nothing.
proof fn lemma_refusal_sticks(elf: Seq<u8>, phoff: int, phentsize: int, n: nat, m: nat)
    requires
        n <= m,
        segments(elf, phoff, phentsize, n) is Err,
    ensures
        segments(elf, phoff, phentsize, m) == segments(elf, phoff, phentsize, n),
    decreases m - n,
{
    if n < m {
        lemma_refusal_sticks(elf, phoff, phentsize, n, (m - 1) as nat);
    }
}

fn read_u16(bytes: &[u8], offset: usize) -> (r: usize)
    requires
        offset + 2 <= bytes@.len(),
    ensures
        r == le16(bytes@, offset as int),
{
    bytes[offset] as usize + 256 * (bytes[offset + 1] as usize)
}

fn read_u32(bytes: &[u8], offset: usize) -> (r: u32)
    requires
        offset + 4 <= bytes@.len(),
    ensures
        r == le32(bytes@, offset as int),
{
    bytes[offset] as u32 + 256 * (bytes[offset + 1] as u32) + 65536 * (bytes[offset + 2] as u32)
        + 16777216 * (bytes[offset + 3] as u32)
}

/// Program header `index`, read from the file.
fn read_segment(elf: &[u8], phoff: usize, phentsize: usize, index: usize) -> (r: Result<Option<(usize, usize, usize)>, String>)
    ensures
        match segment(elf@, phoff as int, phentsize as int, index as int) {
            Segment::Skip => r == Ok::<Option<(usize, usize, usize)>, String>(None),
            Segment::Fail(m) => r matches Err(e) && e@ == m,
            Segment::Copy { rom_offset, file_offset, size } => r matches Ok(Some((o, f, n))) && o == rom_offset
                && f == file_offset && n == size,
        },
{
    let stride = match index.checked_mul(phentsize) {
        Some(v) => v,
        None => return Err("ELF program header overflow".to_string()),
    };
    let at = match phoff.checked_add(stride) {
        Some(v) => v,
        None => return Err("ELF program header overflow".to_string()),
    };
    let end = match at.checked_add(32) {
        Some(v) => v,
        None => return Err("ELF program header overflow".to_string()),
    };
    if end > elf.len() {
        return Err("ELF program header extends past end of file".to_string());
    }
    if read_u32(elf, at) != PT_LOAD {
        return Ok(None);
    }
    let file_offset = read_u32(elf, at + 4) as usize;
    let vaddr = read_u32(elf, at + 8);
    let paddr = read_u32(elf, at + 12);
    let size = read_u32(elf, at + 16) as usize;
    let load = if paddr >= ROM_ORIGIN {
        paddr
    } else {
        vaddr
    };
    if size == 0 || load < ROM_ORIGIN {
        return Ok(None);
    }
    let rom_offset = (load - ROM_ORIGIN) as usize;
    let file_end = match file_offset.checked_add(size) {
        Some(v) => v,
        None => return Err("ELF segment file range overflow".to_string()),
    };
    if file_end > elf.len() {
        return Err("ELF load segment extends past end of file".to_string());
    }
    let rom_end = match rom_offset.checked_add(size) {
        Some(v) => v,
        None => return Err("GBA ROM segment range overflow".to_string()),
    };
    if rom_end > MAX_ROM_SIZE {
        return Err("GBA ROM exceeds 32 MiB".to_string());
    }
    Ok(Some((rom_offset, file_offset, size)))
}

/// Write `elf[from..from + size]` into `rom` at `at`, growing it with zeros
/// to fit.
fn copy_segment(rom: &mut Vec<u8>, at: usize, elf: &[u8], from: usize, size: usize)
    requires
        from + size <= elf@.len(),
        at + size <= MAX_ROM_SIZE,
    ensures
        final(rom)@ == copy_into(old(rom)@, at as int, elf@.subrange(from as int, from + size)),
{
    let end = at + size;
    let ghost old_rom = rom@;
    while rom.len() < end
        invariant
            end == at + size,
            rom@.len() >= old_rom.len(),
            rom@.take(old_rom.len() as int) == old_rom,
            forall|i: int| old_rom.len() <= i < rom@.len() ==> rom@[i] == 0u8,
            old_rom.len() < end ==> rom@.len() <= end,
            old_rom.len() >= end ==> rom@ == old_rom,
        decreases end - rom@.len(),
    {
        rom.push(0);
        proof {
            assert(rom@.take(old_rom.len() as int) =~= old_rom);
        }
    }
    let ghost grown = rom@;
    let n = elf.len();
    proof {
        let g = if old_rom.len() < end {
            old_rom + Seq::new((end - old_rom.len()) as nat, |i: int| 0u8)
        } else {
            old_rom
        };
        assert(grown =~= g);
    }
    let mut j: usize = 0;
    while j < size
        invariant
            end == at + size,
            from + size <= n,
            n == elf@.len(),
            j <= size,
            rom@.len() == grown.len(),
            grown.len() >= end,
            rom@ == grown.take(at as int) + elf@.subrange(from as int, from + j) + grown.skip(at + j),
        decreases size - j,
    {
        rom.set(at + j, elf[from + j]);
        j = j + 1;
        proof {
            assert(rom@ =~= grown.take(at as int) + elf@.subrange(from as int, from + j) + grown.skip(at + j));
        }
    }
}

/// The ROM bytes that the loadable segments of an ELF32 little-endian image
/// place at or above the ROM origin, in ROM order; refused when the file is
/// not such an image, a header or segment runs past its end, or nothing is
/// loaded into ROM.
pub fn extract_rom_from_elf(elf: &[u8]) -> (r: Result<Vec<u8>, String>)
    ensures
        match extract_rom(elf@) {
            Ok(rom) => r matches Ok(v) && v@ == rom,
            Err(m) => r matches Err(e) && e@ == m,
        },
{
    if elf.len() < 52 {
        return Err("ELF file is shorter than the ELF32 header".to_string());
    }
    if !(elf[0] == 0x7F && elf[1] == 0x45 && elf[2] == 0x4C && elf[3] == 0x46) {
        proof {
            if elf@.take(4) == seq![0x7Fu8, 0x45u8, 0x4Cu8, 0x46u8] {
                assert(elf@.take(4)[0] == elf@[0]);
                assert(elf@.take(4)[1] == elf@[1]);
                assert(elf@.take(4)[2] == elf@[2]);
                assert(elf@.take(4)[3] == elf@[3]);
            }
        }
        return Err("file is not an ELF object".to_string());
    }
    proof {
        assert(elf@.take(4) =~= seq![0x7Fu8, 0x45u8, 0x4Cu8, 0x46u8]);
    }
    if elf[4] != 1 {
        return Err("expected an ELF32 file".to_string());
    }
    if elf[5] != 1 {
        return Err("expected a little-endian ELF file".to_string());
    }
    let phoff = read_u32(elf, 28) as usize;
    let phentsize = read_u16(elf, 42);
    let phnum = read_u16(elf, 44);
    if phentsize < 32 {
        return Err("ELF program headers are too small".to_string());
    }
    let mut rom: Vec<u8> = Vec::new();
    let mut copied = false;
    let mut index: usize = 0;
    while index < phnum
        invariant
            index <= phnum,
            phoff == le32(elf@, 28),
            phentsize == le16(elf@, 42),
            phnum == le16(elf@, 44),
            phentsize >= 32,
            elf@.len() >= 52,
            elf@.take(4) == seq![0x7Fu8, 0x45u8, 0x4Cu8, 0x46u8],
            elf@[4] == 1,
            elf@[5] == 1,
            segments(elf@, phoff as int, phentsize as int, index as nat) == Ok::<(Seq<u8>, bool), Seq<char>>((rom@, copied)),
        decreases phnum - index,
    {
        match read_segment(elf, phoff, phentsize, index) {
            Err(e) => {
                proof {
                    assert(segments(elf@, phoff as int, phentsize as int, (index + 1) as nat) == Err::<(Seq<u8>, bool), Seq<char>>(e@));
                    lemma_refusal_sticks(elf@, phoff as int, phentsize as int, (index + 1) as nat, phnum as nat);
                }
                return Err(e);
            },
            Ok(None) => {},
            Ok(Some((at, from, size))) => {
                copy_segment(&mut rom, at, elf, from, size);
                copied = true;
            },
        }
        index = index + 1;
    }
    if copied {
        Ok(rom)
    } else {
        Err("ELF did not contain loadable GBA ROM segments".to_string())
    }
}

/// `s` with every occurrence of `from`, leftmost first and not overlapping,
/// replaced by `to`.
pub open spec fn replaced(s: Seq<char>, from: Seq<char>, to: Seq<char>) -> Seq<char>
    decreases s.len(),
{
    if from.len() == 0 || s.len() < from.len() {
        s
    } else if s.take(from.len() as int) == from {
        to + replaced(s.skip(from.len() as int), from, to)
    } else {
        seq![s[0]] + replaced(s.skip(1), from, to)
    }
}

/// `str::replace`: `s` with every match of `from` replaced by `to`, matches
/// taken leftmost first and never overlapping. An empty pattern, which std
/// matches between every two characters, is ruled out.
#[verifier::external_body]
fn replace_text(s: &str, from: &str, to: &str) -> (r: String)
    requires
        from@.len() > 0,
    ensures
        r@ == replaced(s@, from@, to@),
{
    s.replace(from, to)
}

/// Where the runtime template takes the entry symbol.
pub const ENTRY_PLACEHOLDER: &'static str = "__HYPOTHALAMUS_ENTRY_SYMBOL__";

/// Where the runtime template takes the output hook's symbol.
pub const PUTCHAR_PLACEHOLDER: &'static str = "__HYPOTHALAMUS_PUTCHAR_SYMBOL__";

/// Where the runtime template takes the input hook's symbol.
pub const GETCHAR_PLACEHOLDER: &'static str = "__HYPOTHALAMUS_GETCHAR_SYMBOL__";

/// A symbol made safe to stand inside a C string literal: each backslash
/// doubled, then each double quote escaped.
pub open spec fn c_escaped(value: Seq<char>) -> Seq<char> {
    replaced(replaced(value, seq!['\\'], seq!['\\', '\\']), seq!['"'], seq!['\\', '"'])
}

/// Escape `value` for a C string literal.
pub fn escape_c_string(value: &str) -> (r: String)
    ensures
        r@ == c_escaped(value@),
{
    proof {
        reveal_strlit("\\");
        reveal_strlit("\\\\");
        reveal_strlit("\"");
        reveal_strlit("\\\"");
        assert("\\"@ =~= seq!['\\']);
        assert("\\\\"@ =~= seq!['\\', '\\']);
        assert("\""@ =~= seq!['"']);
        assert("\\\""@ =~= seq!['\\', '"']);
    }
    let once = replace_text(value, "\\", "\\\\");
    replace_text(once.as_str(), "\"", "\\\"")
}

/// The symbols the ROM runtime calls and provides, in the order entry,
/// output hook, input hook: the configured ones for a freestanding target,
/// the hosted names otherwise.
pub open spec fn runtime_symbols_of(abi: RuntimeAbi) -> (Seq<char>, Seq<char>, Seq<char>) {
    match abi {
        RuntimeAbi::Freestanding(o) => (o.entry_symbol@, o.putchar_symbol@, o.getchar_symbol@),
        RuntimeAbi::Hosted => ("bf_main"@, "bf_putchar"@, "bf_getchar"@),
    }
}

/// The entry, output and input symbols the runtime links against.
pub fn runtime_symbols(config: &CompilerConfig) -> (r: (&str, &str, &str))
    ensures
        (r.0@, r.1@, r.2@) == runtime_symbols_of(config.target.abi_view()),
{
    match config.target.runtime_abi() {
        RuntimeAbi::Freestanding(options) => (
            options.entry_symbol.as_str(),
            options.putchar_symbol.as_str(),
            options.getchar_symbol.as_str(),
        ),
        RuntimeAbi::Hosted => ("bf_main", "bf_putchar", "bf_getchar"),
    }
}

/// A runtime template with its three placeholders filled in, entry first.
pub open spec fn filled_runtime(template: Seq<char>, abi: RuntimeAbi) -> Seq<char> {
    let (entry, putchar, getchar) = runtime_symbols_of(abi);
    replaced(
        replaced(replaced(template, ENTRY_PLACEHOLDER@, c_escaped(entry)), PUTCHAR_PLACEHOLDER@, c_escaped(putchar)),
        GETCHAR_PLACEHOLDER@,
        c_escaped(getchar),
    )
}

/// The C runtime linked into a ROM: `template` with the configured entry,
/// output and input symbols written where its placeholders stand, each
/// escaped for the C string literal it lands in.
pub fn runtime_c_source(template: &str, config: &CompilerConfig) -> (r: String)
    ensures
        r@ == filled_runtime(template@, config.target.abi_view()),
{
    proof {
        reveal_strlit("__HYPOTHALAMUS_ENTRY_SYMBOL__");
        reveal_strlit("__HYPOTHALAMUS_PUTCHAR_SYMBOL__");
        reveal_strlit("__HYPOTHALAMUS_GETCHAR_SYMBOL__");
    }
    let (entry_symbol, putchar_symbol, getchar_symbol) = runtime_symbols(config);
    let entry = escape_c_string(entry_symbol);
    let putchar = escape_c_string(putchar_symbol);
    let getchar = escape_c_string(getchar_symbol);
    let step = replace_text(template, ENTRY_PLACEHOLDER, entry.as_str());
    let step = replace_text(step.as_str(), PUTCHAR_PLACEHOLDER, putchar.as_str());
    replace_text(step.as_str(), GETCHAR_PLACEHOLDER, getchar.as_str())
}

} // verus!
