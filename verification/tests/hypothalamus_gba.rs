use bf_tools::hypothalamus::codegen::FreestandingOptions;
use bf_tools::hypothalamus::driver::CompilerConfig;
use bf_tools::hypothalamus::target::{RuntimeAbi, TargetProfile};
use bf_tools::hypothalamus::targets::gba::{
    escape_c_string, runtime_c_source, runtime_symbols, extract_rom_from_elf, has_valid_header, header_checksum, patch_header, GAME_CODE, HEADER_SIZE,
    MAKER_CODE, PT_LOAD, ROM_ORIGIN, ROM_TITLE,
};

fn write_program_header(
    elf: &mut [u8],
    offset: usize,
    segment_offset: u32,
    load_addr: u32,
    filesz: u32,
) {
    write_u32(elf, offset, PT_LOAD);
    write_u32(elf, offset + 4, segment_offset);
    write_u32(elf, offset + 8, load_addr);
    write_u32(elf, offset + 12, load_addr);
    write_u32(elf, offset + 16, filesz);
    write_u32(elf, offset + 20, filesz);
}

fn write_u16(bytes: &mut [u8], offset: usize, value: u16) {
    bytes[offset..offset + 2].copy_from_slice(&value.to_le_bytes());
}

fn write_u32(bytes: &mut [u8], offset: usize, value: u32) {
    bytes[offset..offset + 4].copy_from_slice(&value.to_le_bytes());
}

fn elf_with_two_segments() -> Vec<u8> {
    let mut elf = vec![0; 0x120];
    elf[0..4].copy_from_slice(b"\x7FELF");
    elf[4] = 1;
    elf[5] = 1;
    elf[6] = 1;
    write_u32(&mut elf, 28, 52);
    write_u16(&mut elf, 42, 32);
    write_u16(&mut elf, 44, 2);

    write_program_header(&mut elf, 52, 0x100, ROM_ORIGIN + 4, 3);
    elf[0x100..0x103].copy_from_slice(b"abc");
    write_program_header(&mut elf, 84, 0x110, ROM_ORIGIN + 0x10, 2);
    elf[0x110..0x112].copy_from_slice(b"xy");
    elf
}

#[test]
fn patches_valid_gba_header() {
    let mut rom = vec![0xAA; 512];

    patch_header(&mut rom);

    assert!(has_valid_header(&rom));
    assert_eq!(&rom[0xA0..0xAC], &ROM_TITLE);
    assert_eq!(&rom[0xAC..0xB0], &GAME_CODE);
    assert_eq!(&rom[0xB0..0xB2], &MAKER_CODE);
    assert_eq!(rom[0xB2], 0x96);
    // What follows the header is kept.
    assert_eq!(rom.len(), 512);
    assert_eq!(rom[HEADER_SIZE], 0xAA);
}

#[test]
fn patch_extends_short_roms() {
    let mut rom = Vec::new();

    patch_header(&mut rom);

    assert_eq!(rom.len(), HEADER_SIZE);
    assert!(has_valid_header(&rom));
}

#[test]
fn a_changed_title_breaks_the_header() {
    let mut rom = Vec::new();
    patch_header(&mut rom);
    rom[0xA0] = b'X';
    assert!(!has_valid_header(&rom));
    assert!(!has_valid_header(&rom[..HEADER_SIZE - 1]));
}

#[test]
fn the_checksum_complements_the_title_bytes() {
    let rom = vec![0u8; HEADER_SIZE];
    // Nothing but zeros from 0xA0 on: the checksum is just -0x19.
    assert_eq!(header_checksum(&rom), 0xE7);
}

#[test]
fn extracts_loadable_rom_segments_from_elf() {
    let elf = elf_with_two_segments();

    let rom = extract_rom_from_elf(&elf).expect("extract ROM bytes");

    assert_eq!(rom.len(), 0x12);
    assert_eq!(&rom[0..4], &[0, 0, 0, 0]);
    assert_eq!(&rom[4..7], b"abc");
    assert_eq!(&rom[0x10..0x12], b"xy");
}

#[test]
fn refuses_files_that_are_not_elf32_images() {
    assert_eq!(
        extract_rom_from_elf(&[0; 10]).unwrap_err(),
        "ELF file is shorter than the ELF32 header"
    );
    let mut elf = elf_with_two_segments();
    elf[0] = 0;
    assert_eq!(extract_rom_from_elf(&elf).unwrap_err(), "file is not an ELF object");
    let mut elf = elf_with_two_segments();
    elf[4] = 2;
    assert_eq!(extract_rom_from_elf(&elf).unwrap_err(), "expected an ELF32 file");
    let mut elf = elf_with_two_segments();
    elf[5] = 2;
    assert_eq!(extract_rom_from_elf(&elf).unwrap_err(), "expected a little-endian ELF file");
}

#[test]
fn refuses_segments_past_the_end_of_the_file() {
    let mut elf = elf_with_two_segments();
    write_program_header(&mut elf, 84, 0x110, ROM_ORIGIN + 0x10, 0x100);
    assert_eq!(
        extract_rom_from_elf(&elf).unwrap_err(),
        "ELF load segment extends past end of file"
    );
}

#[test]
fn an_image_with_nothing_in_rom_is_refused() {
    let mut elf = elf_with_two_segments();
    write_u16(&mut elf, 44, 0);
    assert_eq!(
        extract_rom_from_elf(&elf).unwrap_err(),
        "ELF did not contain loadable GBA ROM segments"
    );
}

const TEMPLATE: &str = "void __HYPOTHALAMUS_ENTRY_SYMBOL__(void);\n\
extern void hook(int) __asm__(\"__HYPOTHALAMUS_PUTCHAR_SYMBOL__\");\n\
extern int read(void) __asm__(\"__HYPOTHALAMUS_GETCHAR_SYMBOL__\");\n";

#[test]
fn runtime_uses_configured_freestanding_symbols() {
    let target = TargetProfile::resolve("gba").with_runtime_abi(RuntimeAbi::Freestanding(
        FreestandingOptions {
            entry_symbol: "custom_entry".to_string(),
            putchar_symbol: "custom_putchar".to_string(),
            getchar_symbol: "custom_getchar".to_string(),
        },
    ));
    let config = CompilerConfig::for_target("examples/hello.bf", target);

    assert_eq!(
        runtime_symbols(&config),
        ("custom_entry", "custom_putchar", "custom_getchar")
    );
    let runtime = runtime_c_source(TEMPLATE, &config);
    assert!(runtime.contains("void custom_entry(void);"));
    assert!(runtime.contains("__asm__(\"custom_putchar\")"));
    assert!(runtime.contains("__asm__(\"custom_getchar\")"));
    assert!(!runtime.contains("__HYPOTHALAMUS_"));
}

#[test]
fn hosted_runtime_symbols_are_the_bf_names() {
    let config = CompilerConfig::for_target("hello.bf", TargetProfile::resolve("x86_64-unknown-linux-gnu"));
    assert_eq!(runtime_symbols(&config), ("bf_main", "bf_putchar", "bf_getchar"));
}

#[test]
fn symbols_are_escaped_for_c_strings() {
    assert_eq!(escape_c_string("plain"), "plain");
    assert_eq!(escape_c_string("a\\b\"c"), "a\\\\b\\\"c");
}
