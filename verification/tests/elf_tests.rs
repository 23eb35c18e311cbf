use memregion::elf::{analyze_image, symbol_listing};
use memregion::region::{Region, DRAM_END, DRAM_START, IRAM_END, IRAM_START};
use memregion::report::ReportError;

/// A minimal little-endian ELF64 image: only the file header, with no
/// program headers, no section headers and no symbols.
fn minimal_elf() -> Vec<u8> {
    let mut data = vec![0u8; 64];
    data[0] = 0x7f;
    data[1] = b'E';
    data[2] = b'L';
    data[3] = b'F';
    data[4] = 2; // 64-bit
    data[5] = 1; // little endian
    data[6] = 1; // version
    data[16] = 2; // e_type: executable
    data[18] = 0xf3; // e_machine: RISC-V
    data[20] = 1; // e_version
    data[52] = 64; // e_ehsize
    data[54] = 56; // e_phentsize
    data[58] = 64; // e_shentsize
    data
}

fn put_u16(data: &mut [u8], at: usize, v: u16) {
    data[at..at + 2].copy_from_slice(&v.to_le_bytes());
}

fn put_u32(data: &mut [u8], at: usize, v: u32) {
    data[at..at + 4].copy_from_slice(&v.to_le_bytes());
}

fn put_u64(data: &mut [u8], at: usize, v: u64) {
    data[at..at + 8].copy_from_slice(&v.to_le_bytes());
}

/// A section header for `elf_with_sections`: name offset, type, virtual
/// address, file offset, size, and alignment.
#[derive(Clone, Copy)]
struct Sh {
    name: u32,
    kind: u32,
    addr: u64,
    offset: u64,
    size: u64,
    align: u64,
}

/// A little-endian ELF64 image with the given section headers (after
/// an automatic null entry) and `strtab` as the section-name table.
fn elf_with_sections(sections: &[Sh], strtab: &[u8]) -> Vec<u8> {
    let shnum = sections.len() + 2; // null entry + sections + shstrtab
    let shoff = 64usize;
    let stroff = shoff + shnum * 64;
    let mut data = vec![0u8; stroff + strtab.len()];
    data[0] = 0x7f;
    data[1] = b'E';
    data[2] = b'L';
    data[3] = b'F';
    data[4] = 2; // 64-bit
    data[5] = 1; // little endian
    data[6] = 1; // version
    put_u16(&mut data, 16, 2); // e_type: executable
    put_u16(&mut data, 18, 0xf3); // e_machine: RISC-V
    put_u32(&mut data, 20, 1); // e_version
    put_u64(&mut data, 40, shoff as u64); // e_shoff
    put_u16(&mut data, 52, 64); // e_ehsize
    put_u16(&mut data, 54, 56); // e_phentsize
    put_u16(&mut data, 58, 64); // e_shentsize
    put_u16(&mut data, 60, shnum as u16); // e_shnum
    put_u16(&mut data, 62, (shnum - 1) as u16); // e_shstrndx: the last entry
    let mut entries: Vec<Sh> = sections.to_vec();
    // the section-name string table itself
    entries.push(Sh {
        name: 0,
        kind: 3, // SHT_STRTAB
        addr: 0,
        offset: stroff as u64,
        size: strtab.len() as u64,
        align: 1,
    });
    for (i, s) in entries.iter().enumerate() {
        let base = shoff + (i + 1) * 64;
        put_u32(&mut data, base, s.name);
        put_u32(&mut data, base + 4, s.kind);
        put_u64(&mut data, base + 16, s.addr);
        put_u64(&mut data, base + 24, s.offset);
        put_u64(&mut data, base + 32, s.size);
        put_u64(&mut data, base + 48, s.align);
    }
    data[stroff..stroff + strtab.len()].copy_from_slice(strtab);
    data
}

#[test]
fn named_section_reports_through_decoder() {
    let r = Region { start: 0x1000, end: 0x2000 };
    // SHT_NOBITS section ".a" at 0x1000, already aligned
    let data = elf_with_sections(
        &[Sh { name: 1, kind: 8, addr: 0x1000, offset: 0, size: 0x100, align: 0x10 }],
        b"\x00.a\x00",
    );
    let rep = analyze_image(&data, &r).expect("image parses");
    assert_eq!(rep.lines.len(), 1);
    match &rep.lines[0] {
        memregion::report::ReportLine::Entry { start, end, size, percent_milli, name } => {
            assert_eq!(*start, 0x1000);
            assert_eq!(*end, 0x1100);
            assert_eq!(size.0, 0x100);
            assert_eq!(*percent_milli, 6250);
            assert_eq!(name, ".a");
        },
        _ => panic!("expected a section entry"),
    }
    assert_eq!(rep.total.0, 0x100);
    assert_eq!(rep.total_percent_milli, 6250);
}

#[test]
fn descending_sections_are_out_of_order() {
    let r = Region { start: 0x1000, end: 0x3000 };
    let data = elf_with_sections(
        &[
            Sh { name: 1, kind: 8, addr: 0x2000, offset: 0, size: 0x10, align: 1 },
            Sh { name: 1, kind: 8, addr: 0x1000, offset: 0, size: 0x10, align: 1 },
        ],
        b"\x00.a\x00",
    );
    assert!(matches!(analyze_image(&data, &r), Err(ReportError::OutOfOrder)));
}

#[test]
fn garbage_bytes_do_not_parse() {
    let r = Region { start: 0x1000, end: 0x2000 };
    let data = b"this is not an object file".to_vec();
    assert!(matches!(analyze_image(&data, &r), Err(ReportError::Unparseable)));
    assert!(symbol_listing(&data, &r).is_none());
}

#[test]
fn minimal_image_reports_empty() {
    let r = Region { start: 0x1000, end: 0x2000 };
    let data = minimal_elf();
    let rep = analyze_image(&data, &r).expect("a bare ELF header parses");
    assert!(rep.lines.is_empty());
    assert_eq!(rep.total.0, 0);
    assert_eq!(rep.total_percent_milli, 0);
    let syms = symbol_listing(&data, &r).expect("a bare ELF header parses");
    assert!(syms.is_empty());
}

#[test]
fn target_memory_map_constants() {
    let dram = Region::dram();
    assert_eq!(dram.start, 0x3FC8_0000);
    assert_eq!(dram.end, 0x3FC8_0000 + 0x50000 + 0x600);
    assert_eq!(dram.start, DRAM_START);
    assert_eq!(dram.end, DRAM_END);
    let iram = Region::iram();
    assert_eq!(iram.start, 0x4037_C000 + 0x4000);
    assert_eq!(iram.end, 0x4037_C000 + 0x4000 + 400 * 1024 - 0x400);
    assert_eq!(iram.start, IRAM_START);
    assert_eq!(iram.end, IRAM_END);
    assert_eq!(dram.capacity(), 0x50600);
    assert!(dram.contains(0x3FC8_0000));
    assert!(!dram.contains(DRAM_END));
}
