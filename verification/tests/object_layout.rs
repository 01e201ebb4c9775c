use capture::ebpf::object::{DAMAGED_REASON, PARSE_FAILED_PREFIX};
use capture::ebpf::object_layout::object_can_be_looked_into;
use capture::octets::native_is_little;
use capture::{
    AyaEbpfObjectProbe, EbpfObjectProbeConfig, EbpfObjectProbeReport, EbpfObjectProgramKind,
};

struct Section {
    name: &'static str,
    kind: u32,
    flags: u64,
    octets: Vec<u8>,
    size: Option<u64>,
    link: u32,
}

fn section(name: &'static str, kind: u32, flags: u64, octets: Vec<u8>) -> Section {
    Section {
        name,
        kind,
        flags,
        octets,
        size: None,
        link: 0,
    }
}

struct Symbol {
    name: u32,
    info: u8,
    section: u16,
    value: u64,
    size: u64,
}

fn symbol(name: u32, info: u8, section: u16, value: u64, size: u64) -> Symbol {
    Symbol {
        name,
        info,
        section,
        value,
        size,
    }
}

/// The parts of an object file with a program, a function, two maps and type information.
#[derive(Clone)]
struct Parts {
    program_size: u64,
    program_value: u64,
    program_section: u16,
    function_size: u64,
    map_pinning: u32,
    bss_size: u64,
    record_size: u32,
    records: u32,
    record_name: u32,
    name_of_member: u32,
    array_length: u32,
    linkage: u32,
    shortened_records: usize,
    wide: bool,
}

impl Default for Parts {
    fn default() -> Self {
        Parts {
            program_size: 8,
            program_value: 0,
            program_section: 1,
            function_size: 16,
            map_pinning: 1,
            bss_size: 16,
            record_size: 8,
            records: 1,
            record_name: 1,
            name_of_member: 14,
            array_length: 2,
            linkage: 1,
            shortened_records: 0,
            wide: true,
        }
    }
}

fn words(numbers: &[u32]) -> Vec<u8> {
    numbers
        .iter()
        .flat_map(|number| number.to_le_bytes())
        .collect()
}

impl Parts {
    fn type_information(&self) -> Vec<u8> {
        let names = b"\0kprobe/probe\0key\0value\0TYPED\0.maps\0";
        let mut types = words(&[0, 1 << 24, 4, 0x20]);
        types.extend(words(&[0, 3 << 24, 0, 1, 1, self.array_length]));
        types.extend(words(&[0, 2 << 24, 2]));
        types.extend(words(&[0, 4 << 24 | 2, 16]));
        types.extend(words(&[self.name_of_member, 3, 0, 18, 3, 64]));
        types.extend(words(&[24, 14 << 24, 4, self.linkage]));
        types.extend(words(&[30, 15 << 24 | 1, 16, 5, 0, 16]));
        let mut octets = vec![0x9f, 0xeb, 1, 0];
        let length = types.len() as u32;
        octets.extend(words(&[24, 0, length, length, names.len() as u32]));
        octets.extend(types);
        octets.extend_from_slice(names);
        octets
    }

    fn records(&self) -> Vec<u8> {
        let mut octets = vec![0x9f, 0xeb, 1, 0];
        octets.extend(words(&[32, 0, 20, 20, 28, 48, 28]));
        octets.extend(words(&[self.record_size, self.record_name, self.records, 0, 1]));
        octets.extend(words(&[16, 1, 1, 0, 1, 1, 1024]));
        octets.extend(words(&[16, 1, 1, 0, 4, 1, 0]));
        octets.truncate(octets.len() - self.shortened_records);
        octets
    }

    fn symbols(&self) -> Vec<u8> {
        let symbols = [
            symbol(0, 0, 0, 0, 0),
            symbol(1, 0x12, self.program_section, self.program_value, self.program_size),
            symbol(7, 0x11, 2, 0, 28),
            symbol(11, 0x11, 3, 0, 16),
            symbol(17, 0x12, 4, 0, self.function_size),
        ];
        let mut table = Vec::new();
        for symbol in &symbols {
            table.extend_from_slice(&symbol.name.to_le_bytes());
            if self.wide {
                table.extend_from_slice(&[symbol.info, 0]);
                table.extend_from_slice(&symbol.section.to_le_bytes());
                table.extend_from_slice(&symbol.value.to_le_bytes());
                table.extend_from_slice(&symbol.size.to_le_bytes());
            } else {
                table.extend_from_slice(&(symbol.value as u32).to_le_bytes());
                table.extend_from_slice(&(symbol.size as u32).to_le_bytes());
                table.extend_from_slice(&[symbol.info, 0]);
                table.extend_from_slice(&symbol.section.to_le_bytes());
            }
        }
        table
    }

    fn file(&self) -> Vec<u8> {
        let names = b"\0probe\0MAP\0TYPED\0helper\0".to_vec();
        let mut sections = vec![
            section("", 0, 0, Vec::new()),
            section("kprobe/probe", 1, 6, vec![0x95, 0, 0, 0, 0, 0, 0, 0]),
            section("maps", 1, 3, words(&[2, 4, 4, 1, 0, 0, self.map_pinning])),
            section(".maps", 1, 3, vec![0; 16]),
            section(".text", 1, 6, vec![0; 16]),
            section(".BTF", 1, 0, self.type_information()),
            section(".BTF.ext", 1, 0, self.records()),
            section(".bss", 8, 3, Vec::new()),
            section(".strtab", 3, 0, names),
            section(".symtab", 2, 0, self.symbols()),
            section(".shstrtab", 3, 0, Vec::new()),
        ];
        sections[7].size = Some(self.bss_size);
        sections[9].link = 8;
        assemble(sections, self.wide)
    }
}

fn word(number: u64, wide: bool) -> Vec<u8> {
    if wide {
        number.to_le_bytes().to_vec()
    } else {
        (number as u32).to_le_bytes().to_vec()
    }
}

fn assemble(mut sections: Vec<Section>, wide: bool) -> Vec<u8> {
    let mut names = Vec::new();
    let mut places = Vec::new();
    for section in &sections {
        places.push(names.len() as u32);
        names.extend_from_slice(section.name.as_bytes());
        names.push(0);
    }
    let last = sections.len() - 1;
    sections[last].octets = names;
    let header_length = if wide { 64 } else { 52 };
    let mut file = vec![0; header_length];
    let mut starts = Vec::new();
    for section in &sections {
        while file.len() % 8 != 0 {
            file.push(0);
        }
        starts.push(file.len() as u64);
        file.extend_from_slice(&section.octets);
    }
    while file.len() % 8 != 0 {
        file.push(0);
    }
    let table = file.len() as u64;
    for (index, section) in sections.iter().enumerate() {
        let size = section.size.unwrap_or(section.octets.len() as u64);
        file.extend(words(&[places[index], section.kind]));
        file.extend(word(section.flags, wide));
        file.extend(word(0, wide));
        file.extend(word(starts[index], wide));
        file.extend(word(size, wide));
        file.extend(words(&[section.link, 0]));
        file.extend(word(8, wide));
        file.extend(word(0, wide));
    }
    let mut header = vec![0x7f, b'E', b'L', b'F', if wide { 2 } else { 1 }, 1, 1, 0];
    header.extend_from_slice(&[0; 8]);
    header.extend_from_slice(&[1, 0, 247, 0]);
    header.extend(words(&[1]));
    header.extend(word(0, wide));
    header.extend(word(0, wide));
    header.extend(word(table, wide));
    header.extend(words(&[0]));
    let entry = if wide { 64u16 } else { 40 };
    for number in [header_length as u16, 0, 0, entry, sections.len() as u16, last as u16] {
        header.extend_from_slice(&number.to_le_bytes());
    }
    file[..header_length].copy_from_slice(&header);
    file
}

fn probe_octets(octets: Vec<u8>) -> EbpfObjectProbeReport {
    AyaEbpfObjectProbe::probe(&EbpfObjectProbeConfig::new("object.bpf.o"), Ok(octets))
}

fn is_damaged(parts: Parts) -> bool {
    let mut damaged = true;
    for wide in [true, false] {
        let file = Parts { wide, ..parts.clone() }.file();
        assert!(!object_can_be_looked_into(&file, native_is_little()));
        let report = probe_octets(file);
        assert!(report.programs.is_empty());
        assert!(report.maps.is_empty());
        assert!(!report.object_available());
        damaged = damaged && report.object.reason() == Some(DAMAGED_REASON);
    }
    damaged
}

fn is_refused_octets(octets: Vec<u8>) -> bool {
    assert!(object_can_be_looked_into(&octets, native_is_little()));
    let report = probe_octets(octets);
    assert!(report.programs.is_empty());
    assert!(report.maps.is_empty());
    report.object.reason().is_some_and(|reason| reason.starts_with(PARSE_FAILED_PREFIX))
}

fn is_refused(parts: Parts) -> bool {
    let wide = Parts { wide: true, ..parts.clone() };
    let narrow = Parts { wide: false, ..parts };
    is_refused_octets(wide.file()) && is_refused_octets(narrow.file())
}

fn is_parsed(parts: Parts) -> bool {
    [true, false].into_iter().all(|wide| {
        let report = probe_octets(Parts { wide, ..parts.clone() }.file());
        report.summary() == "object object.bpf.o parsed, programs=probe, maps=.bss,MAP,TYPED"
            && report.programs[0].kind == EbpfObjectProgramKind::Kprobe
    })
}

#[test]
fn order_of_the_machine_is_that_of_its_numbers() {
    assert_eq!(native_is_little(), u32::from_ne_bytes([1, 0, 0, 0]) == 1);
}

#[test]
fn sound_object_is_parsed() {
    assert!(is_parsed(Parts::default()));
}

#[test]
fn programs_and_functions_lie_in_their_sections() {
    assert!(is_damaged(Parts {
        program_size: 16,
        ..Parts::default()
    }));
    assert!(is_damaged(Parts {
        program_value: 8,
        ..Parts::default()
    }));
    assert!(is_damaged(Parts {
        program_value: u64::MAX,
        ..Parts::default()
    }));
    assert!(is_refused(Parts {
        program_size: 4,
        ..Parts::default()
    }));
    assert!(is_refused(Parts {
        program_section: 0xffff,
        ..Parts::default()
    }));
    assert!(is_damaged(Parts {
        function_size: 24,
        ..Parts::default()
    }));
    assert!(is_refused(Parts {
        function_size: 0,
        ..Parts::default()
    }));
    assert!(is_refused(Parts {
        function_size: 8,
        ..Parts::default()
    }));
}

#[test]
fn records_lie_in_their_section() {
    assert!(is_damaged(Parts {
        records: 2,
        ..Parts::default()
    }));
    assert!(is_damaged(Parts {
        record_size: 0,
        ..Parts::default()
    }));
    assert!(is_damaged(Parts {
        record_name: 200,
        ..Parts::default()
    }));
    assert!(is_refused(Parts {
        shortened_records: 1,
        ..Parts::default()
    }));
    assert!(is_refused(Parts {
        shortened_records: 104,
        ..Parts::default()
    }));
}

#[test]
fn types_of_maps_tell_of_nothing_outside() {
    assert!(is_damaged(Parts {
        name_of_member: 60,
        ..Parts::default()
    }));
    assert!(is_refused(Parts {
        name_of_member: 1000,
        ..Parts::default()
    }));
    assert!(is_parsed(Parts {
        array_length: 0x3fff_ffff,
        ..Parts::default()
    }));
    assert!(is_damaged(Parts {
        array_length: 0x4000_0000,
        ..Parts::default()
    }));
    assert!(is_damaged(Parts {
        linkage: 4,
        ..Parts::default()
    }));
}

#[test]
fn maps_can_be_set_up() {
    assert!(is_parsed(Parts {
        map_pinning: 0,
        ..Parts::default()
    }));
    assert!(is_damaged(Parts {
        map_pinning: 2,
        ..Parts::default()
    }));
    {
        let parts = Parts {
            bss_size: 1 << 40,
            ..Parts::default()
        };
        assert_eq!(probe_octets(parts.file()).object.reason(), Some(DAMAGED_REASON));
    }
}

#[test]
fn octets_that_are_no_object_are_refused() {
    for wide in [true, false] {
        let file = Parts { wide, ..Parts::default() }.file();
        for length in [0, 15, 16, 51, 63, 64, 100, file.len() - 1] {
            assert!(is_refused_octets(file[..length].to_vec()));
        }
    }
    {
        assert!(is_refused_octets(b"not an elf object".to_vec()));
        assert!(is_refused_octets(b"MZ...............".to_vec()));
        let mut class = Parts::default().file();
        class[4] = 3;
        assert!(is_refused_octets(class));
    }
}

#[test]
fn object_without_sections_is_empty() {
    let mut wide = Parts::default().file();
    wide[40..48].copy_from_slice(&0u64.to_le_bytes());
    let mut narrow = Parts { wide: false, ..Parts::default() }.file();
    narrow[32..36].copy_from_slice(&0u32.to_le_bytes());
    for file in [wide, narrow[..52].to_vec(), narrow] {
        assert_eq!(
            probe_octets(file).summary(),
            "object object.bpf.o parsed, programs=none, maps=none"
        );
    }
}

/// A Mach-O file with one section, which has a name and a size but no octets.
fn mach(name: &str, size: u64) -> Vec<u8> {
    let mut file = words(&[0xfeed_facf, 0x0100_0007, 3, 1, 1, 152, 0, 0]);
    file.extend(words(&[25, 152]));
    file.extend_from_slice(&[0; 56]);
    file.extend(words(&[1, 0]));
    let mut section = name.as_bytes().to_vec();
    section.resize(40, 0);
    section.extend_from_slice(&size.to_le_bytes());
    section.resize(64, 0);
    section.push(1);
    section.resize(80, 0);
    file.extend_from_slice(&section);
    file
}

#[test]
fn mach_file_has_no_telling_sections() {
    for name in ["__text", ".text", "kprobe/probe", ".maps2"] {
        assert!(object_can_be_looked_into(&mach(name, 8), native_is_little()));
    }
    assert_eq!(
        probe_octets(mach("__text", 8)).summary(),
        "object object.bpf.o parsed, programs=none, maps=none"
    );
    assert_eq!(
        probe_octets(mach(".bss", 8)).summary(),
        "object object.bpf.o parsed, programs=none, maps=.bss"
    );
    assert!(is_refused_octets(mach(".maps", 8)));
    for file in [mach("maps", 0), mach(".BTF", 0), mach(".bss", 1 << 40)] {
        assert_eq!(probe_octets(file).object.reason(), Some(DAMAGED_REASON));
    }
}

/// A COFF file with one section, which has a name, and symbols of a type.
fn coff(name: &str, symbols: u32, kind: u16) -> Vec<u8> {
    let mut file = vec![0x64, 0x86, 1, 0];
    file.extend(words(&[0, 60, symbols, 0]));
    let mut section = name.as_bytes().to_vec();
    section.resize(40, 0);
    section[16] = 8;
    section[20] = 8;
    section[36] = 0x20;
    file.extend_from_slice(&section);
    for _ in 0..symbols {
        file.extend_from_slice(b"function\0\0\0\0\x01\0");
        file.extend_from_slice(&kind.to_le_bytes());
        file.extend_from_slice(&[2, 1]);
    }
    file.extend(words(&[4]));
    file
}

#[test]
fn coff_file_has_nothing_to_take_out() {
    assert!(is_refused_octets(coff(".text", 0, 0)));
    assert!(is_refused_octets(coff(".text", 1, 0)));
    assert!(is_refused_octets(coff("kprobe", 0, 0)));
    assert!(is_refused_octets(coff("/4", 0, 0)));
    let mut sized = coff(".text", 2, 0x20);
    sized[82..86].copy_from_slice(&8u32.to_le_bytes());
    assert_eq!(
        probe_octets(sized.clone()).summary(),
        "object object.bpf.o parsed, programs=none, maps=none"
    );
    sized[82] = 9;
    assert_eq!(probe_octets(sized).object.reason(), Some(DAMAGED_REASON));
    let mut long = coff("/4", 0, 0);
    long.truncate(60);
    long.extend(words(&[10]));
    long.extend_from_slice(b".data\0");
    assert_eq!(
        probe_octets(long.clone()).summary(),
        "object object.bpf.o parsed, programs=none, maps=.data"
    );
    long[64..69].copy_from_slice(b".BTF\0");
    assert_eq!(probe_octets(long).object.reason(), Some(DAMAGED_REASON));
    assert_eq!(
        probe_octets(coff(".data", 2, 0)).summary(),
        "object object.bpf.o parsed, programs=none, maps=.data"
    );
    for file in [
        coff(".text", 2, 0x20),
        coff("kprobe", 1, 0),
        coff("maps", 1, 0),
        coff(".BTF", 0, 0),
        coff("//AAAAAA", 0, 0),
    ] {
        assert_eq!(probe_octets(file).object.reason(), Some(DAMAGED_REASON));
    }
}

/// An image without sections, with symbols and a base.
fn image(base: u64) -> Vec<u8> {
    let mut file = b"MZ".to_vec();
    file.resize(60, 0);
    file.extend(words(&[64]));
    file.extend_from_slice(b"PE\0\0");
    file.extend_from_slice(&[0x64, 0x86, 0, 0]);
    file.extend(words(&[0, 200, 1]));
    file.extend_from_slice(&[112, 0, 0, 0]);
    file.extend_from_slice(&[0x0b, 2]);
    file.resize(112, 0);
    file.extend_from_slice(&base.to_le_bytes());
    file.resize(200, 0);
    file.extend_from_slice(b"variable\0\0\0\0\x01\0\0\0\x03\0");
    file.extend(words(&[4]));
    file
}

#[test]
fn base_of_an_image_is_not_too_high() {
    assert_eq!(
        probe_octets(image(0x1_4000_0000)).summary(),
        "object object.bpf.o parsed, programs=none, maps=none"
    );
    assert_eq!(probe_octets(image(u64::MAX)).object.reason(), Some(DAMAGED_REASON));
}

/// An XCOFF file with one section, which has a name and 8 octets at an address, and a symbol with a
/// size.
fn xcoff(name: &str, size: u8) -> Vec<u8> {
    let mut file = vec![0x01, 0xdf, 0, 1, 0, 0, 0, 0, 0, 0, 0, 68, 0, 0, 0, 2, 0, 0, 0, 0];
    let mut section = name.as_bytes().to_vec();
    section.resize(40, 0);
    section[11] = 16;
    section[19] = 8;
    section[23] = 60;
    section[39] = 0x20;
    file.extend_from_slice(&section);
    file.extend_from_slice(&[0; 8]);
    file.extend_from_slice(b"function\0\0\0\x10\0\x01\0\0\x02\x01");
    file.extend_from_slice(&[0, 0, 0, size, 0, 0, 0, 0, 0, 0, 1, 0, 0, 0, 0, 0, 0, 0]);
    file.extend_from_slice(&[0, 0, 0, 4]);
    file
}

#[test]
fn xcoff_file_has_nothing_to_take_out() {
    assert!(object_can_be_looked_into(&xcoff(".text", 8), native_is_little()));
    assert_eq!(
        probe_octets(xcoff(".data", 16)).summary(),
        "object object.bpf.o parsed, programs=none, maps=.data"
    );
    assert!(is_refused_octets(xcoff(".text", 0)));
    assert!(is_refused_octets(xcoff("other", 8)));
    for file in [
        xcoff(".text", 16),
        xcoff("kprobe", 8),
        xcoff("maps", 8),
        xcoff(".BTF", 8),
    ] {
        assert_eq!(probe_octets(file).object.reason(), Some(DAMAGED_REASON));
    }
    let mut without = xcoff("kprobe", 8);
    without[15] = 0;
    assert!(is_refused_octets(without));
}

#[test]
fn changed_objects_are_reported_on() {
    for wide in [true, false] {
        let file = Parts { wide, ..Parts::default() }.file();
        let entry = if wide { 64 } else { 40 };
        let bss = file.len() - 4 * entry;
        for place in 0..file.len() {
            if (bss..bss + entry).contains(&place) {
                continue;
            }
            for octet in [0, 1, 0x80, 0xff, file[place].wrapping_add(1)] {
                let mut changed = file.clone();
                changed[place] = octet;
                let report = probe_octets(changed);
                assert!(report.object_available() || report.programs.is_empty());
            }
        }
    }
}
