use wad_viewer::wad::{
    decode_name, Directory, DirectoryEntry, DoomEngine, FormatError, LineDef, LumpError, Vertex,
    WADHeader, WadData, ENTRY_SIZE, HEADER_SIZE,
};

fn push_i32(out: &mut Vec<u8>, v: i32) {
    out.extend_from_slice(&v.to_le_bytes());
}

fn name_field(name: &[u8]) -> [u8; 8] {
    let mut f = [0u8; 8];
    f[..name.len()].copy_from_slice(name);
    f
}

/// Builds an archive image: header, the lumps' data, then the directory.
fn build_archive(tag: &[u8; 4], lumps: &[(&[u8], Vec<u8>)]) -> Vec<u8> {
    let mut data = Vec::new();
    let mut entries = Vec::new();
    let mut pos = HEADER_SIZE as i32;
    let mut body = Vec::new();
    for (name, bytes) in lumps {
        entries.push((pos, bytes.len() as i32, name_field(name)));
        body.extend_from_slice(bytes);
        pos += bytes.len() as i32;
    }
    data.extend_from_slice(tag);
    push_i32(&mut data, lumps.len() as i32);
    push_i32(&mut data, pos);
    data.extend_from_slice(&body);
    for (p, l, n) in entries {
        push_i32(&mut data, p);
        push_i32(&mut data, l);
        data.extend_from_slice(&n);
    }
    data
}

fn vertex_bytes(vs: &[(i16, i16)]) -> Vec<u8> {
    let mut out = Vec::new();
    for (x, y) in vs {
        out.extend_from_slice(&x.to_le_bytes());
        out.extend_from_slice(&y.to_le_bytes());
    }
    out
}

fn load(data: Vec<u8>, tag: [u8; 4]) -> (DoomEngine, Result<(), FormatError>) {
    let mut e = DoomEngine::new("level.wad");
    let r = e.load_wad(data, tag);
    (e, r)
}

#[test]
fn header_round_trip() {
    let h = WADHeader { identification: *b"TEST", numlumps: 7, infotableofs: 1234 };
    let bytes = h.to_bytes();
    assert_eq!(bytes.len(), HEADER_SIZE);
    let mut d = WADHeader::new();
    assert_eq!(d.read_header(&bytes), Ok(()));
    assert_eq!(d.identification, *b"TEST");
    assert_eq!(d.numlumps, 7);
    assert_eq!(d.infotableofs, 1234);
}

#[test]
fn header_round_trip_extremes() {
    for (n, o) in [(i32::MIN, i32::MAX), (-1, 0), (0x0102_0304, -0x0102_0304)] {
        let h = WADHeader { identification: *b"PWAD", numlumps: n, infotableofs: o };
        let mut d = WADHeader::new();
        assert_eq!(d.read_header(&h.to_bytes()), Ok(()));
        assert_eq!((d.identification, d.numlumps, d.infotableofs), (*b"PWAD", n, o));
    }
}

#[test]
fn header_bytes_are_little_endian() {
    let h = WADHeader { identification: *b"IWAD", numlumps: 0x0102_0304, infotableofs: -2 };
    assert_eq!(
        h.to_bytes(),
        vec![b'I', b'W', b'A', b'D', 4, 3, 2, 1, 0xFE, 0xFF, 0xFF, 0xFF]
    );
}

#[test]
fn blank_header() {
    let h = WADHeader::new();
    assert_eq!(h.identification, *b"    ");
    assert_eq!((h.numlumps, h.infotableofs), (0, 0));
}

#[test]
fn short_header_is_truncated() {
    let mut h = WADHeader::new();
    assert_eq!(h.read_header(&[b'I', b'W', b'A', b'D', 1, 0, 0]), Err(FormatError::Truncated));
    assert_eq!(h.identification, *b"    ");
}

#[test]
fn name_decoding() {
    assert_eq!(decode_name(b"VERTEXES", 0), b"VERTEXES".to_vec());
    assert_eq!(decode_name(b"MAP01\0\0\0", 0), b"MAP01".to_vec());
    assert_eq!(decode_name(b"AB  \0XYZ", 0), b"AB".to_vec());
    assert_eq!(decode_name(b" A\t \0\0\0\0", 0), b" A".to_vec());
    assert_eq!(decode_name(b"\0ABCDEFG", 0), Vec::<u8>::new());
    assert_eq!(decode_name(b"xxTHINGS\0\0", 2), b"THINGS".to_vec());
}

#[test]
fn entry_decoding() {
    let mut bytes = Vec::new();
    push_i32(&mut bytes, 400);
    push_i32(&mut bytes, 36);
    bytes.extend_from_slice(b"SECTORS\0");
    let mut e = DirectoryEntry::new();
    assert_eq!(e.read_entry(&bytes, 0), Ok(()));
    assert_eq!((e.filepos, e.size), (400, 36));
    assert_eq!(e.name, b"SECTORS".to_vec());
    assert!(e.has_name("SECTORS"));
    assert!(!e.has_name("sectors"));
    assert_eq!(e.read_entry(&bytes, 1), Err(FormatError::Truncated));
}

#[test]
fn directory_lookup_distinct_names() {
    let names: [&[u8]; 4] = [b"VERTEXES", b"LINEDEFS", b"THINGS", b"E1M1"];
    let mut image = vec![0u8; 8];
    for (k, n) in names.iter().enumerate() {
        push_i32(&mut image, 100 * k as i32 + 12);
        push_i32(&mut image, 4 * k as i32 + 8);
        image.extend_from_slice(&name_field(n));
    }
    let mut d = Directory::new(names.len());
    assert_eq!(d.read_entries(&image, 8, names.len()), Ok(()));
    assert_eq!(d.entries.len(), 4);
    assert_eq!(d.find_lump("VERTEXES"), Some((12, 8)));
    assert_eq!(d.find_lump("LINEDEFS"), Some((112, 12)));
    assert_eq!(d.find_lump("THINGS"), Some((212, 16)));
    assert_eq!(d.find_lump("E1M1"), Some((312, 20)));
    assert_eq!(d.find_lump("SECTORS"), None);
    assert_eq!(d.find_lump("things"), None);
    assert_eq!(d.find_lump("VERTEXE"), None);
}

#[test]
fn directory_first_occurrence_wins() {
    let mut image = Vec::new();
    for (p, l) in [(10, 4), (20, 8)] {
        push_i32(&mut image, p);
        push_i32(&mut image, l);
        image.extend_from_slice(b"THINGS\0\0");
    }
    let mut d = Directory::new(0);
    assert_eq!(d.read_entries(&image, 0, 2), Ok(()));
    assert_eq!(d.find_lump("THINGS"), Some((10, 4)));
    assert_eq!(d.get_entry("THINGS").map(|e| e.size), Some(4));
}

#[test]
fn directory_overrun_is_truncated() {
    let image = vec![0u8; 40];
    let mut d = Directory::new(3);
    assert_eq!(d.read_entries(&image, 0, 3), Err(FormatError::Truncated));
    assert_eq!(d.entries.len(), 0);
    assert_eq!(d.read_entries(&image, 41, 0), Err(FormatError::Truncated));
    assert_eq!(d.read_entries(&image, 8, 2), Ok(()));
    assert_eq!(d.entries.len(), 2);
}

#[test]
fn load_reads_directory() {
    let data = build_archive(b"TEST", &[(b"VERTEXES", vertex_bytes(&[(1, 2)])), (b"THINGS", vec![9; 10])]);
    let (e, r) = load(data, *b"TEST");
    assert_eq!(r, Ok(()));
    assert_eq!(e.wad_path, "level.wad");
    assert_eq!(e.directory.find_lump("VERTEXES"), Some((12, 4)));
    assert_eq!(e.directory.find_lump("THINGS"), Some((16, 10)));
}

#[test]
fn load_rejects_wrong_tag() {
    let data = build_archive(b"PWAD", &[(b"THINGS", vec![1, 2])]);
    let (e, r) = load(data, *b"IWAD");
    assert_eq!(r, Err(FormatError::BadMagic));
    assert!(e.directory.entries.is_empty());
    assert!(e.data.is_empty());
}

#[test]
fn load_rejects_overrunning_directory() {
    let mut data = build_archive(b"TEST", &[(b"THINGS", vec![1, 2])]);
    let n = data.len();
    data.truncate(n - 1);
    let (e, r) = load(data, *b"TEST");
    assert_eq!(r, Err(FormatError::Truncated));
    assert!(e.directory.entries.is_empty());

    let mut data = Vec::new();
    data.extend_from_slice(b"TEST");
    push_i32(&mut data, 1000);
    push_i32(&mut data, 12);
    data.extend_from_slice(&[0u8; 32]);
    assert_eq!(load(data, *b"TEST").1, Err(FormatError::Truncated));
}

#[test]
fn load_rejects_negative_fields() {
    let mut data = Vec::new();
    data.extend_from_slice(b"TEST");
    push_i32(&mut data, -1);
    push_i32(&mut data, 12);
    assert_eq!(load(data, *b"TEST").1, Err(FormatError::Truncated));
    let mut data = Vec::new();
    data.extend_from_slice(b"TEST");
    push_i32(&mut data, 0);
    push_i32(&mut data, -4);
    assert_eq!(load(data, *b"TEST").1, Err(FormatError::Truncated));
}

#[test]
fn load_rejects_short_image() {
    assert_eq!(load(b"TEST".to_vec(), *b"TEST").1, Err(FormatError::Truncated));
    assert_eq!(load(Vec::new(), *b"TEST").1, Err(FormatError::Truncated));
}

#[test]
fn failed_load_keeps_previous_archive() {
    let data = build_archive(b"TEST", &[(b"THINGS", vec![1, 2])]);
    let mut e = DoomEngine::new("a.wad");
    assert_eq!(e.load_wad(data.clone(), *b"TEST"), Ok(()));
    assert_eq!(e.load_wad(vec![1, 2, 3], *b"TEST"), Err(FormatError::Truncated));
    assert_eq!(e.data, data);
    assert_eq!(e.directory.find_lump("THINGS"), Some((12, 2)));
}

#[test]
fn empty_directory_loads() {
    let data = build_archive(b"IWAD", &[]);
    let (e, r) = load(data, *b"IWAD");
    assert_eq!(r, Ok(()));
    assert_eq!(e.directory.find_lump("VERTEXES"), None);
}

#[test]
fn vertex_decode_widens_exactly() {
    let data = build_archive(b"TEST", &[(b"VERTEXES", vertex_bytes(&[(-1, 100), (32767, -32768), (0, 7)]))]);
    let (e, _) = load(data, *b"TEST");
    let vs = e.read_vertices(12, 12).unwrap();
    assert_eq!(vs.len(), 3);
    assert_eq!(vs[0], Vertex { x: -1, y: 100 });
    assert_eq!((vs[0].x as f32, vs[0].y as f32), (-1.0, 100.0));
    assert_eq!(vs[1], Vertex { x: 32767, y: -32768 });
    assert_eq!(vs[2], Vertex { x: 0, y: 7 });
    assert_eq!(e.read_vertices(12, 0), Ok(vec![]));
}

#[test]
fn vertex_lump_misaligned() {
    let data = build_archive(b"TEST", &[(b"VERTEXES", vec![1, 0, 2, 0, 3, 0])]);
    let (e, _) = load(data, *b"TEST");
    assert_eq!(e.read_vertices(12, 6), Err(FormatError::Misaligned));
    assert_eq!(e.read_vertices(12, 5), Err(FormatError::Misaligned));
    let w = WadData::new(e);
    assert_eq!(w.read_vertexes(), Err(LumpError::Format(FormatError::Misaligned)));
}

#[test]
fn vertex_lump_out_of_bounds() {
    let data = build_archive(b"TEST", &[(b"VERTEXES", vertex_bytes(&[(1, 1)]))]);
    let (e, _) = load(data, *b"TEST");
    let n = e.data.len() as i32;
    assert_eq!(e.read_vertices(n - 2, 4), Err(FormatError::Truncated));
    assert_eq!(e.read_vertices(-4, 4), Err(FormatError::Truncated));
    assert_eq!(e.read_vertices(12, -4), Err(FormatError::Truncated));
    assert_eq!(e.read_vertices(n, 0), Ok(vec![]));
}

#[test]
fn single_vertex_read() {
    let data = build_archive(b"TEST", &[(b"VERTEXES", vertex_bytes(&[(-300, 258)]))]);
    let (e, _) = load(data, *b"TEST");
    assert_eq!(e.read_vertex(12), Ok(Vertex { x: -300, y: 258 }));
    assert_eq!(e.read_vertex(-1), Err(FormatError::Truncated));
    let n = e.data.len() as i32;
    assert_eq!(e.read_vertex(n - 3), Err(FormatError::Truncated));
}

#[test]
fn named_lumps() {
    let mut lines = Vec::new();
    for (a, b) in [(0u16, 1u16), (1, 2), (65535, 3)] {
        lines.extend_from_slice(&a.to_le_bytes());
        lines.extend_from_slice(&b.to_le_bytes());
        lines.extend_from_slice(&[0xAA; 10]);
    }
    let data = build_archive(b"TEST", &[(b"VERTEXES", vertex_bytes(&[(5, -5)])), (b"LINEDEFS", lines)]);
    let (e, _) = load(data, *b"TEST");
    let w = WadData::new(e);
    assert_eq!(w.read_vertexes(), Ok(vec![Vertex { x: 5, y: -5 }]));
    assert_eq!(
        w.read_linedefs(),
        Ok(vec![
            LineDef { start_vertex: 0, end_vertex: 1 },
            LineDef { start_vertex: 1, end_vertex: 2 },
            LineDef { start_vertex: 65535, end_vertex: 3 },
        ])
    );
}

#[test]
fn missing_lump_is_lookup_miss() {
    let data = build_archive(b"TEST", &[(b"THINGS", vec![0; 4])]);
    let (e, _) = load(data, *b"TEST");
    let w = WadData::new(e);
    assert_eq!(w.read_vertexes(), Err(LumpError::LookupMiss));
    assert_eq!(w.read_linedefs(), Err(LumpError::LookupMiss));
}

#[test]
fn linedef_lump_misaligned() {
    let data = build_archive(b"TEST", &[(b"LINEDEFS", vec![0; 15])]);
    let (e, _) = load(data, *b"TEST");
    assert_eq!(e.read_linedefs(12, 15), Err(FormatError::Misaligned));
    assert_eq!(ENTRY_SIZE, 16);
}
