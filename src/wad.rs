//! The lump archive: a fixed header, a directory of named lumps, and the
//! typed decoding of a lump's records.

use vstd::prelude::*;
use vstd::string::*;
use crate::bytes::{le_i32_at, le_i32_bytes, le_i16_at, le_u16_at, lemma_i32_round_trip, push_i32_le, read_i32_le, read_i16_le, read_u16_le};

verus! {

/// Size in bytes of the archive header.
pub const HEADER_SIZE: usize = 12;

/// Size in bytes of one directory record.
pub const ENTRY_SIZE: usize = 16;

/// Width in bytes of a directory record's name field.
pub const NAME_SIZE: usize = 8;

/// Size in bytes of one vertex record.
pub const VERTEX_SIZE: usize = 4;

/// Size in bytes of one wall-line record.
pub const LINEDEF_SIZE: usize = 14;

/// Why an archive image or one of its lumps could not be decoded.
#[derive(Debug, Clone, Copy, PartialEq, Eq, Structural)]
pub enum FormatError {
    /// The header's tag is not the one expected.
    BadMagic,
    /// A declared region reaches past the end of the bytes, or is negative.
    Truncated,
    /// A lump's length is not a multiple of its record size.
    Misaligned,
}

/// The fixed-size header at the start of an archive.
#[derive(Debug, Clone, Copy)]
pub struct WADHeader {
    /// Four-byte tag naming the kind of archive.
    pub identification: [u8; 4],
    /// Number of records in the directory.
    pub numlumps: i32,
    /// Byte offset of the directory.
    pub infotableofs: i32,
}

/// The header that a byte image holds at its start.
pub open spec fn header_at(b: Seq<u8>) -> WADHeader {
    WADHeader {
        identification: [b[0], b[1], b[2], b[3]],
        numlumps: le_i32_at(b, 4) as i32,
        infotableofs: le_i32_at(b, 8) as i32,
    }
}

/// The twelve bytes that encode a header.
pub open spec fn header_bytes(h: WADHeader) -> Seq<u8> {
    h.identification@ + le_i32_bytes(h.numlumps as int) + le_i32_bytes(h.infotableofs as int)
}

impl WADHeader {
    /// A blank header: a tag of four spaces, no lumps, directory at offset zero.
    pub fn new() -> (h: WADHeader)
        ensures
            h.identification@ == seq![32u8, 32u8, 32u8, 32u8],
            h.numlumps == 0,
            h.infotableofs == 0,
    {
        WADHeader { identification: [32u8; 4], numlumps: 0, infotableofs: 0 }
    }

    /// Decodes the header at the start of `data` into `self`. Fails with
    /// `Truncated`, leaving `self` as it was, when fewer than twelve bytes are given.
    pub fn read_header(&mut self, data: &[u8]) -> (r: Result<(), FormatError>)
        ensures
            data@.len() >= HEADER_SIZE ==> r is Ok && *final(self) == header_at(data@),
            data@.len() < HEADER_SIZE ==> r == Err::<(), FormatError>(FormatError::Truncated)
                && *final(self) == *old(self),
    {
        if data.len() < HEADER_SIZE {
            return Err(FormatError::Truncated);
        }
        let id: [u8; 4] = [data[0], data[1], data[2], data[3]];
        self.identification = id;
        self.numlumps = read_i32_le(data, 4);
        self.infotableofs = read_i32_le(data, 8);
        Ok(())
    }

    /// The twelve-byte encoding of this header.
    pub fn to_bytes(&self) -> (r: Vec<u8>)
        ensures
            r@ == header_bytes(*self),
    {
        let mut out: Vec<u8> = Vec::new();
        out.push(self.identification[0]);
        out.push(self.identification[1]);
        out.push(self.identification[2]);
        out.push(self.identification[3]);
        assert(out@ == self.identification@);
        push_i32_le(&mut out, self.numlumps);
        push_i32_le(&mut out, self.infotableofs);
        out
    }
}

/// Encoding a header and decoding the result gives back the same tag, lump
/// count and directory offset.
pub proof fn lemma_header_round_trip(h: WADHeader)
    ensures
        header_bytes(h).len() == HEADER_SIZE,
        header_at(header_bytes(h)) == h,
{
    let b = header_bytes(h);
    assert(b.subrange(4, 8) == le_i32_bytes(h.numlumps as int));
    assert(b.subrange(8, 12) == le_i32_bytes(h.infotableofs as int));
    lemma_i32_round_trip(h.numlumps, b, 4);
    lemma_i32_round_trip(h.infotableofs, b, 8);
    let d = header_at(b);
    assert(d.identification@ == h.identification@);
    assert(d.identification == h.identification);
}


/// A byte that ends a lump name when it trails: space, tab, line feed,
/// vertical tab, form feed or carriage return.
pub open spec fn is_blank(c: u8) -> bool {
    c == 32 || (9 <= c && c <= 13)
}

/// The index of the first NUL byte of `s` at or after `i`, or `s.len()` if none.
pub open spec fn nul_cut_from(s: Seq<u8>, i: int) -> int
    decreases s.len() - i,
{
    if i < 0 || i >= s.len() {
        s.len() as int
    } else if s[i] == 0 {
        i
    } else {
        nul_cut_from(s, i + 1)
    }
}

/// `s` without its trailing blank bytes.
pub open spec fn trim_end(s: Seq<u8>) -> Seq<u8>
    decreases s.len(),
{
    if s.len() > 0 && is_blank(s.last()) {
        trim_end(s.drop_last())
    } else {
        s
    }
}

/// The lookup key held in a fixed-width name field: the bytes before the first
/// NUL (or the whole field), without trailing blanks.
pub open spec fn name_of_field(f: Seq<u8>) -> Seq<u8> {
    trim_end(f.take(nul_cut_from(f, 0)))
}

/// Whether the byte name `n` reads as the text `s`, each byte taken as the
/// character of the same code.
pub open spec fn name_matches(n: Seq<u8>, s: Seq<char>) -> bool {
    n.len() == s.len() && forall|i: int| 0 <= i < n.len() ==> (s[i] as int) == (n[i] as int)
}

/// Decodes the name field of `NAME_SIZE` bytes at `off`.
pub fn decode_name(data: &[u8], off: usize) -> (r: Vec<u8>)
    requires
        off + NAME_SIZE <= data@.len(),
    ensures
        r@ == name_of_field(data@.subrange(off as int, off + NAME_SIZE)),
{
    let ghost f = data@.subrange(off as int, off + NAME_SIZE);
    let len = data.len();
    let mut k: usize = 0;
    while k < NAME_SIZE && data[off + k] != 0
        invariant
            k <= NAME_SIZE,
            off + NAME_SIZE <= data@.len() == len,
            f == data@.subrange(off as int, off + NAME_SIZE),
            nul_cut_from(f, 0) == nul_cut_from(f, k as int),
        decreases NAME_SIZE - k,
    {
        assert(f[k as int] == data@[off + k]);
        k = k + 1;
    }
    assert(k < NAME_SIZE ==> f[k as int] == data@[off + k]);
    assert(nul_cut_from(f, k as int) == k);
    let mut e: usize = k;
    while e > 0 && (data[off + e - 1] == 32 || (9 <= data[off + e - 1] && data[off + e - 1] <= 13))
        invariant
            e <= k <= NAME_SIZE,
            off + NAME_SIZE <= data@.len() == len,
            f == data@.subrange(off as int, off + NAME_SIZE),
            trim_end(f.take(k as int)) == trim_end(f.take(e as int)),
        decreases e,
    {
        assert(f.take(e as int).last() == data@[off + e - 1]);
        assert(f.take(e as int).drop_last() == f.take(e - 1));
        e = e - 1;
    }
    assert(e > 0 ==> f.take(e as int).last() == data@[off + e - 1]);
    assert(trim_end(f.take(e as int)) == f.take(e as int));
    let mut name: Vec<u8> = Vec::new();
    let mut j: usize = 0;
    while j < e
        invariant
            j <= e <= NAME_SIZE,
            off + NAME_SIZE <= data@.len() == len,
            f == data@.subrange(off as int, off + NAME_SIZE),
            name@ == f.take(j as int),
        decreases e - j,
    {
        name.push(data[off + j]);
        j = j + 1;
        assert(name@ == f.take(j as int));
    }
    name
}

/// What a directory record says: where its lump lies and what it is called.
pub ghost struct EntryView {
    pub filepos: i32,
    pub size: i32,
    pub name: Seq<u8>,
}

/// The directory record encoded at `off`.
pub open spec fn entry_at(b: Seq<u8>, off: int) -> EntryView {
    EntryView {
        filepos: le_i32_at(b, off) as i32,
        size: le_i32_at(b, off + 4) as i32,
        name: name_of_field(b.subrange(off + 8, off + 16)),
    }
}

/// One record of the directory.
#[derive(Debug)]
pub struct DirectoryEntry {
    /// Byte offset of the lump's data.
    pub filepos: i32,
    /// Byte length of the lump's data.
    pub size: i32,
    /// The lump's name, cut at the first NUL and without trailing blanks.
    pub name: Vec<u8>,
}

impl View for DirectoryEntry {
    type V = EntryView;

    open spec fn view(&self) -> EntryView {
        EntryView { filepos: self.filepos, size: self.size, name: self.name@ }
    }
}

impl DirectoryEntry {
    /// An entry with no data and an empty name.
    pub fn new() -> (e: DirectoryEntry)
        ensures
            e@ == (EntryView { filepos: 0, size: 0, name: Seq::empty() }),
    {
        DirectoryEntry { filepos: 0, size: 0, name: Vec::new() }
    }

    /// Decodes the directory record at `off` into `self`. Fails with `Truncated`,
    /// leaving `self` as it was, when the record reaches past the end of `data`.
    pub fn read_entry(&mut self, data: &[u8], off: usize) -> (r: Result<(), FormatError>)
        ensures
            off + ENTRY_SIZE <= data@.len() ==> r is Ok && final(self)@ == entry_at(
                data@,
                off as int,
            ),
            off + ENTRY_SIZE > data@.len() ==> r == Err::<(), FormatError>(
                FormatError::Truncated,
            ) && final(self)@ == old(self)@,
    {
        if off > data.len() || data.len() - off < ENTRY_SIZE {
            return Err(FormatError::Truncated);
        }
        self.filepos = read_i32_le(data, off);
        self.size = read_i32_le(data, off + 4);
        self.name = decode_name(data, off + 8);
        Ok(())
    }

    /// Whether this entry's name reads as `name`.
    pub fn has_name(&self, name: &str) -> (r: bool)
        ensures
            r == name_matches(self.name@, name@),
    {
        let n = name.unicode_len();
        if n != self.name.len() {
            return false;
        }
        let mut i: usize = 0;
        while i < n
            invariant
                n == name@.len() == self.name@.len(),
                i <= n,
                forall|j: int| 0 <= j < i ==> (name@[j] as int) == (self.name@[j] as int),
            decreases n - i,
        {
            if name.get_char(i) as u32 != self.name[i] as u32 {
                return false;
            }
            i = i + 1;
        }
        true
    }
}


/// The `n` directory records encoded one after another from `off`.
pub open spec fn directory_at(b: Seq<u8>, off: int, n: int) -> Seq<EntryView> {
    Seq::new(n as nat, |i: int| entry_at(b, off + ENTRY_SIZE * i))
}

/// The first entry at index `i` or later whose name reads as `name`.
pub open spec fn lookup_from(d: Seq<EntryView>, name: Seq<char>, i: int) -> Option<EntryView>
    decreases d.len() - i,
{
    if i < 0 || i >= d.len() {
        None
    } else if name_matches(d[i].name, name) {
        Some(d[i])
    } else {
        lookup_from(d, name, i + 1)
    }
}

/// The first entry whose name reads as `name`: the first occurrence wins.
pub open spec fn lookup(d: Seq<EntryView>, name: Seq<char>) -> Option<EntryView> {
    lookup_from(d, name, 0)
}

/// The ordered records of an archive's directory.
#[derive(Debug)]
pub struct Directory {
    pub entries: Vec<DirectoryEntry>,
}

impl View for Directory {
    type V = Seq<EntryView>;

    open spec fn view(&self) -> Seq<EntryView> {
        self.entries@.map_values(|e: DirectoryEntry| e@)
    }
}

impl Directory {
    /// An empty directory with room for `num_entries` records.
    pub fn new(num_entries: usize) -> (d: Directory)
        ensures
            d@ == Seq::<EntryView>::empty(),
    {
        let d = Directory { entries: Vec::with_capacity(num_entries) };
        assert(d@ =~= Seq::<EntryView>::empty());
        d
    }

    /// Appends the `num_entries` records encoded from `off` on. Fails with
    /// `Truncated`, appending nothing, when they reach past the end of `data`.
    pub fn read_entries(&mut self, data: &[u8], off: usize, num_entries: usize) -> (r: Result<
        (),
        FormatError,
    >)
        ensures
            off + ENTRY_SIZE * num_entries <= data@.len() ==> r is Ok && final(self)@ == old(
                self,
            )@ + directory_at(data@, off as int, num_entries as int),
            off + ENTRY_SIZE * num_entries > data@.len() ==> r == Err::<(), FormatError>(
                FormatError::Truncated,
            ) && final(self)@ == old(self)@,
    {
        let len = data.len();
        if off > len || num_entries > (len - off) / ENTRY_SIZE {
            return Err(FormatError::Truncated);
        }
        let ghost start = self@;
        let mut i: usize = 0;
        while i < num_entries
            invariant
                i <= num_entries,
                len == data@.len(),
                off + ENTRY_SIZE * num_entries <= len,
                self@ == start + directory_at(data@, off as int, i as int),
            decreases num_entries - i,
        {
            let mut entry = DirectoryEntry::new();
            assert(ENTRY_SIZE * i + ENTRY_SIZE <= ENTRY_SIZE * num_entries) by (nonlinear_arith)
                requires i < num_entries;
            let at = off + ENTRY_SIZE * i;
            let _ = entry.read_entry(data, at);
            let ghost prev = self@;
            let ghost e = entry@;
            self.entries.push(entry);
            assert(self@ =~= prev.push(e));
            assert(directory_at(data@, off as int, i + 1) =~= directory_at(
                data@,
                off as int,
                i as int,
            ).push(e));
            i = i + 1;
        }
        Ok(())
    }

    /// The first entry whose name reads as `name`, if any.
    pub fn get_entry(&self, name: &str) -> (r: Option<&DirectoryEntry>)
        ensures
            match r {
                Some(e) => lookup(self@, name@) == Some(e@),
                None => lookup(self@, name@) is None,
            },
    {
        let mut i: usize = 0;
        while i < self.entries.len()
            invariant
                i <= self.entries@.len(),
                lookup(self@, name@) == lookup_from(self@, name@, i as int),
            decreases self.entries@.len() - i,
        {
            if self.entries[i].has_name(name) {
                return Some(&self.entries[i]);
            }
            i = i + 1;
        }
        None
    }

    /// The byte offset and length of the first lump named `name`; `None` when no
    /// lump has that name.
    pub fn find_lump(&self, name: &str) -> (r: Option<(i32, i32)>)
        ensures
            r == match lookup(self@, name@) {
                Some(e) => Some((e.filepos, e.size)),
                None => None::<(i32, i32)>,
            },
    {
        match self.get_entry(name) {
            Some(e) => Some((e.filepos, e.size)),
            None => None,
        }
    }
}

/// In a directory whose names are pairwise distinct, the lookup of each
/// record's name finds that record.
pub proof fn lemma_lookup_distinct(d: Seq<EntryView>, k: int, name: Seq<char>)
    requires
        0 <= k < d.len(),
        forall|i: int, j: int| 0 <= i < d.len() && 0 <= j < d.len() && i != j ==> d[i].name != d[j].name,
        name_matches(d[k].name, name),
    ensures
        lookup(d, name) == Some(d[k]),
{
    assert forall|i: int| 0 <= i < d.len() && i != k implies !name_matches(d[i].name, name) by {
        if name_matches(d[i].name, name) {
            assert forall|m: int| 0 <= m < d[i].name.len() implies d[i].name[m] == d[k].name[m] by {
                assert((name[m] as int) == (d[i].name[m] as int));
                assert((name[m] as int) == (d[k].name[m] as int));
            }
            assert(d[i].name =~= d[k].name);
        }
    }
    lemma_lookup_from_skips(d, name, 0, k);
}

/// Scanning from `i`, entries before `k` that do not match are passed over.
proof fn lemma_lookup_from_skips(d: Seq<EntryView>, name: Seq<char>, i: int, k: int)
    requires
        0 <= i <= k < d.len(),
        name_matches(d[k].name, name),
        forall|j: int| i <= j < k ==> !name_matches(#[trigger] d[j].name, name),
    ensures
        lookup_from(d, name, i) == Some(d[k]),
    decreases k - i,
{
    if i < k {
        lemma_lookup_from_skips(d, name, i + 1, k);
    }
}

/// In a directory where no name reads as `name`, the lookup finds nothing.
pub proof fn lemma_lookup_absent(d: Seq<EntryView>, name: Seq<char>)
    requires
        forall|j: int| 0 <= j < d.len() ==> !name_matches(#[trigger] d[j].name, name),
    ensures
        lookup(d, name) is None,
{
    lemma_lookup_from_absent(d, name, 0);
}

/// Scanning from `i` in a directory where no name matches finds nothing.
proof fn lemma_lookup_from_absent(d: Seq<EntryView>, name: Seq<char>, i: int)
    requires
        0 <= i,
        forall|j: int| 0 <= j < d.len() ==> !name_matches(#[trigger] d[j].name, name),
    ensures
        lookup_from(d, name, i) is None,
    decreases d.len() - i,
{
    if i < d.len() {
        lemma_lookup_from_absent(d, name, i + 1);
    }
}


/// A level-space point, in the integer units of the archive.
#[derive(Debug, Clone, Copy, PartialEq, Eq, Structural)]
pub struct Vertex {
    pub x: i16,
    pub y: i16,
}

/// A wall line between two vertices, given by their indices.
#[derive(Debug, Clone, Copy, PartialEq, Eq, Structural)]
pub struct LineDef {
    pub start_vertex: u16,
    pub end_vertex: u16,
}

/// Why a named lump could not be produced.
#[derive(Debug, Clone, Copy, PartialEq, Eq, Structural)]
pub enum LumpError {
    /// No directory entry has the name asked for.
    LookupMiss,
    /// The entry was found but its data could not be decoded.
    Format(FormatError),
}

/// Whether the region of `len` bytes from `off` lies inside a byte image of length `n`.
pub open spec fn region_ok(n: int, off: int, len: int) -> bool {
    0 <= off && 0 <= len && off + len <= n
}

/// The vertex record encoded at `off`.
pub open spec fn vertex_at(b: Seq<u8>, off: int) -> Vertex {
    Vertex { x: le_i16_at(b, off) as i16, y: le_i16_at(b, off + 2) as i16 }
}

/// The endpoint indices of the wall-line record encoded at `off`.
pub open spec fn linedef_at(b: Seq<u8>, off: int) -> LineDef {
    LineDef { start_vertex: le_u16_at(b, off) as u16, end_vertex: le_u16_at(b, off + 2) as u16 }
}

/// The decoding of a lump of `len` bytes at `off` into records of `size` bytes,
/// each read by `rec`.
pub open spec fn records<T>(n: int, off: int, len: int, size: int, rec: spec_fn(int) -> T) -> Result<
    Seq<T>,
    FormatError,
> {
    if !region_ok(n, off, len) {
        Err(FormatError::Truncated)
    } else if len % size != 0 {
        Err(FormatError::Misaligned)
    } else {
        Ok(Seq::new((len / size) as nat, |i: int| rec(off + size * i)))
    }
}

/// The vertices held by the lump of `len` bytes at `off`.
pub open spec fn vertices_of(b: Seq<u8>, off: int, len: int) -> Result<Seq<Vertex>, FormatError> {
    records(b.len() as int, off, len, VERTEX_SIZE as int, |o: int| vertex_at(b, o))
}

/// The wall lines held by the lump of `len` bytes at `off`.
pub open spec fn linedefs_of(b: Seq<u8>, off: int, len: int) -> Result<Seq<LineDef>, FormatError> {
    records(b.len() as int, off, len, LINEDEF_SIZE as int, |o: int| linedef_at(b, o))
}

/// What loading a byte image yields, given the tag expected in its header:
/// the decoded directory, or the first error met.
pub open spec fn load_result(b: Seq<u8>, tag: Seq<u8>) -> Result<Seq<EntryView>, FormatError> {
    if b.len() < HEADER_SIZE {
        Err(FormatError::Truncated)
    } else {
        let h = header_at(b);
        if h.identification@ != tag {
            Err(FormatError::BadMagic)
        } else if !region_ok(b.len() as int, h.infotableofs as int, ENTRY_SIZE * h.numlumps) {
            Err(FormatError::Truncated)
        } else {
            Ok(directory_at(b, h.infotableofs as int, h.numlumps as int))
        }
    }
}

/// A loaded archive: where it came from, its bytes and its directory.
#[derive(Debug)]
pub struct DoomEngine {
    pub wad_path: String,
    pub directory: Directory,
    pub data: Vec<u8>,
}

impl DoomEngine {
    /// An engine for the archive at `wad_path`, with nothing loaded yet.
    pub fn new(wad_path: &str) -> (e: DoomEngine)
        ensures
            e.wad_path@ == wad_path@,
            e.directory@ == Seq::<EntryView>::empty(),
            e.data@ == Seq::<u8>::empty(),
    {
        DoomEngine { wad_path: String::from_str(wad_path), directory: Directory::new(0), data: Vec::new() }
    }

    /// Loads the archive image `data`, whose header must carry `tag`. On success
    /// the engine holds the bytes and the decoded directory; on failure it is
    /// left as it was.
    pub fn load_wad(&mut self, data: Vec<u8>, tag: [u8; 4]) -> (r: Result<(), FormatError>)
        ensures
            final(self).wad_path@ == old(self).wad_path@,
            match load_result(data@, tag@) {
                Ok(d) => r is Ok && final(self).directory@ == d && final(self).data@ == data@,
                Err(e) => r == Err::<(), FormatError>(e) && final(self).directory@ == old(
                    self,
                ).directory@ && final(self).data@ == old(self).data@,
            },
    {
        let mut header = WADHeader::new();
        if let Err(e) = header.read_header(data.as_slice()) {
            return Err(e);
        }
        if header.identification[0] != tag[0] || header.identification[1] != tag[1]
            || header.identification[2] != tag[2] || header.identification[3] != tag[3] {
            assert(header.identification@ != tag@) by {
                if header.identification@ == tag@ {
                    assert(header.identification@[0] == tag@[0]);
                    assert(header.identification@[1] == tag@[1]);
                    assert(header.identification@[2] == tag@[2]);
                    assert(header.identification@[3] == tag@[3]);
                }
            }
            return Err(FormatError::BadMagic);
        }
        assert(header.identification@ =~= tag@);
        if header.numlumps < 0 || header.infotableofs < 0 {
            return Err(FormatError::Truncated);
        }
        let mut directory = Directory::new(header.numlumps as usize);
        if let Err(e) = directory.read_entries(
            data.as_slice(),
            header.infotableofs as usize,
            header.numlumps as usize,
        ) {
            return Err(e);
        }
        self.directory = directory;
        self.data = data;
        Ok(())
    }

    /// Decodes the single vertex record at byte `offset`.
    pub fn read_vertex(&self, offset: i32) -> (r: Result<Vertex, FormatError>)
        ensures
            region_ok(self.data@.len() as int, offset as int, VERTEX_SIZE as int) ==> r == Ok::<
                Vertex,
                FormatError,
            >(vertex_at(self.data@, offset as int)),
            !region_ok(self.data@.len() as int, offset as int, VERTEX_SIZE as int) ==> r
                == Err::<Vertex, FormatError>(FormatError::Truncated),
    {
        if offset < 0 || offset as usize > self.data.len() || self.data.len() - (offset as usize)
            < VERTEX_SIZE {
            return Err(FormatError::Truncated);
        }
        let o = offset as usize;
        Ok(Vertex { x: read_i16_le(self.data.as_slice(), o), y: read_i16_le(self.data.as_slice(), o + 2) })
    }

    /// Decodes the lump of `length` bytes at `offset` as vertex records, in
    /// file order.
    pub fn read_vertices(&self, offset: i32, length: i32) -> (r: Result<Vec<Vertex>, FormatError>)
        ensures
            match vertices_of(self.data@, offset as int, length as int) {
                Ok(vs) => r is Ok && r->Ok_0@ == vs,
                Err(e) => r == Err::<Vec<Vertex>, FormatError>(e),
            },
    {
        let data = self.data.as_slice();
        let len = data.len();
        if offset < 0 || length < 0 || offset as usize > len || length as usize > len - offset as usize {
            return Err(FormatError::Truncated);
        }
        if length as usize % VERTEX_SIZE != 0 {
            return Err(FormatError::Misaligned);
        }
        let off = offset as usize;
        let n = length as usize / VERTEX_SIZE;
        let ghost want = Seq::new(n as nat, |i: int| vertex_at(data@, off + VERTEX_SIZE * i));
        let mut out: Vec<Vertex> = Vec::with_capacity(n);
        let mut i: usize = 0;
        while i < n
            invariant
                i <= n,
                n == length / 4,
                len == data@.len(),
                off + length <= len,
                want == Seq::new(n as nat, |k: int| vertex_at(data@, off + VERTEX_SIZE * k)),
                out@ == want.take(i as int),
            decreases n - i,
        {
            assert(VERTEX_SIZE * i + VERTEX_SIZE <= VERTEX_SIZE * n) by (nonlinear_arith)
                requires i < n;
            let at = off + VERTEX_SIZE * i;
            out.push(Vertex { x: read_i16_le(data, at), y: read_i16_le(data, at + 2) });
            i = i + 1;
            assert(out@ =~= want.take(i as int));
        }
        assert(out@ =~= want);
        Ok(out)
    }

    /// Decodes the lump of `length` bytes at `offset` as wall-line records, in
    /// file order; only the two endpoint indices of each record are kept.
    pub fn read_linedefs(&self, offset: i32, length: i32) -> (r: Result<Vec<LineDef>, FormatError>)
        ensures
            match linedefs_of(self.data@, offset as int, length as int) {
                Ok(ls) => r is Ok && r->Ok_0@ == ls,
                Err(e) => r == Err::<Vec<LineDef>, FormatError>(e),
            },
    {
        let data = self.data.as_slice();
        let len = data.len();
        if offset < 0 || length < 0 || offset as usize > len || length as usize > len - offset as usize {
            return Err(FormatError::Truncated);
        }
        if length as usize % LINEDEF_SIZE != 0 {
            return Err(FormatError::Misaligned);
        }
        let off = offset as usize;
        let n = length as usize / LINEDEF_SIZE;
        let ghost want = Seq::new(n as nat, |i: int| linedef_at(data@, off + LINEDEF_SIZE * i));
        let mut out: Vec<LineDef> = Vec::with_capacity(n);
        let mut i: usize = 0;
        while i < n
            invariant
                i <= n,
                n == length / 14,
                len == data@.len(),
                off + length <= len,
                want == Seq::new(n as nat, |k: int| linedef_at(data@, off + LINEDEF_SIZE * k)),
                out@ == want.take(i as int),
            decreases n - i,
        {
            assert(LINEDEF_SIZE * i + LINEDEF_SIZE <= LINEDEF_SIZE * n) by (nonlinear_arith)
                requires i < n;
            let at = off + LINEDEF_SIZE * i;
            out.push(
                LineDef { start_vertex: read_u16_le(data, at), end_vertex: read_u16_le(data, at + 2) },
            );
            i = i + 1;
            assert(out@ =~= want.take(i as int));
        }
        assert(out@ =~= want);
        Ok(out)
    }
}

/// The level data of a loaded archive.
#[derive(Debug)]
pub struct WadData {
    pub wad: DoomEngine,
}

/// The vertices of the lump that `lookup` finds under `name`.
pub open spec fn named_vertices(w: DoomEngine, name: Seq<char>) -> Result<Seq<Vertex>, LumpError> {
    match lookup(w.directory@, name) {
        None => Err(LumpError::LookupMiss),
        Some(e) => match vertices_of(w.data@, e.filepos as int, e.size as int) {
            Ok(vs) => Ok(vs),
            Err(f) => Err(LumpError::Format(f)),
        },
    }
}

/// The wall lines of the lump that `lookup` finds under `name`.
pub open spec fn named_linedefs(w: DoomEngine, name: Seq<char>) -> Result<Seq<LineDef>, LumpError> {
    match lookup(w.directory@, name) {
        None => Err(LumpError::LookupMiss),
        Some(e) => match linedefs_of(w.data@, e.filepos as int, e.size as int) {
            Ok(ls) => Ok(ls),
            Err(f) => Err(LumpError::Format(f)),
        },
    }
}

impl WadData {
    /// Level data drawn from the loaded archive `wad`.
    pub fn new(wad: DoomEngine) -> (d: WadData)
        ensures
            d.wad == wad,
    {
        WadData { wad }
    }

    /// The vertices of the lump named `VERTEXES`.
    pub fn read_vertexes(&self) -> (r: Result<Vec<Vertex>, LumpError>)
        ensures
            match named_vertices(self.wad, "VERTEXES"@) {
                Ok(vs) => r is Ok && r->Ok_0@ == vs,
                Err(e) => r == Err::<Vec<Vertex>, LumpError>(e),
            },
    {
        match self.wad.directory.find_lump("VERTEXES") {
            None => Err(LumpError::LookupMiss),
            Some((off, len)) => match self.wad.read_vertices(off, len) {
                Ok(vs) => Ok(vs),
                Err(f) => Err(LumpError::Format(f)),
            },
        }
    }

    /// The wall lines of the lump named `LINEDEFS`.
    pub fn read_linedefs(&self) -> (r: Result<Vec<LineDef>, LumpError>)
        ensures
            match named_linedefs(self.wad, "LINEDEFS"@) {
                Ok(ls) => r is Ok && r->Ok_0@ == ls,
                Err(e) => r == Err::<Vec<LineDef>, LumpError>(e),
            },
    {
        match self.wad.directory.find_lump("LINEDEFS") {
            None => Err(LumpError::LookupMiss),
            Some((off, len)) => match self.wad.read_linedefs(off, len) {
                Ok(ls) => Ok(ls),
                Err(f) => Err(LumpError::Format(f)),
            },
        }
    }
}


/// A directory that the header places past the end of the bytes, or with a
/// negative offset or count, is refused as truncated; nothing is read from it.
pub proof fn lemma_directory_overrun(b: Seq<u8>, tag: Seq<u8>)
    requires
        b.len() >= HEADER_SIZE,
        header_at(b).identification@ == tag,
        !region_ok(
            b.len() as int,
            header_at(b).infotableofs as int,
            ENTRY_SIZE * header_at(b).numlumps,
        ),
    ensures
        load_result(b, tag) == Err::<Seq<EntryView>, FormatError>(FormatError::Truncated),
{
}

/// A vertex lump of `len` bytes inside the image, `len` a multiple of four,
/// decodes to exactly `len / 4` vertices, the `k`-th read from bytes
/// `off + 4k` to `off + 4k + 4`.
pub proof fn lemma_vertex_decode(b: Seq<u8>, off: int, len: int)
    requires
        region_ok(b.len() as int, off, len),
        len % 4 == 0,
    ensures
        vertices_of(b, off, len) is Ok,
        vertices_of(b, off, len)->Ok_0.len() == len / 4,
        forall|k: int|
            0 <= k < len / 4 ==> #[trigger] vertices_of(b, off, len)->Ok_0[k] == vertex_at(b, off + 4 * k),
{
}

/// A vertex lump inside the image whose length is not a multiple of four is
/// refused as misaligned.
pub proof fn lemma_vertex_misaligned(b: Seq<u8>, off: int, len: int)
    requires
        region_ok(b.len() as int, off, len),
        len % 4 != 0,
    ensures
        vertices_of(b, off, len) == Err::<Seq<Vertex>, FormatError>(FormatError::Misaligned),
{
}

} // verus!
