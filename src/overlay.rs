//! An overlay over a read-only zip archive: entries of the base archive can
//! be overridden in memory, and the whole can be repacked into a new archive.

use vstd::prelude::*;
use vstd::hash_map::StringHashMap;
use vstd::string::*;
use crate::zipfile::{
    Archive, ArchiveEntry, ArchiveWriter, Method, archive_entries, written_entries, zip_output,
    zip_entries, healthy, writable_method, open_archive, archive_len, entry_header, read_entry,
    new_writer, write_file, copy_raw, finish_archive,
};

verus! {

/// Errors of the overlay.
#[derive(Debug)]
pub enum OverlayError {
    /// No entry of that name in the base archive.
    NotFound,
    /// The entry is a directory and cannot be replaced.
    IsDirectory,
    /// Reading or writing the archive failed.
    Zip(zip::result::ZipError),
}

/// Whether an entry name denotes a directory.
pub open spec fn is_dir_name(name: Seq<char>) -> bool {
    name.len() > 0 && (name.last() == '/' || name.last() == '\\')
}

pub open spec fn has_entry(es: Seq<ArchiveEntry>, name: Seq<char>) -> bool {
    exists|i: int| 0 <= i < es.len() && es[i].name == name
}

/// The position that a lookup by `name` finds: the last entry of that name.
pub open spec fn entry_index(es: Seq<ArchiveEntry>, name: Seq<char>) -> int {
    choose|i: int| 0 <= i < es.len() && es[i].name == name
        && forall|j: int| i < j < es.len() ==> es[j].name != name
}

/// Name and compression method of one entry of the base archive.
pub struct EntryInfo {
    pub name: String,
    pub method: Method,
}

/// An opened zip archive together with the names and methods of its entries.
pub struct Reader {
    zr: Archive,
    infos: Vec<EntryInfo>,
}

impl View for Reader {
    type V = Seq<ArchiveEntry>;

    closed spec fn view(&self) -> Seq<ArchiveEntry> {
        archive_entries(self.zr)
    }
}

impl Reader {
    pub closed spec fn wf(&self) -> bool {
        &&& self.infos@.len() == self@.len()
        &&& forall|i: int| 0 <= i < self@.len() ==> {
            &&& #[trigger] self.infos@[i].name@ == self@[i].name
            &&& self.infos@[i].method == self@[i].method
        }
    }

    /// Opens the archive held in `bytes`. It opens whenever `bytes` is an
    /// archive whose entries can all be located.
    pub fn new(bytes: Vec<u8>) -> (r: Result<Reader, OverlayError>)
        ensures
            r matches Ok(rd) ==> rd.wf() && zip_entries(bytes@) == Some(rd@),
            zip_entries(bytes@) matches Some(es) && all_locatable(es) ==> r is Ok,
            r matches Err(e) ==> e is Zip,
    {
        let ghost b = bytes@;
        let mut zr = match open_archive(bytes) {
            Ok(zr) => zr,
            Err(e) => {
                return Err(OverlayError::Zip(e));
            },
        };
        let n = archive_len(&zr);
        let ghost es = archive_entries(zr);
        let mut infos: Vec<EntryInfo> = Vec::new();
        let mut i: usize = 0;
        while i < n
            invariant
                n == es.len(),
                archive_entries(zr) == es,
                zip_entries(b) == Some(es),
                b == bytes@,
                i <= n,
                infos@.len() == i,
                forall|k: int| 0 <= k < i ==> {
                    &&& #[trigger] infos@[k].name@ == es[k].name
                    &&& infos@[k].method == es[k].method
                },
            decreases n - i,
        {
            let (name, method) = match entry_header(&mut zr, i) {
                Ok(h) => h,
                Err(e) => {
                    assert(!es[i as int].locatable);
                    assert(!all_locatable(es));
                    return Err(OverlayError::Zip(e));
                },
            };
            infos.push(EntryInfo { name, method });
            i += 1;
        }
        Ok(Reader { zr, infos })
    }

    /// Number of entries.
    pub fn len(&self) -> (r: usize)
        requires
            self.wf(),
        ensures
            r == self@.len(),
    {
        self.infos.len()
    }

    /// The position of the last entry named `name`.
    pub fn find(&self, name: &str) -> (r: Option<usize>)
        requires
            self.wf(),
        ensures
            r matches Some(i) ==> i < self@.len() && self@[i as int].name == name@ && has_entry(self@, name@)
                && i == entry_index(self@, name@),
            r is None ==> !has_entry(self@, name@),
    {
        let target = name.to_owned();
        let mut i: usize = self.infos.len();
        while i > 0
            invariant
                self.wf(),
                i <= self@.len(),
                target@ == name@,
                forall|j: int| i <= j < self@.len() ==> self@[j].name != name@,
            decreases i,
        {
            i -= 1;
            if self.infos[i].name == target {
                proof {
                    let es = self@;
                    assert(self.infos@[i as int].name@ == es[i as int].name);
                    let k = entry_index(es, name@);
                    assert(0 <= k < es.len() && es[k].name == name@
                        && forall|j: int| k < j < es.len() ==> es[j].name != name@);
                    if k < i {
                        assert(es[i as int].name == name@);
                    }
                }
                return Some(i);
            }
            assert(self.infos@[i as int].name@ == self@[i as int].name);
        }
        None
    }

    /// The decompressed contents of the entry named `name`.
    pub fn get(&mut self, name: &str) -> (r: Result<Vec<u8>, OverlayError>)
        requires
            old(self).wf(),
        ensures
            final(self).wf(),
            final(self)@ == old(self)@,
            !has_entry(old(self)@, name@) ==> r matches Err(OverlayError::NotFound),
            has_entry(old(self)@, name@) ==> {
                &&& r matches Ok(v) ==> v@ == old(self)@[entry_index(old(self)@, name@)].data
                &&& r matches Err(e) ==> e is Zip
                &&& old(self)@[entry_index(old(self)@, name@)].decodable ==> r is Ok
            },
    {
        let i = match self.find(name) {
            None => {
                return Err(OverlayError::NotFound);
            },
            Some(i) => i,
        };
        match read_entry(&mut self.zr, i) {
            Ok(v) => Ok(v),
            Err(e) => Err(OverlayError::Zip(e)),
        }
    }
}

/// The state of an overlay: the entries of its base archive and the
/// overriding contents by entry name.
pub ghost struct OverlayModel {
    pub base: Seq<ArchiveEntry>,
    pub overrides: Map<Seq<char>, Seq<u8>>,
}

/// Whether `e` is what the repacked archive holds for base entry `b`: an
/// overridden entry keeps its name and method and holds its override; any
/// other is the base entry itself, stored record included.
pub open spec fn packed_entry(m: OverlayModel, b: ArchiveEntry, e: ArchiveEntry) -> bool {
    if m.overrides.contains_key(b.name) {
        e.name == b.name && e.method == b.method && e.data == m.overrides[b.name]
    } else {
        e == b
    }
}

/// Whether `ws` are the entries of the repacked archive: one for every base
/// entry, in its order.
pub open spec fn packed_as(m: OverlayModel, ws: Seq<ArchiveEntry>) -> bool {
    &&& ws.len() == m.base.len()
    &&& forall|i: int| 0 <= i < ws.len() ==> packed_entry(m, m.base[i], #[trigger] ws[i])
}

/// Whether every entry can be located.
pub open spec fn all_locatable(es: Seq<ArchiveEntry>) -> bool {
    forall|i: int| 0 <= i < es.len() ==> #[trigger] es[i].locatable
}

/// Whether repacking succeeds: every overridden entry uses a method that can
/// be written and its override fits, and every other entry can be located.
pub open spec fn packable(m: OverlayModel) -> bool {
    forall|i: int| 0 <= i < m.base.len() ==> {
        let b = #[trigger] m.base[i];
        if m.overrides.contains_key(b.name) {
            writable_method(b.method) && m.overrides[b.name].len() <= 0x7fff_ffff
        } else {
            b.locatable
        }
    }
}

/// Repacking keeps every base entry, in order, with its name and compression
/// method: an overridden entry holds exactly its override, and any other is
/// copied as it is stored, so it holds the base entry's contents unchanged.
pub proof fn lemma_pack_entries(m: OverlayModel, ws: Seq<ArchiveEntry>, i: int)
    requires
        packed_as(m, ws),
        0 <= i < m.base.len(),
    ensures
        ws.len() == m.base.len(),
        ws[i].name == m.base[i].name,
        ws[i].method == m.base[i].method,
        m.overrides.contains_key(m.base[i].name) ==> ws[i].data == m.overrides[m.base[i].name],
        !m.overrides.contains_key(m.base[i].name) ==> ws[i].data == m.base[i].data && ws[i].stored == m.base[i].stored,
{
    assert(packed_entry(m, m.base[i], ws[i]));
}

/// A base archive with entries overridden in memory.
pub struct Overlay {
    base: Reader,
    overlaid_files: StringHashMap<Vec<u8>>,
}

impl View for Overlay {
    type V = OverlayModel;

    closed spec fn view(&self) -> OverlayModel {
        OverlayModel {
            base: self.base@,
            overrides: self.overlaid_files@.map_values(|v: Vec<u8>| v@),
        }
    }
}

impl Overlay {
    pub closed spec fn wf(&self) -> bool {
        self.base.wf()
    }

    /// An overlay over `base` with nothing overridden.
    pub fn new(base: Reader) -> (r: Overlay)
        requires
            base.wf(),
        ensures
            r.wf(),
            r@.base == base@,
            r@.overrides == Map::<Seq<char>, Seq<u8>>::empty(),
    {
        let r = Overlay { base, overlaid_files: StringHashMap::new() };
        assert(r@.overrides =~= Map::<Seq<char>, Seq<u8>>::empty());
        r
    }

    /// The contents of `path`: its override if it has one, else the base
    /// archive's entry.
    pub fn read(&mut self, path: &str) -> (r: Result<Vec<u8>, OverlayError>)
        requires
            old(self).wf(),
        ensures
            final(self).wf(),
            final(self)@ == old(self)@,
            old(self)@.overrides.contains_key(path@) ==> (r matches Ok(v) && v@ == old(self)@.overrides[path@]),
            !old(self)@.overrides.contains_key(path@) && !has_entry(old(self)@.base, path@)
                ==> r matches Err(OverlayError::NotFound),
            !old(self)@.overrides.contains_key(path@) && has_entry(old(self)@.base, path@) ==> {
                &&& r matches Ok(v) ==> v@ == old(self)@.base[entry_index(old(self)@.base, path@)].data
                &&& r matches Err(e) ==> e is Zip
                &&& old(self)@.base[entry_index(old(self)@.base, path@)].decodable ==> r is Ok
            },
    {
        match self.overlaid_files.get(path) {
            Some(v) => {
                return Ok(v.clone());
            },
            None => {},
        }
        self.base.get(path)
    }

    /// Overrides the base entry `path` with `contents`, replacing any earlier
    /// override. An entry missing from the base archive, or a directory, is
    /// refused and the overlay is left as it was.
    pub fn write(&mut self, path: &str, contents: Vec<u8>) -> (r: Result<(), OverlayError>)
        requires
            old(self).wf(),
        ensures
            final(self).wf(),
            !has_entry(old(self)@.base, path@) <==> r matches Err(OverlayError::NotFound),
            has_entry(old(self)@.base, path@) && is_dir_name(path@) <==> r matches Err(OverlayError::IsDirectory),
            r is Ok <==> has_entry(old(self)@.base, path@) && !is_dir_name(path@),
            r is Ok ==> final(self)@ == (OverlayModel {
                overrides: old(self)@.overrides.insert(path@, contents@),
                ..old(self)@
            }),
            r is Err ==> final(self)@ == old(self)@,
    {
        let i = match self.base.find(path) {
            None => {
                return Err(OverlayError::NotFound);
            },
            Some(i) => i,
        };
        let name = &self.base.infos[i].name;
        let n = name.as_str().unicode_len();
        proof {
            assert(name@ == path@);
        }
        if n > 0 {
            let c = name.as_str().get_char(n - 1);
            if c == '/' || c == '\\' {
                return Err(OverlayError::IsDirectory);
            }
        }
        self.overlaid_files.insert(path.to_owned(), contents);
        assert(self@.overrides =~= old(self)@.overrides.insert(path@, contents@));
        Ok(())
    }

    /// The overriding contents by entry name.
    pub fn into_overlaid_files(self) -> (r: StringHashMap<Vec<u8>>)
        ensures
            r@.dom() == self@.overrides.dom(),
            forall|k: Seq<char>| #[trigger] r@.contains_key(k) ==> r@[k]@ == self@.overrides[k],
    {
        self.overlaid_files
    }

    /// Whether any entry has been overridden.
    pub fn has_overlaid_files(&self) -> (r: bool)
        ensures
            r == !self@.overrides.is_empty(),
    {
        assert(self@.overrides.dom() =~= self.overlaid_files@.dom());
        !self.overlaid_files.is_empty()
    }

    /// Repacks the base archive with the overrides applied. Every base entry
    /// is written in its order: an overridden one with the same compression
    /// method as the base entry, any other copied as it is stored.
    pub fn pack_into(&mut self) -> (r: Result<Vec<u8>, OverlayError>)
        requires
            old(self).wf(),
        ensures
            final(self).wf(),
            final(self)@ == old(self)@,
            packable(old(self)@) ==> r is Ok,
            r matches Ok(b) ==> exists|w: ArchiveWriter| packed_as(old(self)@, written_entries(w)) && zip_output(w) == b@,
            r matches Err(e) ==> e is Zip,
    {
        let ghost m = self@;
        let mut w = new_writer();
        let n = self.base.len();
        let mut i: usize = 0;
        while i < n
            invariant
                self.wf(),
                self@ == m,
                m == old(self)@,
                n == m.base.len(),
                i <= n,
                written_entries(w).len() == i,
                forall|k: int| 0 <= k < i ==> packed_entry(m, m.base[k], #[trigger] written_entries(w)[k]),
                packable(m) ==> healthy(w),
            decreases n - i,
        {
            let info = &self.base.infos[i];
            let ghost ws_before = written_entries(w);
            proof {
                assert(info.name@ == m.base[i as int].name);
                assert(info.method == m.base[i as int].method);
                let b = m.base[i as int];
            }
            let res = match self.overlaid_files.get(info.name.as_str()) {
                Some(contents) => write_file(&mut w, info.name.as_str(), info.method, contents.as_slice()),
                None => copy_raw(&mut w, &mut self.base.zr, i),
            };
            match res {
                Ok(()) => {},
                Err(e) => {
                    return Err(OverlayError::Zip(e));
                },
            }
            proof {
                let ws = written_entries(w);
                assert(ws.len() == i + 1);
                assert forall|k: int| 0 <= k < i + 1 implies packed_entry(m, m.base[k], #[trigger] ws[k]) by {
                    if k < i {
                        assert(ws.subrange(0, i as int)[k] == ws[k]);
                        assert(ws[k] == ws_before[k]);
                    } else {
                        assert(self.base.infos@[k].name@ == m.base[k].name);
                    }
                }
            }
            i += 1;
        }
        match finish_archive(w) {
            Ok(b) => Ok(b),
            Err(e) => Err(OverlayError::Zip(e)),
        }
    }
}

/// Whether a file of the data directory is an archive that gets an overlay:
/// a `.dat` file whose name starts with `exe`, or one of two named archives.
pub open spec fn is_overlay_dat_spec(name: Seq<char>) -> bool {
    &&& name.len() >= 4 && name.subrange(name.len() - 4, name.len() as int) == ".dat"@
    &&& (name.len() >= 3 && name.subrange(0, 3) == "exe"@) || name == "reader.dat"@ || name == "rkb.dat"@
}

pub fn is_overlay_dat(name: &str) -> (r: bool)
    ensures
        r == is_overlay_dat_spec(name@),
{
    proof {
        reveal_strlit(".dat");
        reveal_strlit("exe");
        reveal_strlit("reader.dat");
        reveal_strlit("rkb.dat");
    }
    let n = name.unicode_len();
    if n < 4 {
        return false;
    }
    let ext = name.substring_char(n - 4, n);
    if !(ext.get_char(0) == '.' && ext.get_char(1) == 'd' && ext.get_char(2) == 'a' && ext.get_char(3) == 't') {
        assert(!(ext@ =~= ".dat"@));
        return false;
    }
    assert(ext@ =~= ".dat"@);
    if n >= 3 {
        let pre = name.substring_char(0, 3);
        if pre.get_char(0) == 'e' && pre.get_char(1) == 'x' && pre.get_char(2) == 'e' {
            assert(pre@ =~= "exe"@);
            return true;
        }
        assert(!(pre@ =~= "exe"@));
    }
    let owned = name.to_owned();
    let reader = "reader.dat".to_owned();
    let rkb = "rkb.dat".to_owned();
    owned == reader || owned == rkb
}

} // verus!
