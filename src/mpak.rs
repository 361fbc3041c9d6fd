//! Message packs: a map file (a header, then one record per entry) and a
//! data file holding the entries back to back. Entries are keyed by ROM
//! address and kept in the order they were first inserted.

use vstd::prelude::*;
use vstd::slice::{slice_subrange, slice_to_vec};

verus! {

#[verifier::external_type_specification]
#[verifier::external_body]
#[verifier::reject_recursive_types(K)]
#[verifier::reject_recursive_types(V)]
#[verifier::reject_recursive_types(S)]
pub struct ExIndexMap<K, V, S>(indexmap::IndexMap<K, V, S>);

pub type EntryMap = indexmap::IndexMap<u32, Vec<u8>>;

/// The key-value pairs of the map, in their order.
pub uninterp spec fn index_entries(m: EntryMap) -> Seq<(u32, Seq<u8>)>;

pub open spec fn has_key(s: Seq<(u32, Seq<u8>)>, k: u32) -> bool {
    exists|i: int| 0 <= i < s.len() && s[i].0 == k
}

pub open spec fn key_index(s: Seq<(u32, Seq<u8>)>, k: u32) -> int {
    choose|i: int| 0 <= i < s.len() && s[i].0 == k
}

pub open spec fn keys_unique(s: Seq<(u32, Seq<u8>)>) -> bool {
    forall|i: int, j: int| 0 <= i < s.len() && 0 <= j < s.len() && i != j ==> s[i].0 != s[j].0
}

/// The pairs after inserting `k` with `v`: an existing key keeps its place
/// and takes the new value, a new key goes last.
pub open spec fn inserted(s: Seq<(u32, Seq<u8>)>, k: u32, v: Seq<u8>) -> Seq<(u32, Seq<u8>)> {
    if has_key(s, k) { s.update(key_index(s, k), (k, v)) } else { s.push((k, v)) }
}

/// Relies on `indexmap::IndexMap::new`: an empty map.
#[verifier::external_body]
fn map_new() -> (m: EntryMap)
    ensures
        index_entries(m) == Seq::<(u32, Seq<u8>)>::empty(),
{
    indexmap::IndexMap::new()
}

/// Relies on `indexmap::IndexMap::len`: the number of pairs.
#[verifier::external_body]
fn map_len(m: &EntryMap) -> (r: usize)
    ensures
        r == index_entries(*m).len(),
{
    m.len()
}

/// Relies on `indexmap::IndexMap::insert`: an existing key stays in its
/// place with the new value, whose old value is returned; a new key is
/// inserted last.
#[verifier::external_body]
fn map_insert(m: &mut EntryMap, k: u32, v: Vec<u8>) -> (r: Option<Vec<u8>>)
    ensures
        index_entries(*final(m)) == inserted(index_entries(*old(m)), k, v@),
        has_key(index_entries(*old(m)), k) ==> (r matches Some(o)
            && o@ == index_entries(*old(m))[key_index(index_entries(*old(m)), k)].1),
        !has_key(index_entries(*old(m)), k) ==> r is None,
{
    m.insert(k, v)
}

/// Relies on `indexmap::IndexMap::get`: the value stored for `k`.
#[verifier::external_body]
fn map_get<'a>(m: &'a EntryMap, k: u32) -> (r: Option<&'a Vec<u8>>)
    ensures
        r matches Some(v) ==> exists|i: int| 0 <= i < index_entries(*m).len()
            && index_entries(*m)[i].0 == k && v@ == index_entries(*m)[i].1,
        r is None ==> !has_key(index_entries(*m), k),
{
    m.get(&k)
}

/// Relies on `indexmap::IndexMap::get_index`: the pair at position `i`.
#[verifier::external_body]
fn map_get_index<'a>(m: &'a EntryMap, i: usize) -> (r: (u32, &'a Vec<u8>))
    requires
        i < index_entries(*m).len(),
    ensures
        r.0 == index_entries(*m)[i as int].0,
        r.1@ == index_entries(*m)[i as int].1,
{
    let (k, v) = m.get_index(i).unwrap();
    (*k, v)
}

/// Errors of `read_from`.
#[derive(Clone, Copy, Debug, PartialEq, Eq, Structural)]
pub enum MpakError {
    /// The map ends before its header or a record, or a record points past
    /// the end of the data.
    UnexpectedEof,
}

/// The little-endian `u32` at byte `i`.
pub open spec fn le32(b: Seq<u8>, i: int) -> int {
    b[i] as int + 256 * b[i + 1] as int + 65536 * b[i + 2] as int + 16777216 * b[i + 3] as int
}

/// The four little-endian bytes of `x`.
pub open spec fn u32le(x: int) -> Seq<u8> {
    seq![(x % 256) as u8, (x / 256 % 256) as u8, (x / 65536 % 256) as u8, (x / 16777216 % 256) as u8]
}

/// The pairs read from the first `k` records of `map`, or `None` where one
/// of them cannot be read.
#[verifier::opaque]
pub open spec fn read_records(map: Seq<u8>, data: Seq<u8>, k: nat) -> Option<Seq<(u32, Seq<u8>)>>
    decreases k,
{
    if k == 0 {
        Some(Seq::empty())
    } else {
        match read_records(map, data, (k - 1) as nat) {
            None => None,
            Some(s) => {
                let at = 12 + 12 * (k - 1);
                if at + 12 > map.len() {
                    None
                } else {
                    let addr = le32(map, at);
                    let offset = le32(map, at + 4);
                    let size = le32(map, at + 8);
                    if offset + size > data.len() {
                        None
                    } else {
                        Some(inserted(s, addr as u32, data.subrange(offset, offset + size)))
                    }
                }
            }
        }
    }
}

/// What `read_from` yields.
pub open spec fn read_spec(map: Seq<u8>, data: Seq<u8>) -> Option<Seq<(u32, Seq<u8>)>> {
    if map.len() < 12 { None } else { read_records(map, data, le32(map, 0) as nat) }
}

pub open spec fn min_key(s: Seq<(u32, Seq<u8>)>) -> int
    decreases s.len(),
{
    if s.len() == 0 {
        0
    } else if s.len() == 1 || s.last().0 < min_key(s.drop_last()) {
        s.last().0 as int
    } else {
        min_key(s.drop_last())
    }
}

pub open spec fn max_key(s: Seq<(u32, Seq<u8>)>) -> int
    decreases s.len(),
{
    if s.len() == 0 {
        0
    } else if s.len() == 1 || s.last().0 > max_key(s.drop_last()) {
        s.last().0 as int
    } else {
        max_key(s.drop_last())
    }
}

/// The data file: the values back to back.
pub open spec fn data_bytes(s: Seq<(u32, Seq<u8>)>) -> Seq<u8>
    decreases s.len(),
{
    if s.len() == 0 { seq![] } else { data_bytes(s.drop_last()) + s.last().1 }
}

/// The records of the first `n` pairs: address, offset and size, each
/// truncated to 32 bits.
pub open spec fn records(s: Seq<(u32, Seq<u8>)>, n: int) -> Seq<u8>
    decreases n,
{
    if n <= 0 {
        seq![]
    } else {
        records(s, n - 1) + u32le(s[n - 1].0 as int)
            + u32le(data_bytes(s.subrange(0, n - 1)).len() as int % 0x1_0000_0000)
            + u32le(s[n - 1].1.len() as int % 0x1_0000_0000)
    }
}

/// The map file.
#[verifier::opaque]
pub open spec fn map_bytes(s: Seq<(u32, Seq<u8>)>) -> Seq<u8> {
    u32le(s.len() as int % 0x1_0000_0000) + u32le(min_key(s)) + u32le(max_key(s)) + records(s, s.len() as int)
}

fn read_le32(b: &[u8], i: usize) -> (r: u32)
    requires
        i + 3 < b@.len(),
    ensures
        r == le32(b@, i as int),
{
    b[i] as u32 + 256 * (b[i + 1] as u32) + 65536 * (b[i + 2] as u32) + 16777216 * (b[i + 3] as u32)
}

fn push_u32_le(out: &mut Vec<u8>, x: u32)
    ensures
        final(out)@ == old(out)@ + u32le(x as int),
{
    out.push((x % 256) as u8);
    out.push((x / 256 % 256) as u8);
    out.push((x / 65536 % 256) as u8);
    out.push((x / 16777216 % 256) as u8);
    assert(final(out)@ =~= old(out)@ + u32le(x as int));
}

proof fn lemma_inserted_unique(s: Seq<(u32, Seq<u8>)>, k: u32, v: Seq<u8>)
    requires
        keys_unique(s),
    ensures
        keys_unique(inserted(s, k, v)),
        has_key(inserted(s, k, v), k),
{
    if has_key(s, k) {
        let i = key_index(s, k);
        assert(inserted(s, k, v)[i].0 == k);
    } else {
        let t = s.push((k, v));
        assert(t[s.len() as int].0 == k);
        assert forall|a: int, b: int| 0 <= a < t.len() && 0 <= b < t.len() && a != b implies t[a].0 != t[b].0 by {
            if a == s.len() as int {
                assert(s[b].0 != k);
            } else if b == s.len() as int {
                assert(s[a].0 != k);
            }
        }
    }
}

proof fn lemma_u32le_le32(x: int)
    requires
        0 <= x < 0x1_0000_0000,
    ensures
        le32(u32le(x), 0) == x,
{
    let b = u32le(x);
    assert(b[0] as int == x % 256);
    assert(b[1] as int == x / 256 % 256);
    assert(b[2] as int == x / 65536 % 256);
    assert(b[3] as int == x / 16777216 % 256);
    assert(x % 256 + 256 * (x / 256 % 256) + 65536 * (x / 65536 % 256) + 16777216 * (x / 16777216 % 256) == x)
        by (nonlinear_arith)
        requires 0 <= x < 0x1_0000_0000;
}

proof fn lemma_records_len(s: Seq<(u32, Seq<u8>)>, j: int)
    requires
        0 <= j <= s.len(),
    ensures
        records(s, j).len() == 12 * j,
    decreases j,
{
    if j > 0 {
        lemma_records_len(s, j - 1);
    }
}

proof fn lemma_records_prefix(s: Seq<(u32, Seq<u8>)>, j: int, m: int)
    requires
        0 <= j <= m <= s.len(),
    ensures
        records(s, m).subrange(0, 12 * j) == records(s, j),
    decreases m,
{
    lemma_records_len(s, m);
    lemma_records_len(s, j);
    if j == m {
        assert(records(s, m).subrange(0, 12 * j) =~= records(s, j));
    } else {
        lemma_records_prefix(s, j, m - 1);
        lemma_records_len(s, m - 1);
        assert(records(s, m).subrange(0, 12 * j) =~= records(s, m - 1).subrange(0, 12 * j));
    }
}

proof fn lemma_data_prefix(s: Seq<(u32, Seq<u8>)>, j: int)
    requires
        0 <= j <= s.len(),
    ensures
        data_bytes(s.subrange(0, j)).len() <= data_bytes(s).len(),
        data_bytes(s).subrange(0, data_bytes(s.subrange(0, j)).len() as int) == data_bytes(s.subrange(0, j)),
    decreases s.len(),
{
    if j == s.len() {
        assert(s.subrange(0, j) =~= s);
        assert(data_bytes(s).subrange(0, data_bytes(s).len() as int) =~= data_bytes(s));
    } else {
        let dl = s.drop_last();
        lemma_data_prefix(dl, j);
        assert(dl.subrange(0, j) =~= s.subrange(0, j));
        assert(data_bytes(s).subrange(0, data_bytes(s.subrange(0, j)).len() as int)
            =~= data_bytes(dl).subrange(0, data_bytes(dl.subrange(0, j)).len() as int));
    }
}

proof fn lemma_data_entry(s: Seq<(u32, Seq<u8>)>, i: int)
    requires
        0 <= i < s.len(),
    ensures
        data_bytes(s.subrange(0, i + 1)).len() == data_bytes(s.subrange(0, i)).len() + s[i].1.len(),
        data_bytes(s.subrange(0, i + 1)).len() <= data_bytes(s).len(),
        data_bytes(s).subrange(data_bytes(s.subrange(0, i)).len() as int, data_bytes(s.subrange(0, i + 1)).len() as int) == s[i].1,
{
    let p = s.subrange(0, i + 1);
    assert(p.drop_last() =~= s.subrange(0, i));
    lemma_data_prefix(s, i + 1);
    let lo = data_bytes(s.subrange(0, i)).len() as int;
    let hi = data_bytes(p).len() as int;
    assert(data_bytes(s).subrange(lo, hi) =~= data_bytes(p).subrange(lo, hi));
    assert(data_bytes(p).subrange(lo, hi) =~= s[i].1);
}

/// Reading back what `write_into` wrote gives the same entries in the same
/// order, whenever the count and the total size of the data fit in 32 bits.
pub proof fn lemma_write_read(s: Seq<(u32, Seq<u8>)>)
    requires
        keys_unique(s),
        s.len() < 0x1_0000_0000,
        data_bytes(s).len() < 0x1_0000_0000,
    ensures
        read_spec(map_bytes(s), data_bytes(s)) == Some(s),
{
    reveal(map_bytes);
    let m = map_bytes(s);
    let d = data_bytes(s);
    let n = s.len() as int;
    let head = u32le(s.len() as int % 0x1_0000_0000) + u32le(min_key(s)) + u32le(max_key(s));
    lemma_records_len(s, n);
    assert(m.len() == 12 + 12 * n);
    lemma_u32le_le32(n);
    assert(m.subrange(0, 4) =~= u32le(n));
    assert(le32(m, 0) == le32(u32le(n), 0));
    lemma_read_prefixes(s, n);
    assert(s.subrange(0, n) =~= s);
}

proof fn lemma_le32_at(m: Seq<u8>, at: int, x: int)
    requires
        0 <= at,
        at + 4 <= m.len(),
        0 <= x < 0x1_0000_0000,
        m.subrange(at, at + 4) == u32le(x),
    ensures
        le32(m, at) == x,
{
    lemma_u32le_le32(x);
    assert(m[at] == m.subrange(at, at + 4)[0]);
    assert(m[at + 1] == m.subrange(at, at + 4)[1]);
    assert(m[at + 2] == m.subrange(at, at + 4)[2]);
    assert(m[at + 3] == m.subrange(at, at + 4)[3]);
}

/// The record of entry `k - 1` in the map file.
proof fn lemma_record_at(s: Seq<(u32, Seq<u8>)>, k: int)
    requires
        1 <= k <= s.len(),
    ensures
        ({
            let m = map_bytes(s);
            let at = 12 + 12 * (k - 1);
            &&& m.len() == 12 + 12 * s.len()
            &&& m.subrange(at, at + 4) == u32le(s[k - 1].0 as int)
            &&& m.subrange(at + 4, at + 8) == u32le(data_bytes(s.subrange(0, k - 1)).len() as int % 0x1_0000_0000)
            &&& m.subrange(at + 8, at + 12) == u32le(s[k - 1].1.len() as int % 0x1_0000_0000)
        }),
{
    reveal(map_bytes);
    let n = s.len() as int;
    let m = map_bytes(s);
    let at = 12 + 12 * (k - 1);
    lemma_records_len(s, n);
    lemma_records_len(s, k - 1);
    lemma_records_prefix(s, k, n);
    let r = records(s, n);
    let rk = records(s, k);
    assert(m.subrange(at, at + 12) =~= r.subrange(12 * (k - 1), 12 * k));
    assert(r.subrange(12 * (k - 1), 12 * k) =~= rk.subrange(12 * (k - 1), 12 * k));
    assert(m.subrange(at, at + 4) =~= rk.subrange(12 * (k - 1), 12 * (k - 1) + 4));
    assert(m.subrange(at + 4, at + 8) =~= rk.subrange(12 * (k - 1) + 4, 12 * (k - 1) + 8));
    assert(m.subrange(at + 8, at + 12) =~= rk.subrange(12 * (k - 1) + 8, 12 * k));
}

proof fn lemma_read_prefixes(s: Seq<(u32, Seq<u8>)>, k: int)
    requires
        keys_unique(s),
        s.len() < 0x1_0000_0000,
        data_bytes(s).len() < 0x1_0000_0000,
        0 <= k <= s.len(),
    ensures
        read_records(map_bytes(s), data_bytes(s), k as nat) == Some(s.subrange(0, k)),
    decreases k,
{
    if k == 0 {
        reveal_with_fuel(read_records, 1);
        assert(s.subrange(0, 0) =~= Seq::<(u32, Seq<u8>)>::empty());
    } else {
        lemma_read_prefixes(s, k - 1);
        let m = map_bytes(s);
        let at = 12 + 12 * (k - 1);
        let lo = data_bytes(s.subrange(0, k - 1)).len() as int;
        let size = s[k - 1].1.len() as int;
        lemma_record_at(s, k);
        lemma_data_entry(s, k - 1);
        lemma_le32_at(m, at, s[k - 1].0 as int);
        lemma_le32_at(m, at + 4, lo);
        lemma_le32_at(m, at + 8, size);
        lemma_prefix_push(s, k);
        lemma_read_step(m, data_bytes(s), k as nat, s.subrange(0, k - 1), s[k - 1].0, lo, size);
    }
}

/// One more record read.
proof fn lemma_read_step(m: Seq<u8>, d: Seq<u8>, k: nat, prev: Seq<(u32, Seq<u8>)>, x: u32, lo: int, size: int)
    requires
        k >= 1,
        read_records(m, d, (k - 1) as nat) == Some(prev),
        12 + 12 * k <= m.len(),
        le32(m, 12 + 12 * (k - 1)) == x,
        le32(m, 12 + 12 * (k - 1) + 4) == lo,
        le32(m, 12 + 12 * (k - 1) + 8) == size,
        0 <= lo,
        0 <= size,
        lo + size <= d.len(),
    ensures
        read_records(m, d, k) == Some(inserted(prev, x, d.subrange(lo, lo + size))),
{
    reveal_with_fuel(read_records, 1);
}

/// In a table with unique keys, the key of entry `k - 1` is new to the
/// entries before it, so inserting it appends.
proof fn lemma_prefix_push(s: Seq<(u32, Seq<u8>)>, k: int)
    requires
        keys_unique(s),
        1 <= k <= s.len(),
    ensures
        inserted(s.subrange(0, k - 1), s[k - 1].0, s[k - 1].1) == s.subrange(0, k),
{
    let prev = s.subrange(0, k - 1);
    assert(!has_key(prev, s[k - 1].0)) by {
        if has_key(prev, s[k - 1].0) {
            let j = choose|j: int| 0 <= j < prev.len() && prev[j].0 == s[k - 1].0;
            assert(s[j].0 == s[k - 1].0);
        }
    }
    assert(prev.push((s[k - 1].0, s[k - 1].1)) =~= s.subrange(0, k));
}

/// A message pack held in memory.
pub struct Mpak {
    entries: EntryMap,
}

impl View for Mpak {
    type V = Seq<(u32, Seq<u8>)>;

    closed spec fn view(&self) -> Seq<(u32, Seq<u8>)> {
        index_entries(self.entries)
    }
}

impl Mpak {
    pub open spec fn wf(&self) -> bool {
        keys_unique(self@)
    }

    pub fn new() -> (r: Mpak)
        ensures
            r.wf(),
            r@ == Seq::<(u32, Seq<u8>)>::empty(),
    {
        Mpak { entries: map_new() }
    }

    /// Number of entries.
    pub fn len(&self) -> (r: usize)
        ensures
            r == self@.len(),
    {
        map_len(&self.entries)
    }

    /// Sets the contents at `rom_addr`, returning what was there before.
    pub fn insert(&mut self, rom_addr: u32, contents: Vec<u8>) -> (r: Option<Vec<u8>>)
        requires
            old(self).wf(),
        ensures
            final(self).wf(),
            final(self)@ == inserted(old(self)@, rom_addr, contents@),
            has_key(old(self)@, rom_addr) ==> (r matches Some(o) && o@ == old(self)@[key_index(old(self)@, rom_addr)].1),
            !has_key(old(self)@, rom_addr) ==> r is None,
    {
        proof {
            lemma_inserted_unique(self@, rom_addr, contents@);
        }
        map_insert(&mut self.entries, rom_addr, contents)
    }

    /// The contents at `rom_addr`.
    pub fn get(&self, rom_addr: u32) -> (r: Option<&[u8]>)
        requires
            self.wf(),
        ensures
            r matches Some(v) ==> has_key(self@, rom_addr) && v@ == self@[key_index(self@, rom_addr)].1,
            r is None ==> !has_key(self@, rom_addr),
    {
        match map_get(&self.entries, rom_addr) {
            Some(v) => {
                proof {
                    let s = self@;
                    let i = choose|i: int| 0 <= i < s.len() && s[i].0 == rom_addr && v@ == s[i].1;
                    assert(s[key_index(s, rom_addr)].0 == rom_addr);
                }
                Some(v.as_slice())
            },
            None => None,
        }
    }

    /// Reads a pack from its map file and its data file.
    pub fn read_from(map: &[u8], data: &[u8]) -> (r: Result<Mpak, MpakError>)
        ensures
            match read_spec(map@, data@) {
                Some(s) => r matches Ok(m) && m.wf() && m@ == s,
                None => r == Err::<Mpak, MpakError>(MpakError::UnexpectedEof),
            },
    {
        if map.len() < 12 {
            return Err(MpakError::UnexpectedEof);
        }
        let count = read_le32(map, 0);
        let mut m = Mpak::new();
        proof {
            reveal_with_fuel(read_records, 1);
        }
        let mut k: u32 = 0;
        while k < count
            invariant
                12 <= map@.len(),
                count == le32(map@, 0),
                k <= count,
                m.wf(),
                read_records(map@, data@, k as nat) == Some(m@),
            decreases count - k,
        {
            if (map.len() - 12) / 12 < k as usize + 1 {
                proof {
                    reveal_with_fuel(read_records, 1);
                    lemma_read_records_stuck(map@, data@, (k + 1) as nat, count as nat);
                }
                return Err(MpakError::UnexpectedEof);
            }
            let at = 12 + 12 * (k as usize);
            let addr = read_le32(map, at);
            let offset = read_le32(map, at + 4) as usize;
            let size = read_le32(map, at + 8) as usize;
            if offset > data.len() || size > data.len() - offset {
                proof {
                    reveal_with_fuel(read_records, 1);
                    lemma_read_records_stuck(map@, data@, (k + 1) as nat, count as nat);
                }
                return Err(MpakError::UnexpectedEof);
            }
            let buf = slice_to_vec(slice_subrange(data, offset, offset + size));
            proof {
                reveal_with_fuel(read_records, 1);
            }
            m.insert(addr, buf);
            k += 1;
        }
        Ok(m)
    }

    /// Writes the pack out as its map file and its data file.
    pub fn write_into(&self) -> (r: (Vec<u8>, Vec<u8>))
        requires
            self.wf(),
        ensures
            r.0@ == map_bytes(self@),
            r.1@ == data_bytes(self@),
    {
        let ghost s = self@;
        let n = self.len();
        let mut min: u32 = 0;
        let mut max: u32 = 0;
        let mut i: usize = 0;
        while i < n
            invariant
                s == self@,
                n == s.len(),
                i <= n,
                min == min_key(s.subrange(0, i as int)),
                max == max_key(s.subrange(0, i as int)),
            decreases n - i,
        {
            let (k, _) = map_get_index(&self.entries, i);
            proof {
                assert(s.subrange(0, i + 1).drop_last() =~= s.subrange(0, i as int));
            }
            if i == 0 || k < min {
                min = k;
            }
            if i == 0 || k > max {
                max = k;
            }
            i += 1;
        }
        assert(s.subrange(0, n as int) =~= s);
        let mut map: Vec<u8> = Vec::new();
        let mut data: Vec<u8> = Vec::new();
        push_u32_le(&mut map, (n as u64 % 0x1_0000_0000) as u32);
        push_u32_le(&mut map, min);
        push_u32_le(&mut map, max);
        let ghost head = map@;
        let mut offset: u32 = 0;
        let mut j: usize = 0;
        while j < n
            invariant
                s == self@,
                n == s.len(),
                j <= n,
                head == u32le(s.len() as int % 0x1_0000_0000) + u32le(min_key(s)) + u32le(max_key(s)),
                map@ == head + records(s, j as int),
                data@ == data_bytes(s.subrange(0, j as int)),
                offset == data@.len() % 0x1_0000_0000,
            decreases n - j,
        {
            let (k, v) = map_get_index(&self.entries, j);
            let len = v.len();
            push_u32_le(&mut map, k);
            push_u32_le(&mut map, offset);
            push_u32_le(&mut map, (len as u64 % 0x1_0000_0000) as u32);
            let mut copy = slice_to_vec(v.as_slice());
            let ghost before = data@;
            data.append(&mut copy);
            proof {
                assert(s.subrange(0, j + 1).drop_last() =~= s.subrange(0, j as int));
                assert(map@ =~= head + records(s, j + 1));
                assert(data@.len() == before.len() + len);
                vstd::arithmetic::div_mod::lemma_add_mod_noop(before.len() as int, len as int, 0x1_0000_0000);
            }
            offset = ((offset as u64 + len as u64 % 0x1_0000_0000) % 0x1_0000_0000) as u32;
            j += 1;
        }
        assert(s.subrange(0, n as int) =~= s);
        proof {
            reveal(map_bytes);
        }
        (map, data)
    }
}

/// Once a record cannot be read, reading more of them cannot succeed.
proof fn lemma_read_records_stuck(map: Seq<u8>, data: Seq<u8>, k: nat, n: nat)
    requires
        k <= n,
        read_records(map, data, k) is None,
    ensures
        read_records(map, data, n) is None,
    decreases n - k,
{
    reveal_with_fuel(read_records, 1);
    if k < n {
        lemma_read_records_stuck(map, data, k + 1, n);
    }
}

} // verus!
