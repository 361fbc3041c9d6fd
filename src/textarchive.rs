//! Text archives: a table of little-endian `u16` offsets, one per entry,
//! followed by the entries back to back. The first offset is also the size
//! of the table.

use vstd::prelude::*;
use vstd::slice::{slice_subrange, slice_to_vec};

verus! {

/// Errors of `unpack`.
#[derive(Clone, Copy, Debug, PartialEq, Eq, Structural)]
pub enum TextArchiveError {
    /// The data ends before the table or an entry does.
    UnexpectedEof,
    /// The offset after entry `i` is smaller than its own.
    OffsetWentBackwards(usize),
}

/// Total length of the entries.
pub open spec fn total_len(es: Seq<Seq<u8>>) -> int
    decreases es.len(),
{
    if es.len() == 0 { 0 } else { total_len(es.drop_last()) + es.last().len() }
}

/// The entries back to back.
pub open spec fn flat(es: Seq<Seq<u8>>) -> Seq<u8>
    decreases es.len(),
{
    if es.len() == 0 { seq![] } else { flat(es.drop_last()) + es.last() }
}

/// The offset recorded for entry `i`: table size plus the lengths before it.
pub open spec fn offset_of(es: Seq<Seq<u8>>, i: int) -> int {
    2 * es.len() + total_len(es.subrange(0, i))
}

/// The table of offsets, each truncated to 16 bits, little-endian.
pub open spec fn offset_table(es: Seq<Seq<u8>>) -> Seq<u8> {
    Seq::new(2 * es.len(), |k: int| {
        let o = offset_of(es, k / 2) % 65536;
        if k % 2 == 0 { (o % 256) as u8 } else { (o / 256) as u8 }
    })
}

/// A packed text archive.
pub open spec fn packed_text(es: Seq<Seq<u8>>) -> Seq<u8> {
    offset_table(es) + flat(es)
}

pub open spec fn deep(v: Seq<Vec<u8>>) -> Seq<Seq<u8>> {
    v.map_values(|e: Vec<u8>| e@)
}

proof fn lemma_total_len_prefix(es: Seq<Seq<u8>>, i: int)
    requires
        0 <= i <= es.len(),
    ensures
        0 <= total_len(es.subrange(0, i)) <= total_len(es),
    decreases es.len() - i,
{
    if i < es.len() {
        lemma_total_len_prefix(es, i + 1);
        assert(es.subrange(0, i + 1).drop_last() =~= es.subrange(0, i));
    } else {
        assert(es.subrange(0, i) =~= es);
    }
    lemma_total_len_nonneg(es.subrange(0, i));
}

proof fn lemma_total_len_nonneg(es: Seq<Seq<u8>>)
    ensures
        total_len(es) >= 0,
    decreases es.len(),
{
    if es.len() > 0 {
        lemma_total_len_nonneg(es.drop_last());
    }
}

/// Packs `entries` into a text archive.
pub fn pack(entries: &Vec<Vec<u8>>) -> (r: Vec<u8>)
    requires
        2 * entries@.len() + total_len(deep(entries@)) <= usize::MAX,
    ensures
        r@ == packed_text(deep(entries@)),
{
    let ghost es = deep(entries@);
    proof {
        lemma_total_len_nonneg(es);
    }
    let n = entries.len();
    let mut out: Vec<u8> = Vec::new();
    let mut offset: usize = 2 * n;
    let mut i: usize = 0;
    while i < n
        invariant
            es == deep(entries@),
            n == es.len(),
            2 * n + total_len(es) <= usize::MAX,
            i <= n,
            offset == offset_of(es, i as int),
            out@ == offset_table(es).subrange(0, 2 * i),
        decreases n - i,
    {
        proof {
            lemma_total_len_prefix(es, i as int);
            lemma_total_len_prefix(es, i + 1);
            assert(es.subrange(0, i + 1).drop_last() =~= es.subrange(0, i as int));
        }
        let o = (offset % 65536) as u16;
        out.push((o % 256) as u8);
        out.push((o / 256) as u8);
        assert(out@ =~= offset_table(es).subrange(0, 2 * (i + 1)));
        offset = offset + entries[i].len();
        i += 1;
    }
    let mut j: usize = 0;
    while j < n
        invariant
            es == deep(entries@),
            n == es.len(),
            j <= n,
            out@ == offset_table(es) + flat(es.subrange(0, j as int)),
        decreases n - j,
    {
        let mut e = slice_to_vec(entries[j].as_slice());
        out.append(&mut e);
        assert(es.subrange(0, j + 1).drop_last() =~= es.subrange(0, j as int));
        assert(out@ =~= offset_table(es) + flat(es.subrange(0, j + 1)));
        j += 1;
    }
    assert(es.subrange(0, n as int) =~= es);
    out
}

/// The little-endian `u16` at byte `i`.
pub open spec fn le16(b: Seq<u8>, i: int) -> int {
    b[i] as int + 256 * b[i + 1] as int
}

/// Number of entries: half the first offset, and at least one.
pub open spec fn entry_count(b: Seq<u8>) -> int {
    if le16(b, 0) / 2 > 1 { le16(b, 0) / 2 } else { 1 }
}

pub open spec fn off(b: Seq<u8>, i: int) -> int {
    le16(b, 2 * i)
}

/// Where entry `i` starts, once the entries before it were read.
pub open spec fn start(b: Seq<u8>, i: int) -> int {
    2 * entry_count(b) + off(b, i) - off(b, 0)
}

/// Entry `i` can be read, and the next one starts after it.
pub open spec fn step_ok(b: Seq<u8>, i: int) -> bool {
    off(b, i) <= off(b, i + 1) && start(b, i + 1) <= b.len()
}

/// The first entry, from `i` on, that cannot be read; the last entry, which
/// runs to the end, always can.
pub open spec fn first_bad(b: Seq<u8>, i: int) -> Option<int>
    decreases entry_count(b) - i,
{
    if i >= entry_count(b) - 1 || i < 0 {
        None
    } else if !step_ok(b, i) {
        Some(i)
    } else {
        first_bad(b, i + 1)
    }
}

/// The entries of a readable archive.
pub open spec fn entries_of(b: Seq<u8>) -> Seq<Seq<u8>> {
    Seq::new(entry_count(b) as nat, |i: int|
        if i < entry_count(b) - 1 { b.subrange(start(b, i), start(b, i + 1)) }
        else { b.subrange(start(b, i), b.len() as int) })
}

/// What `unpack` yields for `b`.
pub open spec fn unpack_spec(b: Seq<u8>) -> Result<Seq<Seq<u8>>, TextArchiveError> {
    if b.len() < 2 || b.len() < 2 * entry_count(b) {
        Err(TextArchiveError::UnexpectedEof)
    } else {
        match first_bad(b, 0) {
            Some(i) => if off(b, i + 1) < off(b, i) {
                Err(TextArchiveError::OffsetWentBackwards(i as usize))
            } else {
                Err(TextArchiveError::UnexpectedEof)
            },
            None => Ok(entries_of(b)),
        }
    }
}

proof fn lemma_first_bad_skip(b: Seq<u8>, i: int)
    requires
        0 <= i,
        forall|k: int| 0 <= k < i ==> step_ok(b, k),
    ensures
        first_bad(b, 0) == first_bad(b, i),
    decreases i,
{
    if i > 0 {
        assert(forall|k: int| 0 <= k < i - 1 ==> step_ok(b, k));
        lemma_first_bad_skip(b, i - 1);
        if i - 1 < entry_count(b) - 1 {
            assert(step_ok(b, i - 1));
        }
    }
}

fn read_le16(b: &[u8], i: usize) -> (r: usize)
    requires
        i + 1 < b@.len(),
    ensures
        r == le16(b@, i as int),
{
    b[i] as usize + 256 * (b[i + 1] as usize)
}

proof fn lemma_flat_len(es: Seq<Seq<u8>>)
    ensures
        flat(es).len() == total_len(es),
    decreases es.len(),
{
    if es.len() > 0 {
        lemma_flat_len(es.drop_last());
    }
}

proof fn lemma_flat_prefix(es: Seq<Seq<u8>>, j: int)
    requires
        0 <= j <= es.len(),
    ensures
        flat(es).subrange(0, total_len(es.subrange(0, j))) == flat(es.subrange(0, j)),
    decreases es.len(),
{
    lemma_flat_len(es);
    if j == es.len() {
        assert(es.subrange(0, j) =~= es);
        assert(flat(es).subrange(0, total_len(es)) =~= flat(es));
    } else {
        let dl = es.drop_last();
        lemma_flat_prefix(dl, j);
        assert(dl.subrange(0, j) =~= es.subrange(0, j));
        lemma_total_len_prefix(dl, j);
        lemma_flat_len(dl);
        assert(flat(es).subrange(0, total_len(es.subrange(0, j)))
            =~= flat(dl).subrange(0, total_len(dl.subrange(0, j))));
    }
}

proof fn lemma_flat_entry(es: Seq<Seq<u8>>, i: int)
    requires
        0 <= i < es.len(),
    ensures
        flat(es).subrange(total_len(es.subrange(0, i)), total_len(es.subrange(0, i + 1))) == es[i],
{
    let p = es.subrange(0, i + 1);
    assert(p.drop_last() =~= es.subrange(0, i));
    lemma_flat_prefix(es, i + 1);
    lemma_flat_len(es.subrange(0, i));
    lemma_total_len_prefix(es, i + 1);
    lemma_flat_len(es);
    assert(flat(es).subrange(total_len(es.subrange(0, i)), total_len(p))
        =~= flat(p).subrange(total_len(es.subrange(0, i)), total_len(p)));
    assert(flat(p).subrange(total_len(es.subrange(0, i)), total_len(p)) =~= es[i]);
}

proof fn lemma_no_bad(b: Seq<u8>, i: int)
    requires
        0 <= i,
        forall|k: int| i <= k < entry_count(b) - 1 ==> step_ok(b, k),
    ensures
        first_bad(b, i) is None,
    decreases entry_count(b) - i,
{
    if i < entry_count(b) - 1 {
        lemma_no_bad(b, i + 1);
    }
}

/// Unpacking a packed archive gives its entries back, whenever there is at
/// least one entry and every offset fits in 16 bits: the table and all
/// entries but the last, which runs to the end, stay below 65536 bytes.
pub proof fn lemma_pack_unpack(es: Seq<Seq<u8>>)
    requires
        es.len() >= 1,
        2 * es.len() + total_len(es.drop_last()) < 65536,
    ensures
        unpack_spec(packed_text(es)) == Ok::<Seq<Seq<u8>>, TextArchiveError>(es),
{
    let n = es.len() as int;
    let b = packed_text(es);
    lemma_flat_len(es);
    assert(b.len() == 2 * n + total_len(es));
    assert forall|k: int| 0 <= k < n implies #[trigger] off(b, k) == offset_of(es, k) by {
        lemma_total_len_prefix(es, k);
        lemma_total_len_prefix(es.drop_last(), k);
        assert(es.drop_last().subrange(0, k) =~= es.subrange(0, k));
        let o = offset_of(es, k);
        assert(b[2 * k] == offset_table(es)[2 * k]);
        assert(b[2 * k + 1] == offset_table(es)[2 * k + 1]);
        assert((2 * k) / 2 == k);
        assert((2 * k + 1) / 2 == k);
        assert(o % 65536 == o);
    }
    assert(es.subrange(0, 0) =~= Seq::<Seq<u8>>::empty());
    assert(off(b, 0) == 2 * n);
    assert(entry_count(b) == n);
    assert forall|k: int| 0 <= k < n implies #[trigger] start(b, k) == offset_of(es, k) by {}
    assert forall|k: int| 0 <= k < n - 1 implies #[trigger] step_ok(b, k) by {
        assert(es.subrange(0, k + 1).drop_last() =~= es.subrange(0, k));
        lemma_total_len_prefix(es, k + 1);
    }
    lemma_no_bad(b, 0);
    assert forall|i: int| 0 <= i < n implies #[trigger] entries_of(b)[i] == es[i] by {
        lemma_flat_entry(es, i);
        lemma_total_len_prefix(es, i);
        lemma_total_len_prefix(es, i + 1);
        let lo = total_len(es.subrange(0, i));
        let hi = total_len(es.subrange(0, i + 1));
        assert(es.subrange(0, i + 1).drop_last() =~= es.subrange(0, i));
        assert(lo <= hi <= total_len(es));
        assert(offset_table(es).len() == 2 * n);
        assert(b.subrange(2 * n + lo, 2 * n + hi) =~= flat(es).subrange(lo, hi));
        if i == n - 1 {
            assert(es.subrange(0, i + 1) =~= es);
        }
    }
    assert(entries_of(b) =~= es);
}

/// Unpacks a text archive into its entries.
pub fn unpack(b: &[u8]) -> (r: Result<Vec<Vec<u8>>, TextArchiveError>)
    ensures
        match unpack_spec(b@) {
            Ok(es) => r matches Ok(v) && deep(v@) == es,
            Err(e) => r == Err::<Vec<Vec<u8>>, TextArchiveError>(e),
        },
{
    let len = b.len();
    if len < 2 {
        return Err(TextArchiveError::UnexpectedEof);
    }
    let first = read_le16(b, 0);
    let count: usize = if first / 2 > 1 { first / 2 } else { 1 };
    if len / 2 < count {
        return Err(TextArchiveError::UnexpectedEof);
    }
    let mut offsets: Vec<usize> = Vec::new();
    let mut k: usize = 0;
    while k < count
        invariant
            len == b@.len(),
            count == entry_count(b@),
            2 * count <= len,
            k <= count,
            offsets@.len() == k,
            forall|j: int| 0 <= j < k ==> offsets@[j] == off(b@, j),
        decreases count - k,
    {
        let o = read_le16(b, 2 * k);
        offsets.push(o);
        k += 1;
    }
    let mut out: Vec<Vec<u8>> = Vec::new();
    let mut pos: usize = 2 * count;
    let mut i: usize = 0;
    while i + 1 < count
        invariant
            len == b@.len(),
            count == entry_count(b@),
            2 * count <= len,
            offsets@.len() == count,
            forall|j: int| 0 <= j < count ==> offsets@[j] == off(b@, j),
            i < count,
            pos == start(b@, i as int),
            pos <= len,
            forall|j: int| 0 <= j < i ==> step_ok(b@, j),
            deep(out@) == entries_of(b@).subrange(0, i as int),
        decreases count - i,
    {
        if offsets[i + 1] < offsets[i] {
            proof {
                lemma_first_bad_skip(b@, i as int);
            }
            return Err(TextArchiveError::OffsetWentBackwards(i));
        }
        let n = offsets[i + 1] - offsets[i];
        if n > len - pos {
            proof {
                lemma_first_bad_skip(b@, i as int);
            }
            return Err(TextArchiveError::UnexpectedEof);
        }
        let e = slice_to_vec(slice_subrange(b, pos, pos + n));
        let ghost old_out = out@;
        out.push(e);
        proof {
            assert(pos + n == start(b@, i + 1));
            assert(e@ == entries_of(b@)[i as int]);
            assert(deep(out@) =~= deep(old_out).push(e@));
            assert(deep(out@) =~= entries_of(b@).subrange(0, i + 1));
        }
        pos = pos + n;
        i += 1;
    }
    let e = slice_to_vec(slice_subrange(b, pos, len));
    let ghost old_out = out@;
    out.push(e);
    proof {
        assert(e@ == entries_of(b@)[i as int]);
        assert(deep(out@) =~= deep(old_out).push(e@));
        lemma_first_bad_skip(b@, i as int);
        assert(deep(out@) =~= entries_of(b@));
    }
    Ok(out)
}

} // verus!
