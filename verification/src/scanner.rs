//! Asset discovery and migration. A scan walks a bounded block-height range
//! in consecutive half-open windows, collects the asset handles carried by
//! deposit events, deduplicates them in first-seen order, and for each
//! resolved record derives the canonical descriptor and its digests. The
//! window queries and the per-handle resolution are outside collaborators:
//! this module plans the windows, absorbs their results, and computes
//! everything that follows.

use crate::bytes::{all_zero, is_all_zero, push_all};
use crate::codec::{descriptor_spec, encode, TokenStandard};
use crate::engine::{
    fits_legacy_field, fits_replacement_field, legacy_digest, legacy_hash, replacement_element_at,
    replacement_elements, HashError,
};
use vstd::prelude::*;

verus! {

/// The opaque 32-byte identifier under which the bridge registry indexes a
/// bridged asset; the deduplication key of discovery. Equality is byte-exact.
pub struct AssetHandle {
    pub bytes: Vec<u8>,
}

impl AssetHandle {
    /// A well-formed handle holds exactly 32 bytes.
    pub open spec fn wf(self) -> bool {
        self.bytes@.len() == 32
    }
}

impl View for AssetHandle {
    type V = Seq<u8>;

    open spec fn view(&self) -> Seq<u8> {
        self.bytes@
    }
}

/// The byte strings of a sequence of handles, in order.
pub open spec fn handles_view(s: Seq<AssetHandle>) -> Seq<Seq<u8>> {
    s.map_values(|h: AssetHandle| h@)
}

/// A copy of a handle, byte for byte.
pub fn clone_handle(h: &AssetHandle) -> (r: AssetHandle)
    ensures
        r@ == h@,
{
    let mut b: Vec<u8> = Vec::new();
    push_all(&mut b, &h.bytes);
    proof {
        assert(b@ =~= h.bytes@);
    }
    AssetHandle { bytes: b }
}

/// Whether two handles hold the same bytes.
pub fn handle_eq(a: &AssetHandle, b: &AssetHandle) -> (r: bool)
    ensures
        r == (a@ == b@),
{
    if a.bytes.len() != b.bytes.len() {
        return false;
    }
    let n = a.bytes.len();
    let mut i: usize = 0;
    while i < n
        invariant
            i <= n,
            n == a@.len() && n == b@.len(),
            forall|j: int| 0 <= j < i ==> a@[j] == b@[j],
        decreases n - i,
    {
        if a.bytes[i] != b.bytes[i] {
            return false;
        }
        i = i + 1;
    }
    proof {
        assert(a@ =~= b@);
    }
    true
}

/// Whether some handle in `seen` holds the same bytes as `h`.
pub fn contains_handle(seen: &Vec<AssetHandle>, h: &AssetHandle) -> (r: bool)
    ensures
        r == handles_view(seen@).contains(h@),
{
    let n = seen.len();
    let mut i: usize = 0;
    while i < n
        invariant
            i <= n,
            n == seen@.len(),
            forall|j: int| 0 <= j < i ==> seen@[j]@ != h@,
        decreases n - i,
    {
        if handle_eq(&seen[i], h) {
            proof {
                assert(handles_view(seen@)[i as int] == h@);
            }
            return true;
        }
        i = i + 1;
    }
    proof {
        assert forall|k: int| 0 <= k < handles_view(seen@).len() implies handles_view(seen@)[k]
            != h@ by {
            assert(seen@[k]@ != h@);
        }
    }
    false
}

/// `s` extended by `x` unless `x` already stands in it.
pub open spec fn dedup_push(s: Seq<Seq<u8>>, x: Seq<u8>) -> Seq<Seq<u8>> {
    if s.contains(x) {
        s
    } else {
        s.push(x)
    }
}

/// `acc` extended by the members of `batch` in order, each kept only at its
/// first occurrence over the whole run.
pub open spec fn absorb_spec(acc: Seq<Seq<u8>>, batch: Seq<Seq<u8>>) -> Seq<Seq<u8>>
    decreases batch.len(),
{
    if batch.len() == 0 {
        acc
    } else {
        dedup_push(absorb_spec(acc, batch.drop_last()), batch.last())
    }
}

/// Appends `h` to `seen` unless an equal handle is already there.
pub fn push_unique(seen: &mut Vec<AssetHandle>, h: AssetHandle)
    ensures
        handles_view(final(seen)@) == dedup_push(handles_view(old(seen)@), h@),
{
    let ghost hv = h@;
    if !contains_handle(seen, &h) {
        let ghost pre = seen@;
        seen.push(h);
        proof {
            assert(handles_view(seen@) =~= handles_view(pre).push(hv));
        }
    }
}

/// Absorbs one window's batch of handles into the seen set, in order.
pub fn absorb_batch(seen: &mut Vec<AssetHandle>, batch: &Vec<AssetHandle>)
    ensures
        handles_view(final(seen)@) == absorb_spec(handles_view(old(seen)@), handles_view(batch@)),
{
    let ghost acc0 = handles_view(old(seen)@);
    let ghost bv = handles_view(batch@);
    let n = batch.len();
    proof {
        assert(bv.take(0) =~= Seq::<Seq<u8>>::empty());
    }
    let mut i: usize = 0;
    while i < n
        invariant
            i <= n,
            n == batch@.len(),
            bv == handles_view(batch@),
            handles_view(seen@) == absorb_spec(acc0, bv.take(i as int)),
        decreases n - i,
    {
        let h = clone_handle(&batch[i]);
        push_unique(seen, h);
        proof {
            assert(bv.take(i + 1).drop_last() =~= bv.take(i as int));
            assert(bv.take(i + 1).last() == bv[i as int]);
        }
        i = i + 1;
    }
    proof {
        assert(bv.take(n as int) =~= bv);
    }
}

/// The byte strings of each window batch, in window order.
pub open spec fn batches_view(bs: Seq<Vec<AssetHandle>>) -> Seq<Seq<Seq<u8>>> {
    bs.map_values(|b: Vec<AssetHandle>| handles_view(b@))
}

/// The distinct handles of a sequence of window batches, in first-seen order.
pub open spec fn discover_spec(bs: Seq<Seq<Seq<u8>>>) -> Seq<Seq<u8>>
    decreases bs.len(),
{
    if bs.len() == 0 {
        Seq::empty()
    } else {
        absorb_spec(discover_spec(bs.drop_last()), bs.last())
    }
}

/// Collects the distinct handles of all window batches, in first-seen order:
/// a handle discovered in several windows is kept once, where it first
/// appeared.
pub fn discover_handles(batches: &Vec<Vec<AssetHandle>>) -> (r: Vec<AssetHandle>)
    ensures
        handles_view(r@) == discover_spec(batches_view(batches@)),
{
    let ghost bsv = batches_view(batches@);
    let mut seen: Vec<AssetHandle> = Vec::new();
    proof {
        assert(handles_view(seen@) =~= Seq::<Seq<u8>>::empty());
        assert(bsv.take(0) =~= Seq::<Seq<Seq<u8>>>::empty());
    }
    let n = batches.len();
    let mut i: usize = 0;
    while i < n
        invariant
            i <= n,
            n == batches@.len(),
            bsv == batches_view(batches@),
            handles_view(seen@) == discover_spec(bsv.take(i as int)),
        decreases n - i,
    {
        absorb_batch(&mut seen, &batches[i]);
        proof {
            assert(bsv.take(i + 1).drop_last() =~= bsv.take(i as int));
            assert(bsv.take(i + 1).last() == bsv[i as int]);
        }
        i = i + 1;
    }
    proof {
        assert(bsv.take(n as int) =~= bsv);
    }
    seen
}

/// No byte string occurs twice.
pub open spec fn no_dup(s: Seq<Seq<u8>>) -> bool {
    forall|i: int, j: int| 0 <= i < j < s.len() ==> s[i] != s[j]
}

/// Membership in a sequence extended by one element.
proof fn lemma_push_contains(s: Seq<Seq<u8>>, x: Seq<u8>, y: Seq<u8>)
    ensures
        s.push(x).contains(y) <==> s.contains(y) || y == x,
{
    if s.contains(y) {
        let k = choose|k: int| 0 <= k < s.len() && s[k] == y;
        assert(s.push(x)[k] == y);
    }
    if y == x {
        assert(s.push(x)[s.len() as int] == y);
    }
    if s.push(x).contains(y) {
        let k = choose|k: int| 0 <= k < s.push(x).len() && s.push(x)[k] == y;
        if k < s.len() {
            assert(s[k] == y);
        }
    }
}

/// Membership in a sequence split at its last element.
proof fn lemma_drop_last_contains(s: Seq<Seq<u8>>, y: Seq<u8>)
    requires
        s.len() > 0,
    ensures
        s.contains(y) <==> s.drop_last().contains(y) || y == s.last(),
{
    if s.drop_last().contains(y) {
        let k = choose|k: int| 0 <= k < s.drop_last().len() && s.drop_last()[k] == y;
        assert(s[k] == y);
    }
    if y == s.last() {
        assert(s[s.len() - 1] == y);
    }
    if s.contains(y) {
        let k = choose|k: int| 0 <= k < s.len() && s[k] == y;
        if k < s.len() - 1 {
            assert(s.drop_last()[k] == y);
        }
    }
}

/// Deduplication is exact: absorbing a batch into a duplicate-free seen set
/// keeps it duplicate-free, leaves every seen handle at its position (the
/// first-seen order is preserved), and the result holds a handle if and only
/// if it was already seen or stands in the batch.
pub proof fn lemma_absorb_dedup(acc: Seq<Seq<u8>>, batch: Seq<Seq<u8>>)
    requires
        no_dup(acc),
    ensures
        no_dup(absorb_spec(acc, batch)),
        acc.is_prefix_of(absorb_spec(acc, batch)),
        forall|x: Seq<u8>|
            absorb_spec(acc, batch).contains(x) <==> acc.contains(x) || batch.contains(x),
    decreases batch.len(),
{
    if batch.len() == 0 {
        assert(acc =~= absorb_spec(acc, batch).subrange(0, acc.len() as int));
        assert forall|x: Seq<u8>| !batch.contains(x) by {
            if batch.contains(x) {
                let k = choose|k: int| 0 <= k < batch.len() && batch[k] == x;
            }
        }
    } else {
        lemma_absorb_dedup(acc, batch.drop_last());
        let pre = absorb_spec(acc, batch.drop_last());
        let x = batch.last();
        let out = absorb_spec(acc, batch);
        if pre.contains(x) {
            assert(out == pre);
        } else {
            assert(out == pre.push(x));
            assert forall|i: int, j: int| 0 <= i < j < out.len() implies out[i] != out[j] by {
                if j == pre.len() {
                    assert(out[i] == pre[i]);
                    if pre[i] == x {
                        assert(pre.contains(x));
                    }
                } else {
                    assert(out[i] == pre[i] && out[j] == pre[j]);
                }
            }
            assert(acc =~= out.subrange(0, acc.len() as int));
        }
        assert forall|y: Seq<u8>|
            out.contains(y) <==> acc.contains(y) || batch.contains(y) by {
            lemma_push_contains(pre, x, y);
            lemma_drop_last_contains(batch, y);
        }
    }
}

/// A discovery run's output holds no duplicate handle: a handle seen in two
/// overlapping or adjacent windows is kept exactly once.
pub proof fn lemma_discover_no_dup(bs: Seq<Seq<Seq<u8>>>)
    ensures
        no_dup(discover_spec(bs)),
    decreases bs.len(),
{
    if bs.len() > 0 {
        lemma_discover_no_dup(bs.drop_last());
        lemma_absorb_dedup(discover_spec(bs.drop_last()), bs.last());
    }
}

/// A discovery run's output holds a handle if and only if some window's
/// batch holds it: nothing discovered is dropped and nothing is invented.
pub proof fn lemma_discover_membership(bs: Seq<Seq<Seq<u8>>>, x: Seq<u8>)
    ensures
        discover_spec(bs).contains(x) <==> exists|i: int|
            0 <= i < bs.len() && #[trigger] bs[i].contains(x),
    decreases bs.len(),
{
    if bs.len() > 0 {
        lemma_discover_membership(bs.drop_last(), x);
        lemma_discover_no_dup(bs.drop_last());
        lemma_absorb_dedup(discover_spec(bs.drop_last()), bs.last());
        let pre = discover_spec(bs.drop_last());
        assert(discover_spec(bs) == absorb_spec(pre, bs.last()));
        assert(absorb_spec(pre, bs.last()).contains(x) <==> pre.contains(x) || bs.last().contains(
            x,
        ));
        if discover_spec(bs).contains(x) {
            if pre.contains(x) {
                let i = choose|i: int|
                    0 <= i < bs.drop_last().len() && #[trigger] bs.drop_last()[i].contains(x);
                assert(bs[i].contains(x));
            } else {
                assert(bs[bs.len() - 1].contains(x));
            }
        }
        if exists|i: int| 0 <= i < bs.len() && #[trigger] bs[i].contains(x) {
            let i = choose|i: int| 0 <= i < bs.len() && #[trigger] bs[i].contains(x);
            if i < bs.len() - 1 {
                assert(bs.drop_last()[i].contains(x));
            } else {
                assert(bs.last().contains(x));
            }
        }
    }
}

/// The half-open query windows of a scan of `[from, end)` with window size
/// `w`: each window spans `w` heights and begins where the one before ended,
/// the last clamped so it never exceeds `end`.
pub open spec fn windows_spec(from: int, end: int, w: int) -> Seq<(int, int)>
    decreases end - from,
    when w >= 1
{
    if from >= end {
        Seq::empty()
    } else {
        let to = if from + w <= end {
            from + w
        } else {
            end
        };
        seq![(from, to)] + windows_spec(to, end, w)
    }
}

/// Plans the query windows of a scan: consecutive half-open `[from, to)`
/// windows of `window` heights starting at `start`, the last clamped so it
/// never exceeds `end`.
pub fn plan_windows(start: u64, end: u64, window: u64) -> (r: Vec<(u64, u64)>)
    requires
        window >= 1,
    ensures
        r@.map_values(|p: (u64, u64)| (p.0 as int, p.1 as int)) == windows_spec(
            start as int,
            end as int,
            window as int,
        ),
{
    let ghost all = windows_spec(start as int, end as int, window as int);
    let mut r: Vec<(u64, u64)> = Vec::new();
    let mut from = start;
    proof {
        assert(r@.map_values(|p: (u64, u64)| (p.0 as int, p.1 as int)) =~= Seq::<(int, int)>::empty());
    }
    while from < end
        invariant
            window >= 1,
            from <= end || from == start,
            all == windows_spec(start as int, end as int, window as int),
            all == r@.map_values(|p: (u64, u64)| (p.0 as int, p.1 as int)) + windows_spec(
                from as int,
                end as int,
                window as int,
            ),
        decreases end - from,
    {
        let to = if end - from < window {
            end
        } else {
            from + window
        };
        let ghost prev = r@.map_values(|p: (u64, u64)| (p.0 as int, p.1 as int));
        r.push((from, to));
        proof {
            assert(windows_spec(from as int, end as int, window as int) == seq![
                (from as int, to as int),
            ] + windows_spec(to as int, end as int, window as int));
            assert(r@.map_values(|p: (u64, u64)| (p.0 as int, p.1 as int)) =~= prev + seq![
                (from as int, to as int),
            ]);
            assert((prev + seq![(from as int, to as int)]) + windows_spec(
                to as int,
                end as int,
                window as int,
            ) =~= prev + (seq![(from as int, to as int)] + windows_spec(
                to as int,
                end as int,
                window as int,
            )));
        }
        from = to;
    }
    proof {
        assert(windows_spec(from as int, end as int, window as int) =~= Seq::<(int, int)>::empty());
        assert(all =~= r@.map_values(|p: (u64, u64)| (p.0 as int, p.1 as int)));
    }
    r
}

/// Windows tile the scanned range: the first begins at the scan's start, each
/// next window begins where the one before ended, every window spans at least
/// one and at most `w` heights, and the last ends exactly at `end`.
pub proof fn lemma_windows_chain(from: int, end: int, w: int)
    requires
        w >= 1,
    ensures
        from >= end ==> windows_spec(from, end, w).len() == 0,
        from < end ==> windows_spec(from, end, w).len() > 0 && windows_spec(from, end, w)[0].0
            == from && windows_spec(from, end, w).last().1 == end,
        forall|i: int|
            0 <= i < windows_spec(from, end, w).len() ==> (#[trigger] windows_spec(from, end, w)[i]).1
                == (if windows_spec(from, end, w)[i].0 + w <= end {
                windows_spec(from, end, w)[i].0 + w
            } else {
                end
            }) && windows_spec(from, end, w)[i].0 < windows_spec(from, end, w)[i].1,
        forall|i: int|
            0 <= i < windows_spec(from, end, w).len() - 1 ==> (#[trigger] windows_spec(
                from,
                end,
                w,
            )[i + 1]).0 == windows_spec(from, end, w)[i].1,
    decreases end - from,
{
    if from < end {
        let to = if from + w <= end {
            from + w
        } else {
            end
        };
        lemma_windows_chain(to, end, w);
        let ws = windows_spec(from, end, w);
        let tail = windows_spec(to, end, w);
        assert(ws == seq![(from, to)] + tail);
        assert(ws[0] == (from, to));
        assert forall|i: int| 0 <= i < ws.len() implies (#[trigger] ws[i]).1 == (if ws[i].0 + w
            <= end {
            ws[i].0 + w
        } else {
            end
        }) && ws[i].0 < ws[i].1 by {
            if i > 0 {
                assert(ws[i] == tail[i - 1]);
            }
        }
        assert forall|i: int| 0 <= i < ws.len() - 1 implies (#[trigger] ws[i + 1]).0
            == ws[i].1 by {
            if i == 0 {
                assert(tail.len() > 0);
                assert(to < end);
                assert(tail[0].0 == to);
                assert(ws[1] == tail[0]);
            } else {
                assert(tail[(i - 1) + 1].0 == tail[i - 1].1);
                assert(ws[i] == tail[i - 1]);
                assert(ws[i + 1] == tail[i]);
            }
        }
        if tail.len() == 0 {
            assert(to == end);
            assert(ws.last() == (from, to));
        } else {
            assert(ws.last() == tail.last());
        }
    }
}

/// Every height of the scanned range falls inside one of the planned
/// windows: the scan queries the whole range.
pub proof fn lemma_windows_cover(from: int, end: int, w: int, h: int)
    requires
        w >= 1,
        from <= h < end,
    ensures
        exists|i: int|
            0 <= i < windows_spec(from, end, w).len() && (#[trigger] windows_spec(
                from,
                end,
                w,
            )[i]).0 <= h < windows_spec(from, end, w)[i].1,
    decreases end - from,
{
    let ws = windows_spec(from, end, w);
    let to = if from + w <= end {
        from + w
    } else {
        end
    };
    if h < to {
        assert(ws[0] == (from, to));
        assert((ws[0]).0 <= h < ws[0].1);
    } else {
        lemma_windows_cover(to, end, w, h);
        let tail = windows_spec(to, end, w);
        let j = choose|j: int| 0 <= j < tail.len() && (#[trigger] tail[j]).0 <= h < tail[j].1;
        assert(ws[j + 1] == tail[j]);
        assert((ws[j + 1]).0 <= h < ws[j + 1].1);
    }
}

/// One resolved asset: the registry's record for a discovered handle. A
/// record whose contract address is all zero is unresolved and is skipped.
pub struct AssetRecord {
    /// The handle the record was resolved from.
    pub handle: AssetHandle,
    /// The asset's 20-byte contract address; all zero when unresolved.
    pub contract_address: Vec<u8>,
    /// The token id, written big-endian into 32 bytes.
    pub token_id_be: Vec<u8>,
    /// The token standard the registry reports.
    pub standard: TokenStandard,
}

impl AssetRecord {
    /// Well-formed: a 32-byte handle, a 20-byte address, a 32-byte token id.
    pub open spec fn wf(self) -> bool {
        self.handle.wf() && self.contract_address@.len() == 20 && self.token_id_be@.len() == 32
    }
}

/// The canonical descriptor of a record's asset.
pub open spec fn record_descriptor(rec: AssetRecord) -> Seq<u8> {
    descriptor_spec(rec.standard, rec.contract_address@, rec.token_id_be@)
}

/// The migration output for one asset: its canonical descriptor, the legacy
/// digest, and the replacement field's element encodings of the descriptor.
pub struct MigrationOutput {
    /// The canonical descriptor the digests are derived from.
    pub descriptor: Vec<u8>,
    /// The 32-byte digest under the legacy configuration.
    pub legacy_digest: Vec<u8>,
    /// The descriptor's element encodings under the replacement field.
    pub replacement_elements: Vec<Vec<u8>>,
}

/// The asset handle a deposit event carries: the first 32-byte word of the
/// event's data. `None` when the data is shorter than one word.
pub fn extract_handle(data: &Vec<u8>) -> (r: Option<AssetHandle>)
    ensures
        r is Some <==> data@.len() >= 32,
        r matches Some(h) ==> h@ == data@.subrange(0, 32) && h.wf(),
{
    if data.len() < 32 {
        return None;
    }
    let mut b: Vec<u8> = Vec::new();
    let mut i: usize = 0;
    while i < 32
        invariant
            i <= 32,
            data@.len() >= 32,
            b@ =~= data@.subrange(0, i as int),
        decreases 32 - i,
    {
        b.push(data[i]);
        assert(b@ =~= data@.subrange(0, i + 1));
        i = i + 1;
    }
    Some(AssetHandle { bytes: b })
}

/// The record that the registry's reply encodes for `handle`: three ABI
/// words holding the contract address (word 0, low 20 bytes), the token id
/// (word 1) and the token type code (word 2, last byte). `None` when the
/// reply is shorter than three words.
pub fn decode_asset_record(handle: AssetHandle, reply: &Vec<u8>) -> (r: Option<AssetRecord>)
    requires
        handle.wf(),
    ensures
        r is Some <==> reply@.len() >= 96,
        r matches Some(rec) ==> rec.handle@ == handle@ && rec.contract_address@ == reply@.subrange(
            12,
            32,
        ) && rec.token_id_be@ == reply@.subrange(32, 64) && rec.standard
            == crate::codec::standard_of_code_spec(reply@[95]) && rec.wf(),
{
    if reply.len() < 96 {
        return None;
    }
    let mut addr: Vec<u8> = Vec::new();
    let mut i: usize = 12;
    while i < 32
        invariant
            12 <= i <= 32,
            reply@.len() >= 96,
            addr@ =~= reply@.subrange(12, i as int),
        decreases 32 - i,
    {
        addr.push(reply[i]);
        assert(addr@ =~= reply@.subrange(12, i + 1));
        i = i + 1;
    }
    let mut token: Vec<u8> = Vec::new();
    let mut j: usize = 32;
    while j < 64
        invariant
            32 <= j <= 64,
            reply@.len() >= 96,
            token@ =~= reply@.subrange(32, j as int),
        decreases 64 - j,
    {
        token.push(reply[j]);
        assert(token@ =~= reply@.subrange(32, j + 1));
        j = j + 1;
    }
    let standard = crate::codec::standard_of_code(reply[95]);
    Some(AssetRecord { handle, contract_address: addr, token_id_be: token, standard })
}

/// Migrates one resolved record. An unresolved record (all-zero contract
/// address) is skipped, not an error. Otherwise the canonical descriptor is
/// derived and hashed: a word that fits neither field's order aborts with
/// `DecodeError`; the descriptor's length is fixed by its layout, so
/// `InvalidLength` cannot arise.
pub fn migrate_record(rec: &AssetRecord) -> (r: Result<Option<MigrationOutput>, HashError>)
    requires
        rec.wf(),
    ensures
        all_zero(rec.contract_address@) <==> (r matches Ok(o) && o is None),
        !all_zero(rec.contract_address@) ==> (r is Err <==> !fits_legacy_field(
            record_descriptor(*rec),
        ) || !fits_replacement_field(record_descriptor(*rec))),
        r matches Err(e) ==> e is DecodeError,
        r matches Ok(Some(out)) ==> out.descriptor@ == record_descriptor(*rec)
            && out.legacy_digest@ == legacy_digest(record_descriptor(*rec))
            && out.legacy_digest@.len() == 32 && out.replacement_elements@.len()
            == record_descriptor(*rec).len() / 32 && forall|j: int|
            0 <= j < out.replacement_elements@.len()
                ==> #[trigger] out.replacement_elements@[j]@ == replacement_element_at(
                record_descriptor(*rec),
                j,
            ),
{
    if is_all_zero(&rec.contract_address) {
        return Ok(None);
    }
    let descriptor = encode(rec.standard, &rec.contract_address, &rec.token_id_be);
    let legacy = match legacy_hash(&descriptor) {
        Ok(d) => d,
        Err(e) => {
            return Err(e);
        },
    };
    let replacement = match replacement_elements(&descriptor) {
        Ok(v) => v,
        Err(e) => {
            return Err(e);
        },
    };
    Ok(
        Some(
            MigrationOutput {
                descriptor,
                legacy_digest: legacy,
                replacement_elements: replacement,
            },
        ),
    )
}

} // verus!
